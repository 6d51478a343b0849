//! The union builder: folds the candidate types observed for one logical
//! position into a single node.
//!
//! Candidates that are themselves unions are first flattened (their members
//! stand in for them), then duplicates under structural equality are
//! dropped, keeping first-seen order. A single surviving shape is returned
//! unchanged; two or more become a fresh Union node over exactly those
//! members, so nested unions and structural duplicates never occur among
//! union members.

use vstd::prelude::*;

use crate::equality::type_eq;
use crate::schema::{graph_wf, members_view, node_wf, ArenaIndex, Type, TypeArena, TypeView};

verus! {

/// What one candidate contributes: a union its members, anything else itself.
pub open spec fn expand_one(g: Seq<TypeView>, c: int) -> Seq<int> {
    if 0 <= c < g.len() {
        match g[c] {
            TypeView::Union { members } => members,
            _ => seq![c],
        }
    } else {
        seq![c]
    }
}

/// The flattened candidate list.
pub open spec fn flatten_spec(g: Seq<TypeView>, cands: Seq<int>) -> Seq<int>
    decreases cands.len(),
{
    if cands.len() == 0 {
        Seq::empty()
    } else {
        expand_one(g, cands[0]) + flatten_spec(g, cands.drop_first())
    }
}

/// Whether some handle in `acc` is structurally equal to `c`.
pub open spec fn contains_eq(g: Seq<TypeView>, acc: Seq<int>, c: int) -> bool {
    exists|j: int| 0 <= j < acc.len() && type_eq(g, #[trigger] acc[j], c)
}

/// Deduplication by structural equality, keeping first occurrences.
pub open spec fn dedup_rec(g: Seq<TypeView>, s: Seq<int>, acc: Seq<int>) -> Seq<int>
    decreases s.len(),
{
    if s.len() == 0 {
        acc
    } else if contains_eq(g, acc, s[0]) {
        dedup_rec(g, s.drop_first(), acc)
    } else {
        dedup_rec(g, s.drop_first(), acc.push(s[0]))
    }
}

/// The distinct shapes among the flattened candidates, in first-seen order.
pub open spec fn union_result(g: Seq<TypeView>, cands: Seq<int>) -> Seq<int> {
    dedup_rec(g, flatten_spec(g, cands), Seq::empty())
}

/// What folding `cands` does to graph `g`: the unchanged graph and the one
/// surviving handle, or the graph extended by one Union node over the
/// distinct shapes.
pub open spec fn union_spec(g: Seq<TypeView>, cands: Seq<int>) -> (Seq<TypeView>, int) {
    let d = union_result(g, cands);
    if d.len() == 1 {
        (g, d[0])
    } else {
        (g.push(TypeView::Union { members: d }), g.len() as int)
    }
}


/// Law: one observed shape that is not itself a union is returned
/// unchanged — a position with a single shape never becomes a one-member
/// union.
pub proof fn lemma_union_single(g: Seq<TypeView>, c: int)
    requires
        !(0 <= c < g.len() && g[c] is Union),
    ensures
        union_spec(g, seq![c]) == (g, c),
{
    let one = seq![c];
    assert(one[0] == c);
    assert(expand_one(g, c) =~= one);
    assert(one.drop_first() =~= Seq::<int>::empty());
    assert(flatten_spec(g, Seq::<int>::empty()) =~= Seq::<int>::empty());
    assert(flatten_spec(g, one) == expand_one(g, one[0]) + flatten_spec(g, one.drop_first()));
    assert(flatten_spec(g, one) =~= one);
    assert(!contains_eq(g, Seq::<int>::empty(), c));
    assert(dedup_rec(g, one, Seq::empty()) == dedup_rec(
        g,
        one.drop_first(),
        Seq::<int>::empty().push(c),
    ));
    assert(dedup_rec(g, one.drop_first(), Seq::<int>::empty().push(c)) == Seq::<
        int,
    >::empty().push(c));
    assert(Seq::<int>::empty().push(c) =~= one);
    assert(union_result(g, one) =~= one);
    assert(union_result(g, one).len() == 1);
    assert(union_result(g, one)[0] == c);
}

proof fn lemma_dedup_distinct(g: Seq<TypeView>, s: Seq<int>, acc: Seq<int>)
    requires
        forall|i: int, j: int|
            0 <= i < j < acc.len() ==> !type_eq(g, #[trigger] acc[i], #[trigger] acc[j]),
    ensures
        ({
            let d = dedup_rec(g, s, acc);
            forall|i: int, j: int|
                0 <= i < j < d.len() ==> !type_eq(g, #[trigger] d[i], #[trigger] d[j])
        }),
    decreases s.len(),
{
    if s.len() == 0 {
        assert(dedup_rec(g, s, acc) == acc);
    } else {
        if contains_eq(g, acc, s[0]) {
            lemma_dedup_distinct(g, s.drop_first(), acc);
            assert(dedup_rec(g, s, acc) == dedup_rec(g, s.drop_first(), acc));
        } else {
            let acc1 = acc.push(s[0]);
            assert forall|i: int, j: int|
                0 <= i < j < acc1.len() implies !type_eq(g, #[trigger] acc1[i], #[trigger] acc1[j]) by {
                if j == acc.len() {
                    assert(acc1[j] == s[0]);
                    assert(acc1[i] == acc[i]);
                }
            }
            lemma_dedup_distinct(g, s.drop_first(), acc1);
            assert(dedup_rec(g, s, acc) == dedup_rec(g, s.drop_first(), acc1));
        }
    }
}

/// Law: among the shapes a fold keeps, no later one is structurally equal
/// to an earlier one — union members are never duplicates of one another.
pub proof fn lemma_union_members_distinct(g: Seq<TypeView>, cands: Seq<int>)
    ensures
        ({
            let d = union_result(g, cands);
            forall|i: int, j: int|
                0 <= i < j < d.len() ==> !type_eq(g, #[trigger] d[i], #[trigger] d[j])
        }),
{
    lemma_dedup_distinct(g, flatten_spec(g, cands), Seq::empty());
}

fn contains_equal(arena: &TypeArena, acc: &Vec<ArenaIndex>, c: ArenaIndex) -> (r: bool)
    requires
        graph_wf(arena@),
    ensures
        r == contains_eq(arena@, members_view(acc@), c as int),
{
    let mut j: usize = 0;
    while j < acc.len()
        invariant
            graph_wf(arena@),
            0 <= j <= acc@.len(),
            forall|k: int|
                0 <= k < j ==> !type_eq(arena@, #[trigger] members_view(acc@)[k], c as int),
        decreases acc@.len() - j,
    {
        assert(members_view(acc@)[j as int] == acc@[j as int] as int);
        if crate::equality::structurally_equal(arena, acc[j], c) {
            return true;
        }
        j += 1;
    }
    false
}

/// Fold an observed candidate list into the one handle that represents the
/// position, inserting a Union node only when two or more distinct shapes
/// remain.
fn expand_into(arena: &TypeArena, c: ArenaIndex, flat: &mut Vec<ArenaIndex>)
    requires
        graph_wf(arena@),
        c < arena@.len(),
        forall|k: int| 0 <= k < old(flat)@.len() ==> (#[trigger] old(flat)@[k]) < arena@.len(),
    ensures
        members_view(final(flat)@) =~= members_view(old(flat)@) + expand_one(arena@, c as int),
        forall|k: int| 0 <= k < final(flat)@.len() ==> (#[trigger] final(flat)@[k]) < arena@.len(),
{
    let ghost g = arena@;
    let ghost flat0 = members_view(flat@);
    assert(node_wf(g[c as int], g.len() as int));
    match arena.resolve(c) {
        Type::Union(ms) => {
            assert(expand_one(g, c as int) == members_view(ms@));
            assert(forall|q: int| 0 <= q < ms@.len() ==> (#[trigger] ms@[q]) < g.len()) by {
                assert(forall|q: int|
                    0 <= q < ms@.len() ==> members_view(ms@)[q] == #[trigger] ms@[q] as int);
            }
            assert(members_view(ms@).take(0) =~= Seq::<int>::empty());
            let mut k: usize = 0;
            while k < ms.len()
                invariant
                    0 <= k <= ms@.len(),
                    members_view(flat@) =~= flat0 + members_view(ms@).take(k as int),
                    forall|q: int| 0 <= q < ms@.len() ==> (#[trigger] ms@[q]) < g.len(),
                    forall|q: int| 0 <= q < flat@.len() ==> (#[trigger] flat@[q]) < g.len(),
                decreases ms@.len() - k,
            {
                assert(members_view(ms@)[k as int] == ms@[k as int] as int);
                let ghost fprev = members_view(flat@);
                flat.push(ms[k]);
                assert(members_view(flat@) =~= fprev.push(ms@[k as int] as int));
                assert(members_view(flat@) =~= flat0 + members_view(ms@).take(k as int + 1));
                k += 1;
            }
            assert(members_view(ms@).take(ms@.len() as int) =~= members_view(ms@));
        },
        _ => {
            assert(expand_one(g, c as int) =~= seq![c as int]);
            flat.push(c);
            assert(members_view(flat@) =~= flat0.push(c as int));
            assert(members_view(flat@) =~= flat0 + seq![c as int]);
        },
    }
}

pub fn union_types(arena: &mut TypeArena, cands: &Vec<ArenaIndex>) -> (r: ArenaIndex)
    requires
        graph_wf(old(arena)@),
        forall|i: int| 0 <= i < cands@.len() ==> (#[trigger] cands@[i]) < old(arena)@.len(),
    ensures
        graph_wf(final(arena)@),
        old(arena)@.is_prefix_of(final(arena)@),
        r < final(arena)@.len(),
        (final(arena)@, r as int) == union_spec(old(arena)@, members_view(cands@)),
{
    let ghost g = arena@;
    let ghost cv = members_view(cands@);
    let n = arena.len();

    // Flatten: a union candidate contributes its members.
    let mut flat: Vec<ArenaIndex> = Vec::new();
    assert(members_view(flat@) =~= Seq::<int>::empty());
    assert(cv.skip(0) =~= cv);
    assert(flatten_spec(g, cv) =~= Seq::<int>::empty() + flatten_spec(g, cv.skip(0)));
    let mut i: usize = 0;
    while i < cands.len()
        invariant
            arena@ == g,
            graph_wf(g),
            n == g.len(),
            cv == members_view(cands@),
            forall|k: int| 0 <= k < cands@.len() ==> (#[trigger] cands@[k]) < g.len(),
            0 <= i <= cands@.len(),
            flatten_spec(g, cv) == members_view(flat@) + flatten_spec(g, cv.skip(i as int)),
            forall|k: int| 0 <= k < flat@.len() ==> (#[trigger] flat@[k]) < g.len(),
        decreases cands@.len() - i,
    {
        let ghost flat0 = members_view(flat@);
        assert(cv.skip(i as int)[0] == cv[i as int]);
        assert(cv.skip(i as int).drop_first() =~= cv.skip(i as int + 1));
        assert(cv[i as int] == cands@[i as int] as int);
        let c = cands[i];
        expand_into(arena, c, &mut flat);
        assert(flatten_spec(g, cv.skip(i as int)) == expand_one(g, cv[i as int]) + flatten_spec(
            g,
            cv.skip(i as int + 1),
        ));
        assert(flatten_spec(g, cv) =~= members_view(flat@) + flatten_spec(g, cv.skip(i as int + 1)));
        i += 1;
    }
    assert(cv.skip(cv.len() as int) =~= Seq::<int>::empty());
    assert(flatten_spec(g, cv.skip(cv.len() as int)) =~= Seq::<int>::empty());
    assert(members_view(flat@) =~= flatten_spec(g, cv));
    let ghost fl = members_view(flat@);

    // Deduplicate by structural equality, keeping first occurrences.
    let mut out: Vec<ArenaIndex> = Vec::new();
    assert(members_view(out@) =~= Seq::<int>::empty());
    assert(fl.skip(0) =~= fl);
    let mut i: usize = 0;
    while i < flat.len()
        invariant
            arena@ == g,
            graph_wf(g),
            n == g.len(),
            fl == members_view(flat@),
            0 <= i <= flat@.len(),
            dedup_rec(g, fl, Seq::empty()) == dedup_rec(g, fl.skip(i as int), members_view(out@)),
            forall|k: int| 0 <= k < flat@.len() ==> (#[trigger] flat@[k]) < g.len(),
            forall|k: int| 0 <= k < out@.len() ==> (#[trigger] out@[k]) < g.len(),
        decreases flat@.len() - i,
    {
        assert(fl.skip(i as int)[0] == fl[i as int]);
        assert(fl.skip(i as int).drop_first() =~= fl.skip(i as int + 1));
        assert(fl[i as int] == flat@[i as int] as int);
        let c = flat[i];
        if !contains_equal(arena, &out, c) {
            let ghost out0 = members_view(out@);
            out.push(c);
            assert(members_view(out@) =~= out0.push(c as int));
        }
        i += 1;
    }
    assert(fl.skip(fl.len() as int) =~= Seq::<int>::empty());
    assert(members_view(out@) =~= union_result(g, cv));

    if out.len() == 1 {
        let r = out[0];
        assert(members_view(out@)[0] == out@[0] as int);
        return r;
    }
    let r = arena.insert(Type::Union(out));
    assert((final(arena)@, r as int) == union_spec(g, cv)) by {
        assert(arena@ =~= g.push(TypeView::Union { members: union_result(g, cv) }));
    }
    r
}

} // verus!
