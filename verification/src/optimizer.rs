//! The optimizer: independent, composable graph-rewrite passes that merge
//! semantically equivalent nodes in place.
//!
//! Each pass computes a redirect map over the current graph — every node
//! maps to the first earlier node it merges with (chains resolved, so the
//! map is idempotent) — and then redirects every stored reference and the
//! root through that map. Nodes are never deleted; abandoned ones stay as
//! dead allocation. The merge-by-name pass additionally folds the absorbed
//! records' name hints into their representative before redirecting.

use vstd::prelude::*;

use crate::equality::{structurally_equal, type_eq};
use crate::schema::{
    graph_wf, hints_view, members_view, node_fields, node_hints, rewrite_graph, target,
    ArenaIndex, NameHints, Schema, Type, TypeArena, TypeView,
};

verus! {

/// Which nodes a pass merges, and on what grounds.
#[derive(Debug, Clone, Copy, PartialEq, Eq, Structural)]
pub enum MergeKind {
    /// Structurally equal records.
    Similar,
    /// Records sharing at least one name hint.
    ByName,
    /// Unions with the same member set.
    Unions,
}

/// Whether two hint sets have a name in common.
pub open spec fn share_hint(h1: Seq<Seq<char>>, h2: Seq<Seq<char>>) -> bool {
    exists|x: int| 0 <= x < h1.len() && h2.contains(#[trigger] h1[x])
}

/// Whether the pass of kind `kind` merges node `i` into node `j`.
pub open spec fn related(g: Seq<TypeView>, j: int, i: int, kind: MergeKind) -> bool {
    match kind {
        MergeKind::Similar => g[j] is Record && g[i] is Record && type_eq(g, j, i),
        MergeKind::ByName => g[j] is Record && g[i] is Record && share_hint(
            node_hints(g[j]),
            node_hints(g[i]),
        ),
        MergeKind::Unions => g[j] is Union && g[i] is Union && type_eq(g, j, i),
    }
}

/// The first node below `i` (scanning up from `j`) that `i` merges with,
/// or `i` itself.
pub open spec fn first_related(g: Seq<TypeView>, i: int, j: int, kind: MergeKind) -> int
    decreases i - j,
{
    if j < 0 || j >= i {
        i
    } else if related(g, j, i, kind) {
        j
    } else {
        first_related(g, i, j + 1, kind)
    }
}

/// The redirect map of a pass over the first `n` nodes: each node maps to
/// the (already-resolved) representative of the first earlier node it
/// merges with, or to itself.
pub open spec fn build_map(g: Seq<TypeView>, kind: MergeKind, n: int) -> Seq<int>
    decreases n,
{
    if n <= 0 {
        Seq::empty()
    } else {
        let prev = build_map(g, kind, n - 1);
        let j = first_related(g, n - 1, 0, kind);
        prev.push(
            if 0 <= j < n - 1 {
                prev[j]
            } else {
                n - 1
            },
        )
    }
}

/// `base` extended by whichever of `hs` it is missing, in order.
pub open spec fn add_missing(base: Seq<Seq<char>>, hs: Seq<Seq<char>>) -> Seq<Seq<char>>
    decreases hs.len(),
{
    if hs.len() == 0 {
        base
    } else if base.contains(hs[0]) {
        add_missing(base, hs.drop_first())
    } else {
        add_missing(base.push(hs[0]), hs.drop_first())
    }
}

/// The graph after the first `n` absorbed records have handed their hints
/// to their representatives, in node order.
pub open spec fn merge_hints_upto(g: Seq<TypeView>, m: Seq<int>, n: int) -> Seq<TypeView>
    decreases n,
{
    if n <= 0 {
        g
    } else {
        let g1 = merge_hints_upto(g, m, n - 1);
        let j = n - 1;
        if 0 <= j < m.len() && m[j] != j && 0 <= m[j] < g1.len() && j < g1.len() && g1[j]
            is Record && g1[m[j]] is Record {
            g1.update(
                m[j],
                TypeView::Record {
                    hints: add_missing(node_hints(g1[m[j]]), node_hints(g1[j])),
                    fields: node_fields(g1[m[j]]),
                },
            )
        } else {
            g1
        }
    }
}

/// What one pass does to a graph and its root: hints folded (merge-by-name
/// only), then every reference and the root redirected through the pass's
/// map.
pub open spec fn pass_spec(g: Seq<TypeView>, root: int, kind: MergeKind) -> (Seq<TypeView>, int) {
    let m = build_map(g, kind, g.len() as int);
    let g1 = if kind is ByName {
        merge_hints_upto(g, m, g.len() as int)
    } else {
        g
    };
    (rewrite_graph(g1, m), target(m, root))
}

/// What a whole optimizer run does: the enabled passes in their fixed
/// order — merge similar records, merge records by name, merge unions.
pub open spec fn optimize_spec(g: Seq<TypeView>, root: int, cfg: Optimizer) -> (Seq<TypeView>, int) {
    let s1 = if cfg.to_merge_similar_datatypes {
        pass_spec(g, root, MergeKind::Similar)
    } else {
        (g, root)
    };
    let s2 = if cfg.to_merge_name_datatypes {
        pass_spec(s1.0, s1.1, MergeKind::ByName)
    } else {
        s1
    };
    if cfg.to_merge_same_unions {
        pass_spec(s2.0, s2.1, MergeKind::Unions)
    } else {
        s2
    }
}

proof fn lemma_first_related_bounds(g: Seq<TypeView>, i: int, j: int, kind: MergeKind)
    requires
        0 <= j <= i,
    ensures
        j <= first_related(g, i, j, kind) <= i,
    decreases i - j,
{
    if j < i && !related(g, j, i, kind) {
        lemma_first_related_bounds(g, i, j + 1, kind);
    }
}

/// A pass's redirect map points downward and is its own fixpoint: a
/// representative maps to itself.
pub proof fn lemma_build_map_props(g: Seq<TypeView>, kind: MergeKind, n: int)
    requires
        n >= 0,
    ensures
        build_map(g, kind, n).len() == n,
        forall|k: int| 0 <= k < n ==> 0 <= #[trigger] build_map(g, kind, n)[k] <= k,
        forall|k: int|
            0 <= k < n ==> build_map(g, kind, n)[#[trigger] build_map(g, kind, n)[k]] == build_map(
                g,
                kind,
                n,
            )[k],
    decreases n,
{
    if n > 0 {
        lemma_build_map_props(g, kind, n - 1);
        lemma_first_related_bounds(g, n - 1, 0, kind);
        let prev = build_map(g, kind, n - 1);
        let m = build_map(g, kind, n);
        let j = first_related(g, n - 1, 0, kind);
        assert forall|k: int| 0 <= k < n implies 0 <= #[trigger] m[k] <= k by {
            if k < n - 1 {
                assert(m[k] == prev[k]);
            }
        }
        assert forall|k: int| 0 <= k < n implies m[#[trigger] m[k]] == m[k] by {
            if k < n - 1 {
                assert(m[k] == prev[k]);
                assert(prev[k] <= k < n - 1);
                assert(m[prev[k]] == prev[prev[k]]);
            } else {
                if 0 <= j < n - 1 {
                    assert(m[k] == prev[j]);
                    assert(prev[j] <= j < n - 1);
                    assert(m[prev[j]] == prev[prev[j]]);
                } else {
                    assert(m[k] == n - 1);
                }
            }
        }
    }
}

/// Law (pass idempotence, the rewrite half): after a pass has run, its own
/// redirect map moves nothing further — rewriting the pass's output graph
/// and root with the same map reproduces them exactly. That recomputing
/// the map on the output graph gives back the same map is checked by
/// tests that run each pass twice.
pub proof fn lemma_pass_rewrite_idempotent(g: Seq<TypeView>, root: int, kind: MergeKind)
    ensures
        ({
            let m = build_map(g, kind, g.len() as int);
            let p = pass_spec(g, root, kind);
            &&& rewrite_graph(p.0, m) =~~= p.0
            &&& target(m, p.1) == p.1
        }),
{
    let m = build_map(g, kind, g.len() as int);
    let p = pass_spec(g, root, kind);
    lemma_build_map_props(g, kind, g.len() as int);
    let g1 = if kind is ByName {
        merge_hints_upto(g, m, g.len() as int)
    } else {
        g
    };
    lemma_rewrite_idempotent(g1, m);
    assert(p.0 == rewrite_graph(g1, m));
    if 0 <= root < m.len() {
        assert(p.1 == m[root]);
        assert(m[m[root]] == m[root]);
    }
}

/// Law: a redirect map that is its own fixpoint rewrites a graph the same
/// way once or twice — the rewrite half of pass idempotence.
pub proof fn lemma_rewrite_idempotent(g: Seq<TypeView>, m: Seq<int>)
    requires
        forall|k: int| 0 <= k < m.len() ==> 0 <= #[trigger] m[k] < m.len(),
        forall|k: int| 0 <= k < m.len() ==> m[#[trigger] m[k]] == m[k],
    ensures
        rewrite_graph(rewrite_graph(g, m), m) =~~= rewrite_graph(g, m),
{
    assert forall|k: int| true implies #[trigger] target(m, target(m, k)) == target(m, k) by {
        if 0 <= k < m.len() {
            assert(target(m, k) == m[k]);
        }
    }
    assert forall|i: int|
        0 <= i < g.len() implies #[trigger] rewrite_graph(rewrite_graph(g, m), m)[i]
        =~~= rewrite_graph(g, m)[i] by {
        let t = g[i];
        let t1 = crate::schema::rewrite_node(t, m);
        assert(rewrite_graph(g, m)[i] == t1);
        assert(rewrite_graph(rewrite_graph(g, m), m)[i] == crate::schema::rewrite_node(t1, m));
        match t {
            TypeView::Record { hints, fields } => {
                assert(crate::schema::rewrite_node(t1, m) =~~= t1) by {
                    assert(crate::schema::rewrite_fields(
                        crate::schema::rewrite_fields(fields, m),
                        m,
                    ) =~~= crate::schema::rewrite_fields(fields, m));
                }
            },
            TypeView::Union { members } => {
                assert(members.map_values(|x: int| target(m, x)).map_values(
                    |x: int| target(m, x),
                ) =~~= members.map_values(|x: int| target(m, x)));
            },
            _ => {},
        }
    }
}

fn hints_share(a: &NameHints, b: &NameHints) -> (r: bool)
    ensures
        r == share_hint(a@, b@),
{
    let mut i: usize = 0;
    while i < a.names.len()
        invariant
            0 <= i <= a.names@.len(),
            forall|k: int| 0 <= k < i ==> !b@.contains(#[trigger] a@[k]),
        decreases a.names@.len() - i,
    {
        assert(a@[i as int] == a.names@[i as int]@);
        if b.contains(&a.names[i]) {
            return true;
        }
        i += 1;
    }
    false
}

fn related_exec(arena: &TypeArena, j: ArenaIndex, i: ArenaIndex, kind: MergeKind) -> (r: bool)
    requires
        graph_wf(arena@),
        j < arena@.len(),
        i < arena@.len(),
    ensures
        r == related(arena@, j as int, i as int, kind),
{
    match kind {
        MergeKind::Similar => {
            let both = matches!(arena.resolve(j), Type::Record(_)) && matches!(
                arena.resolve(i),
                Type::Record(_),
            );
            both && structurally_equal(arena, j, i)
        },
        MergeKind::Unions => {
            let both = matches!(arena.resolve(j), Type::Union(_)) && matches!(
                arena.resolve(i),
                Type::Union(_),
            );
            both && structurally_equal(arena, j, i)
        },
        MergeKind::ByName => match (arena.resolve(j), arena.resolve(i)) {
            (Type::Record(a), Type::Record(b)) => hints_share(&a.name_hints, &b.name_hints),
            _ => false,
        },
    }
}

fn build_pass_map(arena: &TypeArena, kind: MergeKind) -> (m: Vec<ArenaIndex>)
    requires
        graph_wf(arena@),
    ensures
        m@.len() == arena@.len(),
        members_view(m@) == build_map(arena@, kind, arena@.len() as int),
        forall|k: int| 0 <= k < m@.len() ==> (#[trigger] m@[k]) <= k,
        forall|k: int| 0 <= k < m@.len() ==> m@[(m@[k]) as int] == m@[k],
{
    let ghost g = arena@;
    let n = arena.len();
    let mut m: Vec<ArenaIndex> = Vec::new();
    assert(members_view(m@) =~= build_map(g, kind, 0));
    let mut i: usize = 0;
    while i < n
        invariant
            graph_wf(g),
            arena@ == g,
            n == g.len(),
            0 <= i <= n,
            m@.len() == i,
            members_view(m@) == build_map(g, kind, i as int),
            forall|k: int| 0 <= k < i ==> (#[trigger] m@[k]) <= k,
            forall|k: int| 0 <= k < i ==> m@[(m@[k]) as int] == m@[k],
        decreases n - i,
    {
        let mut j: usize = 0;
        let mut rep: usize = i;
        let mut found = false;
        while j < i && !found
            invariant
                graph_wf(g),
                arena@ == g,
                n == g.len(),
                0 <= j <= i < n,
                !found ==> rep == i && first_related(g, i as int, 0, kind) == first_related(
                    g,
                    i as int,
                    j as int,
                    kind,
                ),
                found ==> rep < i && rep as int == first_related(g, i as int, 0, kind),
            decreases i - j, (if found { 0int } else { 1int }),
        {
            if related_exec(arena, j, i, kind) {
                rep = j;
                found = true;
            } else {
                j += 1;
            }
        }
        let ghost fr = first_related(g, i as int, 0, kind);
        assert(rep == fr || (rep == i && fr == i as int));
        let mi: usize = if rep < i {
            m[rep]
        } else {
            i
        };
        let ghost prev = members_view(m@);
        m.push(mi);
        assert(members_view(m@) =~= prev.push(mi as int));
        assert(members_view(m@) == build_map(g, kind, i as int + 1));
        assert(forall|k: int| 0 <= k < m@.len() ==> m@[(m@[k]) as int] == m@[k]) by {
            assert(m@[i as int] == mi);
        }
        i += 1;
    }
    m
}

fn clone_hints(t: &Type) -> (r: Vec<String>)
    ensures
        hints_view(r@) == node_hints(t@),
{
    let mut out: Vec<String> = Vec::new();
    match t {
        Type::Record(rec) => {
            assert(t@ == TypeView::Record {
                hints: rec.name_hints@,
                fields: crate::schema::fields_view(rec.fields@),
            });
            assert(hints_view(out@) =~= rec.name_hints@.take(0));
            let mut k: usize = 0;
            while k < rec.name_hints.names.len()
                invariant
                    0 <= k <= rec.name_hints.names@.len(),
                    hints_view(out@) =~= rec.name_hints@.take(k as int),
                decreases rec.name_hints.names@.len() - k,
            {
                let ghost hprev = hints_view(out@);
                assert(rec.name_hints@[k as int] == rec.name_hints.names@[k as int]@);
                out.push(rec.name_hints.names[k].clone());
                assert(hints_view(out@) =~= hprev.push(rec.name_hints.names@[k as int]@));
                assert(hints_view(out@) =~= rec.name_hints@.take(k as int + 1));
                k += 1;
            }
            assert(rec.name_hints@.take(rec.name_hints@.len() as int) =~= rec.name_hints@);
        },
        _ => {
            assert(hints_view(out@) =~= Seq::<Seq<char>>::empty());
        },
    }
    out
}

fn absorb_hints(arena: &mut TypeArena, m: &Vec<ArenaIndex>)
    requires
        graph_wf(old(arena)@),
        m@.len() == old(arena)@.len(),
        forall|k: int| 0 <= k < m@.len() ==> (#[trigger] m@[k]) <= k,
    ensures
        graph_wf(final(arena)@),
        final(arena)@ == merge_hints_upto(old(arena)@, members_view(m@), old(arena)@.len() as int),
        final(arena)@.len() == old(arena)@.len(),
    decreases old(arena)@.len(),
{
    let ghost g0 = arena@;
    let ghost mv = members_view(m@);
    let n = arena.len();
    let mut j: usize = 0;
    while j < n
        invariant
            graph_wf(arena@),
            g0 == old(arena)@,
            graph_wf(g0),
            mv == members_view(m@),
            m@.len() == g0.len(),
            forall|k: int| 0 <= k < m@.len() ==> (#[trigger] m@[k]) <= k,
            n == g0.len(),
            arena@.len() == g0.len(),
            0 <= j <= n,
            arena@ == merge_hints_upto(g0, mv, j as int),
        decreases n - j,
    {
        assert(mv[j as int] == m@[j as int] as int);
        let rep = m[j];
        if rep != j {
            let donor_is_rec = matches!(arena.resolve(j), Type::Record(_));
            let rep_is_rec = matches!(arena.resolve(rep), Type::Record(_));
            if donor_is_rec && rep_is_rec {
                let ghost g1 = arena@;
                let donor_hints = clone_hints(arena.resolve(j));
                let mut rep_nh = NameHints { names: clone_hints(arena.resolve(rep)) };
                let ghost base0 = node_hints(g1[rep as int]);
                let ghost dh = node_hints(g1[j as int]);
                assert(rep_nh@ == base0);
                assert(hints_view(donor_hints@) == dh);
                assert(dh.skip(0) =~= dh);
                let mut k: usize = 0;
                while k < donor_hints.len()
                    invariant
                        0 <= k <= donor_hints@.len(),
                        hints_view(donor_hints@) == dh,
                        add_missing(base0, dh) == add_missing(rep_nh@, dh.skip(k as int)),
                    decreases donor_hints@.len() - k,
                {
                    assert(dh.skip(k as int)[0] == dh[k as int]);
                    assert(dh.skip(k as int).drop_first() =~= dh.skip(k as int + 1));
                    assert(dh[k as int] == donor_hints@[k as int]@);
                    rep_nh.insert(donor_hints[k].clone());
                    k += 1;
                }
                assert(dh.skip(dh.len() as int) =~= Seq::<Seq<char>>::empty());
                assert(rep_nh@ == add_missing(base0, dh));
                let ghost gpre = arena@;
                arena.set_record_hints(rep, rep_nh.names);
                assert(arena@ =~= merge_hints_upto(g0, mv, j as int + 1));
            } else {
                assert(arena@ == merge_hints_upto(g0, mv, j as int + 1));
            }
        } else {
            assert(arena@ == merge_hints_upto(g0, mv, j as int + 1));
        }
        j += 1;
    }
}

/// The three independent merge passes, each enabled by its own flag.
#[derive(Debug, Clone, Copy)]
pub struct Optimizer {
    pub to_merge_similar_datatypes: bool,
    pub to_merge_name_datatypes: bool,
    pub to_merge_same_unions: bool,
}

fn merge_pass(schema: &mut Schema, kind: MergeKind)
    requires
        old(schema).wf(),
    ensures
        final(schema).wf(),
        (final(schema).arena@, final(schema).root as int) == pass_spec(
            old(schema).arena@,
            old(schema).root as int,
            kind,
        ),
        final(schema).arena@.len() == old(schema).arena@.len(),
{
    let ghost g0 = schema.arena@;
    let m = build_pass_map(&schema.arena, kind);
    let is_by_name = matches!(kind, MergeKind::ByName);
    if is_by_name {
        absorb_hints(&mut schema.arena, &m);
    }
    assert(forall|k: int| 0 <= k < m@.len() ==> (#[trigger] m@[k]) < schema.arena@.len());
    schema.arena.apply_map(&m);
    let new_root = m[schema.root];
    schema.root = new_root;
    assert(target(members_view(m@), old(schema).root as int) == m@[old(schema).root as int] as int);
}

impl Optimizer {
    /// Run the enabled passes, in their fixed order, rewriting the graph
    /// in place. The root handle is redirected with everything else and
    /// still resolves afterwards; a no-op configuration changes nothing.
    pub fn optimize(&self, schema: &mut Schema)
        requires
            old(schema).wf(),
        ensures
            final(schema).wf(),
            (final(schema).arena@, final(schema).root as int) == optimize_spec(
                old(schema).arena@,
                old(schema).root as int,
                *self,
            ),
    {
        if self.to_merge_similar_datatypes {
            merge_pass(schema, MergeKind::Similar);
        }
        if self.to_merge_name_datatypes {
            merge_pass(schema, MergeKind::ByName);
        }
        if self.to_merge_same_unions {
            merge_pass(schema, MergeKind::Unions);
        }
    }
}

} // verus!
