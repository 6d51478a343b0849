//! Structural equality of type nodes, guarded against cycles.
//!
//! Two nodes are structurally equal when their shapes recursively match,
//! independent of which handles realize them; record name hints never
//! affect equality. The graph may contain cycles, so equality is the
//! co-inductive (bisimulation) relation: [`sim`] is its depth-indexed
//! approximation, and [`type_eq`] evaluates it at depth `len + 1`, where
//! the chain of approximations over a finite graph has stabilized. Running
//! out of depth counts as equal, so self-referential nodes compare the way
//! the co-inductive rule demands, and every comparison terminates.

use vstd::prelude::*;

use crate::schema::{
    fields_view, graph_wf, members_view, ArenaIndex, Type, TypeArena, TypeView,
};

verus! {

/// Depth-indexed structural similarity of the nodes behind handles `a` and `b`.
pub open spec fn sim(g: Seq<TypeView>, a: int, b: int, fuel: nat) -> bool
    decreases fuel, 0int,
{
    if fuel == 0 {
        true
    } else if !(0 <= a < g.len() && 0 <= b < g.len()) {
        a == b
    } else {
        match (g[a], g[b]) {
            (TypeView::Int, TypeView::Int) => true,
            (TypeView::Float, TypeView::Float) => true,
            (TypeView::Bool, TypeView::Bool) => true,
            (TypeView::Str, TypeView::Str) => true,
            (TypeView::Null, TypeView::Null) => true,
            (TypeView::Any, TypeView::Any) => true,
            (TypeView::Array { elem: x }, TypeView::Array { elem: y }) => sim(
                g,
                x,
                y,
                (fuel - 1) as nat,
            ),
            (TypeView::Record { fields: f1, .. }, TypeView::Record { fields: f2, .. }) =>
                fields_sim(g, f1, f2, (fuel - 1) as nat),
            (TypeView::Union { members: u1 }, TypeView::Union { members: u2 }) => members_sim(
                g,
                u1,
                u2,
                (fuel - 1) as nat,
            ) && members_sim(g, u2, u1, (fuel - 1) as nat),
            _ => false,
        }
    }
}

/// Field lists match pairwise: same length, same names in the same order,
/// similar targets.
pub open spec fn fields_sim(
    g: Seq<TypeView>,
    f1: Seq<(Seq<char>, int)>,
    f2: Seq<(Seq<char>, int)>,
    fuel: nat,
) -> bool
    decreases fuel, 2int,
{
    f1.len() == f2.len() && forall|i: int|
        0 <= i < f1.len() ==> (#[trigger] f1[i]).0 == f2[i].0 && sim(g, f1[i].1, f2[i].1, fuel)
}

/// Some member of `us` is similar to the node behind `m`.
pub open spec fn member_in(g: Seq<TypeView>, m: int, us: Seq<int>, fuel: nat) -> bool
    decreases fuel, 1int,
{
    exists|j: int| 0 <= j < us.len() && sim(g, m, #[trigger] us[j], fuel)
}

/// Every member of `u1` is similar to some member of `u2`: member lists
/// compare as sets, not by position.
pub open spec fn members_sim(g: Seq<TypeView>, u1: Seq<int>, u2: Seq<int>, fuel: nat) -> bool
    decreases fuel, 2int,
{
    forall|i: int| 0 <= i < u1.len() ==> member_in(g, #[trigger] u1[i], u2, fuel)
}

/// Structural equality of the nodes behind `a` and `b`: similarity at the
/// depth where the approximation chain over a graph of `len` nodes has
/// stabilized.
pub open spec fn type_eq(g: Seq<TypeView>, a: int, b: int) -> bool {
    sim(g, a, b, (g.len() + 1) as nat)
}

fn equal_fuel(arena: &TypeArena, a: ArenaIndex, b: ArenaIndex, fuel: u128) -> (r: bool)
    requires
        graph_wf(arena@),
    ensures
        r == sim(arena@, a as int, b as int, fuel as nat),
    decreases fuel, 0int,
{
    if fuel == 0 {
        return true;
    }
    let n = arena.len();
    if a >= n || b >= n {
        return a == b;
    }
    match (arena.resolve(a), arena.resolve(b)) {
        (Type::Int, Type::Int) => true,
        (Type::Float, Type::Float) => true,
        (Type::Bool, Type::Bool) => true,
        (Type::Str, Type::Str) => true,
        (Type::Null, Type::Null) => true,
        (Type::Any, Type::Any) => true,
        (Type::Array(x), Type::Array(y)) => equal_fuel(arena, *x, *y, fuel - 1),
        (Type::Record(r1), Type::Record(r2)) => fields_equal(
            arena,
            &r1.fields,
            &r2.fields,
            fuel - 1,
        ),
        (Type::Union(u1), Type::Union(u2)) => {
            let fwd = members_subset(arena, u1, u2, fuel - 1);
            fwd && members_subset(arena, u2, u1, fuel - 1)
        },
        _ => false,
    }
}

fn fields_equal(
    arena: &TypeArena,
    f1: &Vec<(String, ArenaIndex)>,
    f2: &Vec<(String, ArenaIndex)>,
    fuel: u128,
) -> (r: bool)
    requires
        graph_wf(arena@),
    ensures
        r == fields_sim(arena@, fields_view(f1@), fields_view(f2@), fuel as nat),
    decreases fuel, 2int,
{
    if f1.len() != f2.len() {
        return false;
    }
    let mut i: usize = 0;
    while i < f1.len()
        invariant
            graph_wf(arena@),
            f1@.len() == f2@.len(),
            0 <= i <= f1@.len(),
            forall|j: int|
                0 <= j < i ==> (#[trigger] fields_view(f1@)[j]).0 == fields_view(f2@)[j].0 && sim(
                    arena@,
                    fields_view(f1@)[j].1,
                    fields_view(f2@)[j].1,
                    fuel as nat,
                ),
        decreases f1@.len() - i,
    {
        assert(fields_view(f1@)[i as int] == (f1@[i as int].0@, f1@[i as int].1 as int));
        assert(fields_view(f2@)[i as int] == (f2@[i as int].0@, f2@[i as int].1 as int));
        if !(f1[i].0 == f2[i].0) {
            return false;
        }
        if !equal_fuel(arena, f1[i].1, f2[i].1, fuel) {
            return false;
        }
        i += 1;
    }
    true
}

fn member_found(arena: &TypeArena, m: ArenaIndex, us: &Vec<ArenaIndex>, fuel: u128) -> (r: bool)
    requires
        graph_wf(arena@),
    ensures
        r == member_in(arena@, m as int, members_view(us@), fuel as nat),
    decreases fuel, 1int,
{
    let mut j: usize = 0;
    while j < us.len()
        invariant
            graph_wf(arena@),
            0 <= j <= us@.len(),
            forall|k: int|
                0 <= k < j ==> !sim(arena@, m as int, #[trigger] members_view(us@)[k], fuel as nat),
        decreases us@.len() - j,
    {
        assert(members_view(us@)[j as int] == us@[j as int] as int);
        if equal_fuel(arena, m, us[j], fuel) {
            return true;
        }
        j += 1;
    }
    false
}

fn members_subset(
    arena: &TypeArena,
    u1: &Vec<ArenaIndex>,
    u2: &Vec<ArenaIndex>,
    fuel: u128,
) -> (r: bool)
    requires
        graph_wf(arena@),
    ensures
        r == members_sim(arena@, members_view(u1@), members_view(u2@), fuel as nat),
    decreases fuel, 2int,
{
    let mut i: usize = 0;
    while i < u1.len()
        invariant
            graph_wf(arena@),
            0 <= i <= u1@.len(),
            forall|k: int|
                0 <= k < i ==> member_in(
                    arena@,
                    #[trigger] members_view(u1@)[k],
                    members_view(u2@),
                    fuel as nat,
                ),
        decreases u1@.len() - i,
    {
        assert(members_view(u1@)[i as int] == u1@[i as int] as int);
        if !member_found(arena, u1[i], u2, fuel) {
            return false;
        }
        i += 1;
    }
    true
}

/// Decide structural equality of the nodes behind `a` and `b`.
pub fn structurally_equal(arena: &TypeArena, a: ArenaIndex, b: ArenaIndex) -> (r: bool)
    requires
        graph_wf(arena@),
    ensures
        r == type_eq(arena@, a as int, b as int),
{
    let fuel: u128 = arena.len() as u128 + 1;
    equal_fuel(arena, a, b, fuel)
}

} // verus!
