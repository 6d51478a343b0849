//! The type graph: an arena of type nodes addressed by stable handles.
//!
//! Every inferred type lives in one [`TypeArena`]. Primitive nodes are
//! canonical (at most one node per primitive kind); composite nodes are
//! freshly inserted and may refer to any node of the same arena, including
//! themselves, so the graph can hold cycles.

use vstd::prelude::*;

verus! {

/// A stable index into a [`TypeArena`]'s node store.
pub type ArenaIndex = usize;

/// Advisory display-name candidates for a record shape: a set of strings
/// kept in insertion order, without duplicates.
#[derive(Debug)]
pub struct NameHints {
    pub names: Vec<String>,
}

/// A record shape: an ordered mapping of field name to node handle, plus
/// advisory name hints. Field order reflects first-seen order from input.
#[derive(Debug)]
pub struct Record {
    pub name_hints: NameHints,
    pub fields: Vec<(String, ArenaIndex)>,
}

/// One node of the type graph.
#[derive(Debug)]
pub enum Type {
    Int,
    Float,
    Bool,
    Str,
    Null,
    Any,
    Array(ArenaIndex),
    Record(Record),
    Union(Vec<ArenaIndex>),
}

/// The mathematical shape of one node: handles as `int`, strings as
/// sequences of characters.
#[verifier::ext_equal]
pub enum TypeView {
    Int,
    Float,
    Bool,
    Str,
    Null,
    Any,
    Array { elem: int },
    Record { hints: Seq<Seq<char>>, fields: Seq<(Seq<char>, int)> },
    Union { members: Seq<int> },
}

impl View for NameHints {
    type V = Seq<Seq<char>>;

    open spec fn view(&self) -> Seq<Seq<char>> {
        hints_view(self.names@)
    }
}

/// The shape of a hint list: each name as its character sequence.
pub open spec fn hints_view(names: Seq<String>) -> Seq<Seq<char>> {
    names.map_values(|s: String| s@)
}

/// The shape of a field list, handles as `int`.
pub open spec fn fields_view(f: Seq<(String, ArenaIndex)>) -> Seq<(Seq<char>, int)> {
    f.map_values(|p: (String, ArenaIndex)| (p.0@, p.1 as int))
}

/// The shape of a union member list, handles as `int`.
pub open spec fn members_view(ms: Seq<ArenaIndex>) -> Seq<int> {
    ms.map_values(|m: ArenaIndex| m as int)
}

impl View for Type {
    type V = TypeView;

    open spec fn view(&self) -> TypeView {
        match self {
            Type::Int => TypeView::Int,
            Type::Float => TypeView::Float,
            Type::Bool => TypeView::Bool,
            Type::Str => TypeView::Str,
            Type::Null => TypeView::Null,
            Type::Any => TypeView::Any,
            Type::Array(e) => TypeView::Array { elem: *e as int },
            Type::Record(r) => TypeView::Record {
                hints: r.name_hints@,
                fields: fields_view(r.fields@),
            },
            Type::Union(ms) => TypeView::Union { members: members_view(ms@) },
        }
    }
}

/// Whether a node is one of the six primitive kinds.
pub open spec fn is_primitive_view(t: TypeView) -> bool {
    t is Int || t is Float || t is Bool || t is Str || t is Null || t is Any
}

/// All handles stored inside `t` lie below `n`.
pub open spec fn node_wf(t: TypeView, n: int) -> bool {
    match t {
        TypeView::Array { elem } => 0 <= elem < n,
        TypeView::Record { fields, .. } => forall|i: int|
            0 <= i < fields.len() ==> 0 <= (#[trigger] fields[i]).1 < n,
        TypeView::Union { members } => forall|i: int|
            0 <= i < members.len() ==> 0 <= #[trigger] members[i] < n,
        _ => true,
    }
}

/// What requesting primitive `t` does to graph `g`: the canonical handle
/// of `t`, creating the node on first use.
pub open spec fn prim_spec(g: Seq<TypeView>, t: TypeView) -> (Seq<TypeView>, int) {
    if exists|i: int| 0 <= i < g.len() && g[i] == t {
        (g, choose|i: int| 0 <= i < g.len() && g[i] == t)
    } else {
        (g.push(t), g.len() as int)
    }
}

/// Law: requesting the same primitive kind twice yields the same handle,
/// and the second request leaves the graph unchanged — primitive handles
/// are canonical.
pub proof fn lemma_canonical_primitive(g: Seq<TypeView>, t: TypeView)
    requires
        graph_wf(g),
        is_primitive_view(t),
    ensures
        ({
            let first = prim_spec(g, t);
            let second = prim_spec(first.0, t);
            &&& second.0 == first.0
            &&& second.1 == first.1
        }),
{
    let first = prim_spec(g, t);
    if exists|i: int| 0 <= i < g.len() && g[i] == t {
    } else {
        let g1 = g.push(t);
        assert(g1[g.len() as int] == t);
        assert(exists|i: int| 0 <= i < g1.len() && g1[i] == t);
        let w = choose|i: int| 0 <= i < g1.len() && g1[i] == t;
        assert(g1[w] == t);
        if w < g.len() {
            assert(g[w] == t);
            assert(false);
        }
        assert(w == g.len());
    }
}

/// Prefix order on graphs is transitive.
pub proof fn lemma_prefix_trans(a: Seq<TypeView>, b: Seq<TypeView>, c: Seq<TypeView>)
    requires
        a.is_prefix_of(b),
        b.is_prefix_of(c),
    ensures
        a.is_prefix_of(c),
{
    assert(c.subrange(0, a.len() as int) =~= a);
}

/// Well-formedness of a graph: every stored handle resolves, and each
/// primitive kind has at most one node.
pub open spec fn graph_wf(g: Seq<TypeView>) -> bool {
    &&& forall|i: int| 0 <= i < g.len() ==> node_wf(#[trigger] g[i], g.len() as int)
    &&& forall|i: int, j: int|
        0 <= i < g.len() && 0 <= j < g.len() && is_primitive_view(#[trigger] g[i]) && g[i]
            == #[trigger] g[j] ==> i == j
}

impl Type {
    /// Whether this node is a primitive leaf.
    pub fn is_primitive(&self) -> (r: bool)
        ensures
            r == is_primitive_view(self@),
    {
        matches!(self, Type::Int | Type::Float | Type::Bool | Type::Str | Type::Null | Type::Any)
    }
}

/// Equality of two primitive nodes.
fn same_primitive(a: &Type, b: &Type) -> (r: bool)
    requires
        is_primitive_view(a@),
    ensures
        r == (a@ == b@),
{
    matches!(
        (a, b),
        (Type::Int, Type::Int)
        | (Type::Float, Type::Float)
        | (Type::Bool, Type::Bool)
        | (Type::Str, Type::Str)
        | (Type::Null, Type::Null)
        | (Type::Any, Type::Any)
    )
}

impl NameHints {
    /// The empty hint set.
    pub fn new() -> (r: NameHints)
        ensures
            r@ =~= Seq::<Seq<char>>::empty(),
    {
        NameHints { names: Vec::new() }
    }

    /// Add a candidate name; a name already present is not added again.
    pub fn insert(&mut self, name: String)
        ensures
            old(self)@.contains(name@) ==> final(self)@ == old(self)@,
            !old(self)@.contains(name@) ==> final(self)@ =~= old(self)@.push(name@),
    {
        let mut i: usize = 0;
        while i < self.names.len()
            invariant
                0 <= i <= self.names.len(),
                forall|j: int| 0 <= j < i ==> self@[j] != name@,
            decreases self.names.len() - i,
        {
            if self.names[i] == name {
                assert(self@[i as int] == name@);
                return ;
            }
            assert(self@[i as int] == self.names@[i as int]@);
            i += 1;
        }
        assert(!self@.contains(name@));
        self.names.push(name);
        assert(self@ =~= old(self)@.push(name@));
    }

    /// Whether a name is among the hints.
    pub fn contains(&self, name: &String) -> (r: bool)
        ensures
            r == self@.contains(name@),
    {
        let mut i: usize = 0;
        while i < self.names.len()
            invariant
                0 <= i <= self.names.len(),
                forall|j: int| 0 <= j < i ==> self@[j] != name@,
            decreases self.names.len() - i,
        {
            if self.names[i] == *name {
                assert(self@[i as int] == name@);
                return true;
            }
            assert(self@[i as int] == self.names@[i as int]@);
            i += 1;
        }
        false
    }
}

/// The owning store of all type nodes of one inference run.
#[derive(Debug)]
pub struct TypeArena {
    nodes: Vec<Type>,
}

impl View for TypeArena {
    type V = Seq<TypeView>;

    closed spec fn view(&self) -> Seq<TypeView> {
        self.nodes@.map_values(|t: Type| t@)
    }
}

impl TypeArena {
    /// An empty graph.
    pub fn new() -> (r: TypeArena)
        ensures
            r@ =~= Seq::<TypeView>::empty(),
    {
        TypeArena { nodes: Vec::new() }
    }

    /// Number of nodes the arena holds.
    pub fn len(&self) -> (r: usize)
        ensures
            r == self@.len(),
    {
        self.nodes.len()
    }

    /// Dereference a handle.
    pub fn resolve(&self, i: ArenaIndex) -> (r: &Type)
        requires
            i < self@.len(),
        ensures
            r@ == self@[i as int],
    {
        &self.nodes[i]
    }

    /// Return the canonical handle of a primitive kind, creating the node
    /// on first use. Idempotent: the same kind always yields the same handle.
    pub fn get_index_of_primitive(&mut self, t: Type) -> (r: ArenaIndex)
        requires
            is_primitive_view(t@),
            graph_wf(old(self)@),
        ensures
            graph_wf(final(self)@),
            r < final(self)@.len(),
            final(self)@[r as int] == t@,
            old(self)@.is_prefix_of(final(self)@),
            (exists|i: int| 0 <= i < old(self)@.len() && old(self)@[i] == t@) ==> final(self)@
                == old(self)@,
            !(exists|i: int| 0 <= i < old(self)@.len() && old(self)@[i] == t@) ==> final(self)@
                =~= old(self)@.push(t@) && r == old(self)@.len(),
            (final(self)@, r as int) == prim_spec(old(self)@, t@),
    {
        let ghost g0 = self@;
        let mut i: usize = 0;
        while i < self.nodes.len()
            invariant
                self@ == g0,
                0 <= i <= self@.len(),
                forall|j: int| 0 <= j < i ==> self@[j] != t@,
                is_primitive_view(t@),
                graph_wf(self@),
            decreases self.nodes.len() - i,
        {
            if same_primitive(&t, &self.nodes[i]) {
                assert(self@[i as int] == t@);
                assert(self@ =~= g0);
                assert((self@, i as int) == prim_spec(g0, t@)) by {
                    let w = choose|k: int| 0 <= k < g0.len() && g0[k] == t@;
                    assert(g0[w] == t@ && g0[i as int] == t@);
                    assert(is_primitive_view(g0[i as int]));
                }
                return i;
            }
            i += 1;
        }
        assert(forall|j: int| 0 <= j < g0.len() ==> g0[j] != t@);
        self.nodes.push(t);
        assert(self@ =~= g0.push(t@));
        assert(graph_wf(self@)) by {
            assert(forall|j: int| 0 <= j < self@.len() ==> node_wf(#[trigger] self@[j], self@.len() as int));
        }
        self.nodes.len() - 1
    }

    /// Store a freshly built composite node and return its new handle.
    /// The node may refer to any existing node and to itself.
    pub fn insert(&mut self, t: Type) -> (r: ArenaIndex)
        requires
            graph_wf(old(self)@),
            !is_primitive_view(t@),
            node_wf(t@, old(self)@.len() as int + 1),
        ensures
            graph_wf(final(self)@),
            final(self)@ =~= old(self)@.push(t@),
            r == old(self)@.len(),
            r < final(self)@.len(),
    {
        let ghost g0 = self@;
        self.nodes.push(t);
        assert(self@ =~= g0.push(t@));
        self.nodes.len() - 1
    }
}


/// The name hints a node carries (empty for non-records).
pub open spec fn node_hints(t: TypeView) -> Seq<Seq<char>> {
    match t {
        TypeView::Record { hints, .. } => hints,
        _ => Seq::empty(),
    }
}

/// The fields a node carries (empty for non-records).
pub open spec fn node_fields(t: TypeView) -> Seq<(Seq<char>, int)> {
    match t {
        TypeView::Record { fields, .. } => fields,
        _ => Seq::empty(),
    }
}

/// Where handle `x` points after redirection through `m`.
pub open spec fn target(m: Seq<int>, x: int) -> int {
    if 0 <= x < m.len() {
        m[x]
    } else {
        x
    }
}

/// A field list with every target redirected through `m`.
pub open spec fn rewrite_fields(fs: Seq<(Seq<char>, int)>, m: Seq<int>) -> Seq<(Seq<char>, int)> {
    fs.map_values(|f: (Seq<char>, int)| (f.0, target(m, f.1)))
}

/// One node with every stored handle redirected through `m`; hints and
/// primitive nodes are untouched.
pub open spec fn rewrite_node(t: TypeView, m: Seq<int>) -> TypeView {
    match t {
        TypeView::Array { elem } => TypeView::Array { elem: target(m, elem) },
        TypeView::Record { hints, fields } => TypeView::Record {
            hints,
            fields: rewrite_fields(fields, m),
        },
        TypeView::Union { members } => TypeView::Union {
            members: members.map_values(|x: int| target(m, x)),
        },
        _ => t,
    }
}

/// A graph with every reference in every node redirected through `m`.
pub open spec fn rewrite_graph(g: Seq<TypeView>, m: Seq<int>) -> Seq<TypeView> {
    g.map_values(|t: TypeView| rewrite_node(t, m))
}

fn rewrite_one(t: &Type, m: &Vec<ArenaIndex>) -> (r: Type)
    requires
        node_wf(t@, m@.len() as int),
    ensures
        r@ == rewrite_node(t@, members_view(m@)),
{
    let ghost mv = members_view(m@);
    match t {
        Type::Int => Type::Int,
        Type::Float => Type::Float,
        Type::Bool => Type::Bool,
        Type::Str => Type::Str,
        Type::Null => Type::Null,
        Type::Any => Type::Any,
        Type::Array(e) => {
            assert(mv[*e as int] == m@[*e as int] as int);
            Type::Array(m[*e])
        },
        Type::Record(rec) => {
            assert(t@ == TypeView::Record {
                hints: rec.name_hints@,
                fields: fields_view(rec.fields@),
            });
            let mut hints: Vec<String> = Vec::new();
            assert(hints_view(hints@) =~= rec.name_hints@.take(0));
            let mut k: usize = 0;
            while k < rec.name_hints.names.len()
                invariant
                    0 <= k <= rec.name_hints.names@.len(),
                    hints_view(hints@) =~= rec.name_hints@.take(k as int),
                decreases rec.name_hints.names@.len() - k,
            {
                let ghost hprev = hints_view(hints@);
                assert(rec.name_hints@[k as int] == rec.name_hints.names@[k as int]@);
                hints.push(rec.name_hints.names[k].clone());
                assert(hints_view(hints@) =~= hprev.push(rec.name_hints.names@[k as int]@));
                assert(hints_view(hints@) =~= rec.name_hints@.take(k as int + 1));
                k += 1;
            }
            assert(rec.name_hints@.take(rec.name_hints@.len() as int) =~= rec.name_hints@);
            let mut fields: Vec<(String, ArenaIndex)> = Vec::new();
            assert(fields_view(fields@) =~= rewrite_fields(fields_view(rec.fields@).take(0), mv));
            assert forall|q: int|
                0 <= q < rec.fields@.len() implies (#[trigger] rec.fields@[q]).1 < m@.len() by {
                assert(fields_view(rec.fields@)[q] == (rec.fields@[q].0@, rec.fields@[q].1 as int));
            }
            let mut k: usize = 0;
            while k < rec.fields.len()
                invariant
                    0 <= k <= rec.fields@.len(),
                    forall|q: int|
                        0 <= q < rec.fields@.len() ==> (#[trigger] rec.fields@[q]).1 < m@.len(),
                    *t == Type::Record(*rec),
                    t@ == (TypeView::Record {
                        hints: rec.name_hints@,
                        fields: fields_view(rec.fields@),
                    }),
                    mv == members_view(m@),
                    fields_view(fields@) =~= rewrite_fields(
                        fields_view(rec.fields@).take(k as int),
                        mv,
                    ),
                decreases rec.fields@.len() - k,
            {
                assert(fields_view(rec.fields@)[k as int] == (
                    rec.fields@[k as int].0@,
                    rec.fields@[k as int].1 as int,
                ));

                assert(mv[rec.fields@[k as int].1 as int] == m@[rec.fields@[k as int].1 as int] as int);
                let ghost fprev = fields_view(fields@);
                let name = rec.fields[k].0.clone();
                fields.push((name, m[rec.fields[k].1]));
                assert(fields_view(fields@) =~= fprev.push((
                    rec.fields@[k as int].0@,
                    m@[rec.fields@[k as int].1 as int] as int,
                )));
                assert(fields_view(fields@) =~= rewrite_fields(
                    fields_view(rec.fields@).take(k as int + 1),
                    mv,
                ));
                k += 1;
            }
            assert(fields_view(rec.fields@).take(rec.fields@.len() as int) =~= fields_view(
                rec.fields@,
            ));
            let r = Type::Record(Record { name_hints: NameHints { names: hints }, fields });
            assert(r@ == rewrite_node(t@, mv));
            r
        },
        Type::Union(ms) => {
            assert(t@ == TypeView::Union { members: members_view(ms@) });
            let ghost msv = members_view(ms@);
            let mut out: Vec<ArenaIndex> = Vec::new();
            assert(members_view(out@) =~= msv.take(0).map_values(|x: int| target(mv, x)));
            assert forall|q: int| 0 <= q < ms@.len() implies (#[trigger] ms@[q]) < m@.len() by {
                assert(members_view(ms@)[q] == ms@[q] as int);
            }
            let mut k: usize = 0;
            while k < ms.len()
                invariant
                    0 <= k <= ms@.len(),
                    forall|q: int| 0 <= q < ms@.len() ==> (#[trigger] ms@[q]) < m@.len(),
                    *t == Type::Union(*ms),
                    t@ == (TypeView::Union { members: members_view(ms@) }),
                    mv == members_view(m@),
                    msv == members_view(ms@),
                    members_view(out@) =~= msv.take(k as int).map_values(|x: int| target(mv, x)),
                decreases ms@.len() - k,
            {
                assert(msv[k as int] == ms@[k as int] as int);

                assert(mv[ms@[k as int] as int] == m@[ms@[k as int] as int] as int);
                let ghost oprev = members_view(out@);
                out.push(m[ms[k]]);
                assert(members_view(out@) =~= oprev.push(m@[ms@[k as int] as int] as int));
                assert(members_view(out@) =~= msv.take(k as int + 1).map_values(
                    |x: int| target(mv, x),
                ));
                k += 1;
            }
            assert(msv.take(ms@.len() as int) =~= msv);
            let r = Type::Union(out);
            assert(r@ == rewrite_node(t@, mv));
            r
        },
    }
}

impl TypeArena {

    /// Replace the hint set of the record node behind `i`, leaving its
    /// fields untouched.
    pub fn set_record_hints(&mut self, i: ArenaIndex, hints: Vec<String>)
        requires
            graph_wf(old(self)@),
            i < old(self)@.len(),
            old(self)@[i as int] is Record,
        ensures
            graph_wf(final(self)@),
            final(self)@ =~= old(self)@.update(
                i as int,
                TypeView::Record {
                    hints: hints_view(hints@),
                    fields: node_fields(old(self)@[i as int]),
                },
            ),
    {
        let ghost g0 = self@;
        let mut fields: Vec<(String, ArenaIndex)> = Vec::new();
        match &self.nodes[i] {
            Type::Record(rec) => {
                assert(g0[i as int] == TypeView::Record {
                    hints: rec.name_hints@,
                    fields: fields_view(rec.fields@),
                });
                assert(fields_view(fields@) =~= fields_view(rec.fields@).take(0));
                let mut k: usize = 0;
                while k < rec.fields.len()
                    invariant
                        0 <= k <= rec.fields@.len(),
                        fields_view(fields@) =~= fields_view(rec.fields@).take(k as int),
                    decreases rec.fields@.len() - k,
                {
                    let ghost fprev = fields_view(fields@);
                    let name = rec.fields[k].0.clone();
                    fields.push((name, rec.fields[k].1));
                    assert(fields_view(fields@) =~= fprev.push((
                        rec.fields@[k as int].0@,
                        rec.fields@[k as int].1 as int,
                    )));
                    assert(fields_view(fields@) =~= fields_view(rec.fields@).take(k as int + 1));
                    k += 1;
                }
                assert(fields_view(rec.fields@).take(rec.fields@.len() as int) =~= fields_view(
                    rec.fields@,
                ));
            },
            _ => {
                assert(false);
            },
        }
        let ghost sv = self@;
        let newt = Type::Record(Record { name_hints: NameHints { names: hints }, fields });
        assert(newt@ == TypeView::Record {
            hints: hints_view(hints@),
            fields: node_fields(g0[i as int]),
        });
        self.nodes.set(i, newt);
        assert(self@ =~= sv.update(i as int, newt@));
        assert(graph_wf(self@)) by {
            assert forall|k: int|
                0 <= k < self@.len() implies node_wf(#[trigger] self@[k], self@.len() as int) by {
                if k != i {
                    assert(self@[k] == g0[k]);
                } else {
                    assert(node_wf(g0[i as int], g0.len() as int));
                }
            }
        }
    }

    /// Redirect every stored reference in every node through `m`, in
    /// place. Node count and node kinds are unchanged, so the graph stays
    /// well-formed.
    pub fn apply_map(&mut self, m: &Vec<ArenaIndex>)
        requires
            graph_wf(old(self)@),
            m@.len() == old(self)@.len(),
            forall|k: int| 0 <= k < m@.len() ==> (#[trigger] m@[k]) < old(self)@.len(),
        ensures
            final(self)@ == rewrite_graph(old(self)@, members_view(m@)),
            graph_wf(final(self)@),
            final(self)@.len() == old(self)@.len(),
    {
        let ghost g0 = self@;
        let ghost mv = members_view(m@);
        let n = self.nodes.len();
        let mut i: usize = 0;
        while i < n
            invariant
                n == g0.len(),
                g0 == old(self)@,
                graph_wf(g0),
                mv == members_view(m@),
                m@.len() == g0.len(),
                forall|k: int| 0 <= k < m@.len() ==> (#[trigger] m@[k]) < g0.len(),
                self@.len() == g0.len(),
                0 <= i <= n,
                forall|k: int| 0 <= k < i ==> self@[k] == rewrite_node(g0[k], mv),
                forall|k: int| i <= k < n ==> self@[k] == g0[k],
            decreases n - i,
        {
            assert(self.nodes@[i as int]@ == self@[i as int]);
            assert(self@[i as int] == g0[i as int]);
            assert(node_wf(g0[i as int], g0.len() as int));
            let newt = rewrite_one(&self.nodes[i], m);
            let ghost sv = self@;
            self.nodes.set(i, newt);
            assert(self@ =~= sv.update(i as int, newt@));
            i += 1;
        }
        assert(self@ =~= rewrite_graph(g0, mv));
        assert(graph_wf(self@)) by {
            assert(forall|k: int|
                0 <= k < self@.len() ==> node_wf(#[trigger] self@[k], self@.len() as int)) by {
                assert(forall|k: int|
                    0 <= k < g0.len() ==> #[trigger] self@[k] == rewrite_node(g0[k], mv));
            }
            assert(forall|a: int, b: int|
                0 <= a < self@.len() && 0 <= b < self@.len() && is_primitive_view(
                    #[trigger] self@[a],
                ) && self@[a] == #[trigger] self@[b] ==> a == b) by {
                assert(forall|k: int|
                    0 <= k < g0.len() && is_primitive_view(g0[k]) ==> #[trigger] rewrite_node(
                        g0[k],
                        mv,
                    ) == g0[k]);
                assert(forall|k: int|
                    0 <= k < g0.len() && !is_primitive_view(g0[k]) ==> !is_primitive_view(
                        #[trigger] rewrite_node(g0[k], mv),
                    ));
            }
        }
    }
}

/// The externally visible result of one inference run: a type graph and
/// the handle of its root.
#[derive(Debug)]
pub struct Schema {
    pub arena: TypeArena,
    pub root: ArenaIndex,
}

impl Schema {
    /// Validity: the graph is well-formed and the root resolves.
    pub open spec fn wf(&self) -> bool {
        graph_wf(self.arena@) && (self.root as int) < self.arena@.len()
    }
}

} // verus!
