//! The schema inferrer: folds one or more already-parsed JSON-Schema
//! documents into a type graph.
//!
//! A document is modeled as an optional body tree: typed nodes, arrays,
//! objects whose properties are inline values or references. A reference
//! is resolved against its own document's top-level properties
//! (`#/properties/<name>`); an unresolved or cyclic reference is a
//! [`JSONSchemaError::DanglingReference`]. A document without a usable
//! body is [`JSONSchemaError::Empty`]. In multi-schema mode each named
//! document becomes one sub-root (name-hinted with its key), empty or
//! dangling documents are skipped, and all sub-roots are collected into
//! one synthetic root record keyed by schema name in input order.

use vstd::prelude::*;

use crate::json::{hint_view, record_hints};
use crate::naming::{pascal_case, pascal_of};
use crate::schema::{
    fields_view, graph_wf, prim_spec, ArenaIndex, NameHints, Record, Schema, Type, TypeArena,
    TypeView,
};
use vstd::string::StringExecFns;

use serde_json_schema::property::{Property, PropertyInstance};

verus! {

/// The failure conditions of schema inference.
#[derive(Debug, Clone, Copy, PartialEq, Eq, Structural)]
pub enum JSONSchemaError {
    /// No usable schema body was supplied.
    Empty,
    /// A reference could not be resolved within its own document.
    DanglingReference,
    /// Raw schema text could not be parsed at all.
    ParseError,
}

/// One node of a parsed schema document body.
#[derive(Debug)]
pub enum SchemaNode {
    Integer,
    Number,
    Boolean,
    Str,
    Null,
    Array(Box<SchemaNode>),
    Object(Vec<(String, SchemaProperty)>),
    /// A node that declares no shape at all.
    Empty,
}

/// A property of an object-typed schema node: an inline value, or a
/// reference given as its path segments (`#/a/b` as `["a", "b"]`).
#[derive(Debug)]
pub enum SchemaProperty {
    Value(SchemaNode),
    Ref(Vec<String>),
}

/// One parsed schema document: its body, if it declares one.
#[derive(Debug)]
pub struct SchemaDoc {
    pub body: Option<SchemaNode>,
}

/// An ordered mapping of schema name to raw schema text, the input of
/// multi-schema inference.
#[derive(Debug)]
pub struct JSONSchemaMap(pub Vec<(String, String)>);

/// The first property of `fields` called `name`.
pub open spec fn lookup_prop(fields: Seq<(String, SchemaProperty)>, name: Seq<char>) -> Option<
    SchemaProperty,
>
    decreases fields.len(),
{
    if fields.len() == 0 {
        Option::None
    } else if fields[0].0@ == name {
        Option::Some(fields[0].1)
    } else {
        lookup_prop(fields.drop_first(), name)
    }
}

/// Resolution of a reference path against the owning document's top-level
/// properties: `#/properties/<name>` names the inline value of the
/// property `<name>`; anything else, a missing property, or a reference
/// to another reference is unresolved.
pub open spec fn resolve_ref_spec(root: Seq<(String, SchemaProperty)>, path: Seq<String>) -> Option<
    SchemaNode,
> {
    if path.len() == 2 && path[0]@ == "properties"@ {
        match lookup_prop(root, path[1]@) {
            Option::Some(SchemaProperty::Value(n)) => Option::Some(n),
            _ => Option::None,
        }
    } else {
        Option::None
    }
}

/// The hints of a schema-derived record built under `hint`: the hint with
/// a fixed marker appended, so schema-derived names stay distinguishable
/// from sample-derived ones.
pub open spec fn schema_record_hints(hint: Option<Seq<char>>) -> Seq<Seq<char>> {
    match hint {
        Option::Some(h) => seq![h + "Type"@],
        Option::None => Seq::empty(),
    }
}

/// What inferring one schema node does to graph `g`: the grown graph and
/// the handle of the node's type, or no handle when a reference under the
/// node is dangling (`fuel` bounds how many references one path may
/// follow; a cyclic chain exhausts it).
pub open spec fn infer_node_spec(
    g: Seq<TypeView>,
    node: SchemaNode,
    hint: Option<Seq<char>>,
    root: Seq<(String, SchemaProperty)>,
    fuel: nat,
) -> (Seq<TypeView>, Option<int>)
    decreases fuel, node,
{
    match node {
        SchemaNode::Integer => {
            let p = prim_spec(g, TypeView::Int);
            (p.0, Option::Some(p.1))
        },
        SchemaNode::Number => {
            let p = prim_spec(g, TypeView::Float);
            (p.0, Option::Some(p.1))
        },
        SchemaNode::Boolean => {
            let p = prim_spec(g, TypeView::Bool);
            (p.0, Option::Some(p.1))
        },
        SchemaNode::Str => {
            let p = prim_spec(g, TypeView::Str);
            (p.0, Option::Some(p.1))
        },
        SchemaNode::Null => {
            let p = prim_spec(g, TypeView::Null);
            (p.0, Option::Some(p.1))
        },
        SchemaNode::Empty => {
            let p = prim_spec(g, TypeView::Any);
            (p.0, Option::Some(p.1))
        },
        SchemaNode::Array(items) => {
            let ge = infer_node_spec(g, *items, hint, root, fuel);
            match ge.1 {
                Option::None => (ge.0, Option::None),
                Option::Some(e) => (
                    ge.0.push(TypeView::Array { elem: e }),
                    Option::Some(ge.0.len() as int),
                ),
            }
        },
        SchemaNode::Object(fs) => {
            let gf = infer_props_spec(g, fs@, root, fuel);
            match gf.1 {
                Option::None => (gf.0, Option::None),
                Option::Some(fields) => (
                    gf.0.push(TypeView::Record { hints: schema_record_hints(hint), fields }),
                    Option::Some(gf.0.len() as int),
                ),
            }
        },
    }
}

/// Infer an object's properties in order, each value hinted with the
/// pascal-cased key; stops at the first dangling reference.
pub open spec fn infer_props_spec(
    g: Seq<TypeView>,
    fs: Seq<(String, SchemaProperty)>,
    root: Seq<(String, SchemaProperty)>,
    fuel: nat,
) -> (Seq<TypeView>, Option<Seq<(Seq<char>, int)>>)
    decreases fuel, fs,
{
    if fs.len() == 0 {
        (g, Option::Some(Seq::empty()))
    } else {
        let step = match fs[0].1 {
            SchemaProperty::Value(n) => Option::Some(
                infer_node_spec(g, n, Option::Some(pascal_of(fs[0].0@)), root, fuel),
            ),
            SchemaProperty::Ref(path) => {
                if fuel == 0 {
                    Option::None
                } else {
                    match resolve_ref_spec(root, path@) {
                        Option::Some(n) => Option::Some(
                            infer_node_spec(
                                g,
                                n,
                                Option::Some(pascal_of(fs[0].0@)),
                                root,
                                (fuel - 1) as nat,
                            ),
                        ),
                        Option::None => Option::None,
                    }
                }
            },
        };
        match step {
            Option::None => (g, Option::None),
            Option::Some(gh) => match gh.1 {
                Option::None => (gh.0, Option::None),
                Option::Some(h) => {
                    let rest = infer_props_spec(gh.0, fs.drop_first(), root, fuel);
                    match rest.1 {
                        Option::None => (rest.0, Option::None),
                        Option::Some(tail) => (rest.0, Option::Some(seq![(fs[0].0@, h)] + tail)),
                    }
                },
            },
        }
    }
}

fn resolve_ref<'a>(root: &'a Vec<(String, SchemaProperty)>, path: &Vec<String>) -> (r: Option<
    &'a SchemaNode,
>)
    ensures
        match r {
            Option::Some(n) => resolve_ref_spec(root@, path@) == Option::Some(*n),
            Option::None => resolve_ref_spec(root@, path@) is None,
        },
{
    if path.len() != 2 {
        return None;
    }
    let props: String = ("properties").to_owned();
    if !(path[0] == props) {
        return None;
    }
    let name = &path[1];
    assert(root@.skip(0) =~= root@);
    let mut i: usize = 0;
    while i < root.len()
        invariant
            0 <= i <= root@.len(),
            path@.len() == 2,
            path@[0]@ == "properties"@,
            name@ == path@[1]@,
            lookup_prop(root@, name@) == lookup_prop(root@.skip(i as int), name@),
        decreases root@.len() - i,
    {
        assert(root@.skip(i as int)[0] == root@[i as int]);
        assert(root@.skip(i as int).drop_first() =~= root@.skip(i as int + 1));
        if root[i].0 == *name {
            assert(root@.skip(i as int)[0].0@ == name@);
            assert(lookup_prop(root@, name@) == Option::Some(root@[i as int].1));
            match &root[i].1 {
                SchemaProperty::Value(n) => {
                    assert(root@[i as int].1 == SchemaProperty::Value(*n));
                    return Some(n);
                },
                SchemaProperty::Ref(r) => {
                    assert(root@[i as int].1 == SchemaProperty::Ref(*r));
                    return None;
                },
            }
        }
        assert(root@.skip(i as int)[0].0@ != name@);
        i += 1;
    }
    assert(root@.skip(root@.len() as int) =~= Seq::<(String, SchemaProperty)>::empty());
    None
}

/// Infer the type of one schema node, growing the graph; `root` holds the
/// owning document's top-level properties for reference resolution.
pub fn infer_node(
    arena: &mut TypeArena,
    node: &SchemaNode,
    hint: Option<&String>,
    root: &Vec<(String, SchemaProperty)>,
    fuel: u128,
) -> (r: Result<ArenaIndex, JSONSchemaError>)
    requires
        graph_wf(old(arena)@),
    ensures
        graph_wf(final(arena)@),
        old(arena)@.is_prefix_of(final(arena)@),
        ({
            let m = infer_node_spec(old(arena)@, *node, hint_view(hint), root@, fuel as nat);
            match r {
                Ok(h) => m.1 == Option::Some(h as int) && final(arena)@ == m.0 && (h as int)
                    < final(arena)@.len(),
                Err(e) => m.1 is None && final(arena)@ == m.0 && e is DanglingReference,
            }
        }),
    decreases fuel, node,
{
    let ghost g0 = arena@;
    match node {
        SchemaNode::Integer => Ok(arena.get_index_of_primitive(Type::Int)),
        SchemaNode::Number => Ok(arena.get_index_of_primitive(Type::Float)),
        SchemaNode::Boolean => Ok(arena.get_index_of_primitive(Type::Bool)),
        SchemaNode::Str => Ok(arena.get_index_of_primitive(Type::Str)),
        SchemaNode::Null => Ok(arena.get_index_of_primitive(Type::Null)),
        SchemaNode::Empty => Ok(arena.get_index_of_primitive(Type::Any)),
        SchemaNode::Array(items) => {
            proof {
                assert(*node == SchemaNode::Array(*items));
                assert(decreases_to!(*node => (*node)->Array_0));
                assert((*node)->Array_0 == *items);
            }
            match infer_node(arena, &**items, hint, root, fuel) {
                Err(e) => Err(e),
                Ok(e) => {
                    let ghost gpre = arena@;
                    let r = arena.insert(Type::Array(e));
                    proof {
                        crate::schema::lemma_prefix_trans(g0, gpre, arena@);
                    }
                    Ok(r)
                },
            }
        },
        SchemaNode::Object(fs) => {
            let ghost fv = fs@;
            let ghost rv = root@;
            let mut fields: Vec<(String, ArenaIndex)> = Vec::new();
            assert(fields_view(fields@) =~= Seq::<(Seq<char>, int)>::empty());
            assert(fv.skip(0) =~= fv);
            let mut i: usize = 0;
            while i < fs.len()
                invariant
                    graph_wf(arena@),
                    g0 == old(arena)@,
                    g0.is_prefix_of(arena@),
                    *node == SchemaNode::Object(*fs),
                    fv == fs@,
                    rv == root@,
                    0 <= i <= fv.len(),
                    ({
                        let m = infer_props_spec(g0, fv, rv, fuel as nat);
                        let rest = infer_props_spec(arena@, fv.skip(i as int), rv, fuel as nat);
                        &&& (rest.1 is None ==> m.0 == rest.0 && m.1 is None)
                        &&& (rest.1 matches Option::Some(tail) ==> m.0 == rest.0 && m.1
                            == Option::Some(fields_view(fields@) + tail))
                    }),
                    forall|k: int|
                        0 <= k < fields@.len() ==> (#[trigger] fields@[k]).1 < arena@.len(),
                decreases fv.len() - i,
            {
                let ghost gpre = arena@;
                let ghost fields0 = fields_view(fields@);
                assert(fv.skip(i as int)[0] == fv[i as int]);
                assert(fv.skip(i as int).drop_first() =~= fv.skip(i as int + 1));
                let key_pascal = pascal_case(fs[i].0.as_str());
                assert(key_pascal@ == pascal_of(fv[i as int].0@));
                let step = match &fs[i].1 {
                    SchemaProperty::Value(n) => {
                        proof {
                            assert(fv[i as int].1 == SchemaProperty::Value(*n));
                            assert(decreases_to!(*node => (*node)->Object_0));
                            assert(decreases_to!(*fs => fs@));
                            assert(decreases_to!(fs@ => fs@[i as int]));
                            assert(decreases_to!(fv[i as int] => fv[i as int].1));
                            assert(decreases_to!(fv[i as int].1 => (fv[i as int].1)->Value_0));
                        }
                        infer_node(arena, n, Some(&key_pascal), root, fuel)
                    },
                    SchemaProperty::Ref(path) => {
                        proof {
                            assert(fv[i as int].1 == SchemaProperty::Ref(*path));
                        }
                        if fuel == 0 {
                            assert(infer_props_spec(arena@, fv.skip(i as int), rv, fuel as nat).1
                                is None);
                            return Err(JSONSchemaError::DanglingReference);
                        }
                        match resolve_ref(root, path) {
                            Some(n) => {
                                assert(resolve_ref_spec(rv, path@) == Option::Some(*n));
                                infer_node(arena, n, Some(&key_pascal), root, fuel - 1)
                            },
                            None => {
                                assert(infer_props_spec(
                                    arena@,
                                    fv.skip(i as int),
                                    rv,
                                    fuel as nat,
                                ).1 is None);
                                return Err(JSONSchemaError::DanglingReference);
                            },
                        }
                    },
                };
                let h = match step {
                    Ok(h) => h,
                    Err(e) => {
                        proof {
                            crate::schema::lemma_prefix_trans(g0, gpre, arena@);
                            assert(infer_props_spec(gpre, fv.skip(i as int), rv, fuel as nat) == (
                                arena@,
                                Option::<Seq<(Seq<char>, int)>>::None,
                            ));
                        }
                        return Err(e);
                    },
                };
                proof {
                    crate::schema::lemma_prefix_trans(g0, gpre, arena@);
                    let rest2 = infer_props_spec(arena@, fv.skip(i as int + 1), rv, fuel as nat);
                    match rest2.1 {
                        Option::Some(tail) => {
                            assert(infer_props_spec(gpre, fv.skip(i as int), rv, fuel as nat) == (
                                rest2.0,
                                Option::Some(seq![(fv[i as int].0@, h as int)] + tail),
                            ));
                            assert(fields0.push((fv[i as int].0@, h as int)) + tail =~= fields0 + (
                            seq![(fv[i as int].0@, h as int)] + tail));
                        },
                        Option::None => {
                            assert(infer_props_spec(gpre, fv.skip(i as int), rv, fuel as nat) == (
                                rest2.0,
                                Option::<Seq<(Seq<char>, int)>>::None,
                            ));
                        },
                    }
                }
                let name = fs[i].0.clone();
                fields.push((name, h));
                assert(fields_view(fields@) =~= fields0.push((fv[i as int].0@, h as int)));
                assert(forall|k: int|
                    0 <= k < fields@.len() ==> (#[trigger] fields@[k]).1 < arena@.len()) by {
                    assert(gpre.len() <= arena@.len());
                }
                i += 1;
            }
            assert(fv.skip(fv.len() as int) =~= Seq::<(String, SchemaProperty)>::empty());
            let ghost gf = infer_props_spec(g0, fv, rv, fuel as nat);
            assert(gf.0 == arena@);
            assert(gf.1 == Option::Some(fields_view(fields@))) by {
                assert(fields_view(fields@) + Seq::<(Seq<char>, int)>::empty() =~= fields_view(
                    fields@,
                ));
            }
            let mut name_hints = NameHints::new();
            match hint {
                Some(hn) => {
                    name_hints.insert(hn.clone().concat("Type"));
                    assert(name_hints@ =~= schema_record_hints(hint_view(hint)));
                },
                None => {
                    assert(name_hints@ =~= schema_record_hints(hint_view(hint)));
                },
            }
            let ghost gpre3 = arena@;
            let r = arena.insert(Type::Record(Record { name_hints, fields }));
            proof {
                crate::schema::lemma_prefix_trans(g0, gpre3, arena@);
            }
            Ok(r)
        },
    }
}

/// The top-level properties a document's references resolve against: the
/// body's own properties when the body is an object, nothing otherwise.
pub open spec fn root_fields_of(n: SchemaNode) -> Seq<(String, SchemaProperty)> {
    match n {
        SchemaNode::Object(fs) => fs@,
        _ => Seq::empty(),
    }
}

/// The reference-following budget for one document: one more than its
/// top-level property count, so any chain longer than that is cyclic.
pub open spec fn doc_fuel(n: SchemaNode) -> nat {
    (root_fields_of(n).len() + 1) as nat
}

/// The view of an optional owned name.
pub open spec fn owned_hint_view(o: Option<String>) -> Option<Seq<char>> {
    match o {
        Option::Some(s) => Option::Some(s@),
        Option::None => Option::None,
    }
}

/// An inference run in progress: the graph built so far and the named
/// sub-roots inferred so far.
#[derive(Debug)]
pub struct InferrerClosure {
    pub arena: TypeArena,
    pub roots: Vec<(String, ArenaIndex)>,
}

/// What inserting one named document does to a run: an empty body is
/// skipped, a dangling document leaves the sub-roots unchanged (its
/// partial nodes stay as dead allocation), a good one appends its
/// name-hinted sub-root. The flag reports success.
pub open spec fn insert_spec(
    g: Seq<TypeView>,
    roots: Seq<(Seq<char>, int)>,
    doc: SchemaDoc,
    name: Seq<char>,
) -> (Seq<TypeView>, Seq<(Seq<char>, int)>, bool) {
    match doc.body {
        Option::None => (g, roots, true),
        Option::Some(n) => {
            let m = infer_node_spec(g, n, Option::Some(name), root_fields_of(n), doc_fuel(n));
            match m.1 {
                Option::None => (m.0, roots, false),
                Option::Some(h) => (m.0, roots.push((name, h)), true),
            }
        },
    }
}

/// What collecting a run does: one synthetic root record whose fields are
/// the sub-roots in input order, name-hinted with the outer name if given.
pub open spec fn collect_spec(
    g: Seq<TypeView>,
    roots: Seq<(Seq<char>, int)>,
    outer: Option<Seq<char>>,
) -> (Seq<TypeView>, int) {
    (g.push(TypeView::Record { hints: record_hints(outer), fields: roots }), g.len() as int)
}

impl InferrerClosure {
    /// Validity: the graph is well-formed and every sub-root resolves.
    pub open spec fn wf(&self) -> bool {
        graph_wf(self.arena@) && forall|i: int|
            0 <= i < self.roots@.len() ==> (#[trigger] self.roots@[i]).1 < self.arena@.len()
    }

    /// An empty run.
    pub fn new() -> (r: Self)
        ensures
            r.wf(),
            r.arena@ =~= Seq::<TypeView>::empty(),
            r.roots@ =~= Seq::<(String, ArenaIndex)>::empty(),
    {
        InferrerClosure { arena: TypeArena::new(), roots: Vec::new() }
    }

    /// Infer one named document into the run, exactly as [`insert_spec`]
    /// says; the error reports a dangling reference, after which the
    /// sub-roots are unchanged.
    pub fn insert(&mut self, doc: &SchemaDoc, outer_name: &String) -> (r: Result<
        (),
        JSONSchemaError,
    >)
        requires
            old(self).wf(),
        ensures
            final(self).wf(),
            ({
                let m = insert_spec(
                    old(self).arena@,
                    fields_view(old(self).roots@),
                    *doc,
                    outer_name@,
                );
                &&& final(self).arena@ == m.0
                &&& fields_view(final(self).roots@) == m.1
                &&& (r is Ok <==> m.2)
            }),
            r matches Err(e) ==> e is DanglingReference,
    {
        match &doc.body {
            None => Ok(()),
            Some(n) => {
                let empty_fields: Vec<(String, SchemaProperty)> = Vec::new();
                let root_ref = match n {
                    SchemaNode::Object(fs) => fs,
                    _ => &empty_fields,
                };
                assert(root_ref@ == root_fields_of(*n));
                let fuel: u128 = root_ref.len() as u128 + 1;
                match infer_node(&mut self.arena, n, Some(outer_name), root_ref, fuel) {
                    Ok(h) => {
                        let ghost roots0 = fields_view(self.roots@);
                        self.roots.push((outer_name.clone(), h));
                        assert(fields_view(self.roots@) =~= roots0.push((outer_name@, h as int)));
                        Ok(())
                    },
                    Err(e) => Err(e),
                }
            },
        }
    }

    /// Close the run: build the synthetic root record over all sub-roots,
    /// exactly as [`collect_spec`] says. Never fails.
    pub fn collect(self, outer_name: Option<String>) -> (r: Result<Schema, JSONSchemaError>)
        requires
            self.wf(),
        ensures
            r is Ok,
            r matches Ok(s) ==> s.wf() && (s.arena@, s.root as int) == collect_spec(
                self.arena@,
                fields_view(self.roots@),
                owned_hint_view(outer_name),
            ),
    {
        let InferrerClosure { mut arena, roots } = self;
        let ghost g0 = arena@;
        let mut name_hints = NameHints::new();
        match outer_name {
            Some(n) => {
                name_hints.insert(n);
            },
            None => {},
        }
        let r = arena.insert(Type::Record(Record { name_hints, fields: roots }));
        Ok(Schema { arena, root: r })
    }
}

impl Default for InferrerClosure {
    /// The same empty run as [`InferrerClosure::new`].
    fn default() -> (r: Self)
        ensures
            r.wf(),
            r.arena@ =~= Seq::<TypeView>::empty(),
            r.roots@ =~= Seq::<(String, ArenaIndex)>::empty(),
    {
        Self::new()
    }
}

/// Infer a schema from one already-parsed document. A document without a
/// usable body is `Empty`; a dangling reference is `DanglingReference`;
/// otherwise the result is exactly [`infer_node_spec`] of the body over
/// an empty graph, root-name-hinted.
pub fn infer(doc: &SchemaDoc, root_name: Option<String>) -> (r: Result<Schema, JSONSchemaError>)
    ensures
        doc.body is None ==> (r matches Err(e) && e is Empty),
        doc.body matches Some(n) ==> ({
            let m = infer_node_spec(
                Seq::empty(),
                n,
                owned_hint_view(root_name),
                root_fields_of(n),
                doc_fuel(n),
            );
            match r {
                Ok(s) => s.wf() && m.1 == Option::Some(s.root as int) && s.arena@ == m.0,
                Err(e) => m.1 is None && e is DanglingReference,
            }
        }),
{
    match &doc.body {
        None => Err(JSONSchemaError::Empty),
        Some(n) => {
            let mut arena = TypeArena::new();
            let empty_fields: Vec<(String, SchemaProperty)> = Vec::new();
            let root_ref = match n {
                SchemaNode::Object(fs) => fs,
                _ => &empty_fields,
            };
            assert(root_ref@ == root_fields_of(*n));
            let fuel: u128 = root_ref.len() as u128 + 1;
            let hint_ref = match &root_name {
                Some(s) => Some(s),
                None => None,
            };
            assert(hint_view(hint_ref) == owned_hint_view(root_name));
            match infer_node(&mut arena, n, hint_ref, root_ref, fuel) {
                Ok(h) => Ok(Schema { arena, root: h }),
                Err(e) => Err(e),
            }
        },
    }
}

/// Folding a run of named documents into a fresh run, one insert each.
pub open spec fn mult_fold_spec(
    g: Seq<TypeView>,
    roots: Seq<(Seq<char>, int)>,
    docs: Seq<(String, SchemaDoc)>,
) -> (Seq<TypeView>, Seq<(Seq<char>, int)>)
    decreases docs.len(),
{
    if docs.len() == 0 {
        (g, roots)
    } else {
        let st = insert_spec(g, roots, docs[0].1, docs[0].0@);
        mult_fold_spec(st.0, st.1, docs.drop_first())
    }
}

/// The result of multi-schema inference over parsed documents: every
/// document inserted in order (empty and dangling ones skipped), then
/// collected under the outer name.
pub open spec fn infer_mult_docs_spec(
    docs: Seq<(String, SchemaDoc)>,
    root_name: Option<Seq<char>>,
) -> (Seq<TypeView>, int) {
    let st = mult_fold_spec(Seq::empty(), Seq::empty(), docs);
    collect_spec(st.0, st.1, root_name)
}

/// Infer one schema from several named, already-parsed documents: each
/// becomes a name-hinted sub-root (empty or dangling documents are
/// skipped), gathered under one synthetic root record. Never fails.
pub fn infer_mult_docs(docs: &Vec<(String, SchemaDoc)>, root_name: Option<String>) -> (r: Result<
    Schema,
    JSONSchemaError,
>)
    ensures
        r is Ok,
        r matches Ok(s) ==> s.wf() && (s.arena@, s.root as int) == infer_mult_docs_spec(
            docs@,
            owned_hint_view(root_name),
        ),
{
    let ghost dv = docs@;
    let mut closure = InferrerClosure::new();
    assert(dv.skip(0) =~= dv);
    assert(fields_view(closure.roots@) =~= Seq::<(Seq<char>, int)>::empty());
    let mut i: usize = 0;
    while i < docs.len()
        invariant
            closure.wf(),
            dv == docs@,
            0 <= i <= dv.len(),
            mult_fold_spec(Seq::empty(), Seq::empty(), dv) == mult_fold_spec(
                closure.arena@,
                fields_view(closure.roots@),
                dv.skip(i as int),
            ),
        decreases dv.len() - i,
    {
        assert(dv.skip(i as int)[0] == dv[i as int]);
        assert(dv.skip(i as int).drop_first() =~= dv.skip(i as int + 1));
        let _ = closure.insert(&docs[i].1, &docs[i].0);
        i += 1;
    }
    assert(dv.skip(dv.len() as int) =~= Seq::<(String, SchemaDoc)>::empty());
    closure.collect(root_name)
}

#[verifier::external_type_specification]
#[verifier::external_body]
pub struct ExPropertyInstance(PropertyInstance);

/// Whether a text parses as a JSON-Schema document: the success of
/// serde_json_schema's parser, a function of the text alone.
pub uninterp spec fn schema_parses(text: Seq<char>) -> bool;

/// Relies on serde_json_schema's `Schema: TryFrom<&str>`: parsing succeeds
/// or fails as a function of the text alone. A parsed body (the document's
/// `specification()`) is converted one-for-one into the library's document
/// model; nothing is promised of its contents, because the parsed object
/// keeps its properties in a hash map whose iteration order varies.
#[verifier::external_body]
fn parse_schema_text(text: &str) -> (r: Option<SchemaDoc>)
    ensures
        r is Some <==> schema_parses(text@),
{
    match <serde_json_schema::Schema as std::convert::TryFrom<&str>>::try_from(text) {
        Ok(s) => Some(
            SchemaDoc {
                body: match s.specification() {
                    Some(p) => Some(convert_instance(p)),
                    None => None,
                },
            },
        ),
        Err(_) => None,
    }
}

/// Relies on serde_json_schema's `PropertyInstance`: each variant is moved
/// one-for-one onto the corresponding node of the library's document model.
#[verifier::external_body]
fn convert_instance(p: &PropertyInstance) -> SchemaNode {
    match p {
        PropertyInstance::Null => SchemaNode::Null,
        PropertyInstance::Boolean => SchemaNode::Boolean,
        PropertyInstance::Integer { .. } => SchemaNode::Integer,
        PropertyInstance::Number { .. } => SchemaNode::Number,
        PropertyInstance::String => SchemaNode::Str,
        PropertyInstance::Array { items } => SchemaNode::Array(Box::new(convert_instance(items))),
        PropertyInstance::Object { .. } => SchemaNode::Object(convert_fields(p)),
    }
}

/// Relies on serde_json_schema's `Property`: an object's properties are
/// moved one-for-one, inline values converted, references kept as their
/// path segments.
#[verifier::external_body]
fn convert_fields(p: &PropertyInstance) -> Vec<(String, SchemaProperty)> {
    let mut out = Vec::new();
    if let PropertyInstance::Object { properties, .. } = p {
        for (k, v) in properties.iter() {
            let sp = match v {
                Property::Value(inst) => SchemaProperty::Value(convert_instance(inst)),
                Property::Ref(r) => SchemaProperty::Ref(split_ref(&r.reference)),
            };
            out.push((k.clone(), sp));
        }
    }
    out
}

/// Relies on str::strip_prefix and str::split to break a `$ref` string
/// such as `#/properties/x` into its path segments; a reference without
/// the `#/` prefix keeps no segments and so never resolves.
#[verifier::external_body]
fn split_ref(s: &str) -> Vec<String> {
    match s.strip_prefix("#/") {
        Some(rest) => rest.split('/').map(|seg| seg.to_string()).collect(),
        None => Vec::new(),
    }
}

/// Whether `dv` pairs each entry of `m` with a parsed document under the
/// same name, in the same order.
pub open spec fn docs_match_map(dv: Seq<(String, SchemaDoc)>, m: Seq<(String, String)>) -> bool {
    dv.len() == m.len() && forall|i: int| 0 <= i < dv.len() ==> (#[trigger] dv[i]).0 == m[i].0
}

/// Infer one schema from several named raw schema texts: each text is
/// parsed (a text that does not parse aborts the whole run with
/// `ParseError`), then the parsed documents are folded exactly as
/// [`infer_mult_docs`] does, under the outer name.
pub fn infer_mult(schemas: &JSONSchemaMap, root_name: Option<String>) -> (r: Result<
    Schema,
    JSONSchemaError,
>)
    ensures
        (r is Err) <==> (exists|i: int|
            0 <= i < schemas.0@.len() && !schema_parses((#[trigger] schemas.0@[i]).1@)),
        r matches Err(e) ==> e is ParseError,
        r matches Ok(s) ==> s.wf() && (exists|dv: Seq<(String, SchemaDoc)>|
            #[trigger] docs_match_map(dv, schemas.0@) && (s.arena@, s.root as int)
                == infer_mult_docs_spec(dv, owned_hint_view(root_name))),
{
    let mut docs: Vec<(String, SchemaDoc)> = Vec::new();
    let mut i: usize = 0;
    while i < schemas.0.len()
        invariant
            0 <= i <= schemas.0@.len(),
            docs@.len() == i,
            forall|k: int| 0 <= k < i ==> (#[trigger] docs@[k]).0 == schemas.0@[k].0,
            forall|k: int| 0 <= k < i ==> schema_parses((#[trigger] schemas.0@[k]).1@),
        decreases schemas.0@.len() - i,
    {
        match parse_schema_text(schemas.0[i].1.as_str()) {
            None => {
                assert(!schema_parses(schemas.0@[i as int].1@));
                return Err(JSONSchemaError::ParseError);
            },
            Some(d) => {
                let key = schemas.0[i].0.clone();
                docs.push((key, d));
            },
        }
        i += 1;
    }
    assert(forall|k: int|
        0 <= k < schemas.0@.len() ==> schema_parses((#[trigger] schemas.0@[k]).1@));
    let r = infer_mult_docs(&docs, root_name);
    assert(docs_match_map(docs@, schemas.0@));
    r
}

} // verus!
