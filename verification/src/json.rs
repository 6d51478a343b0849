//! The value inferrer: folds one or more raw data samples into a type graph.
//!
//! Primitive samples map to the canonical primitive handles; an array
//! sample folds its element types through the union builder (an empty
//! array yields Any); an object sample builds a record in first-seen key
//! order, name-hinted with the capitalized enclosing key when one was
//! supplied. Several top-level samples are inferred independently and
//! folded through the union builder exactly like array elements.

use vstd::prelude::*;

use crate::json_schema::JSONSchemaError;
use crate::naming::{pascal_case, pascal_of};
use crate::schema::{
    fields_view, graph_wf, members_view, prim_spec, ArenaIndex, NameHints, Record, Schema, Type,
    TypeArena, TypeView,
};
use crate::unioner::{union_spec, union_types};

verus! {

/// One already-parsed data sample. Numeric samples only record whether
/// they were integral; the numeric value itself never shapes a type.
#[derive(Debug)]
pub enum JsonValue {
    Null,
    Bool(bool),
    Int(i64),
    Float,
    Str(String),
    Array(Vec<JsonValue>),
    Object(Vec<(String, JsonValue)>),
}

/// The hints of a record built under `hint`.
pub open spec fn record_hints(hint: Option<Seq<char>>) -> Seq<Seq<char>> {
    match hint {
        Option::Some(h) => seq![h],
        Option::None => Seq::empty(),
    }
}

/// What inferring one sample does to graph `g`: the grown graph and the
/// handle of the sample's type.
pub open spec fn infer_value_spec(g: Seq<TypeView>, v: JsonValue, hint: Option<Seq<char>>) -> (
    Seq<TypeView>,
    int,
)
    decreases v,
{
    match v {
        JsonValue::Null => prim_spec(g, TypeView::Null),
        JsonValue::Bool(_) => prim_spec(g, TypeView::Bool),
        JsonValue::Int(_) => prim_spec(g, TypeView::Int),
        JsonValue::Float => prim_spec(g, TypeView::Float),
        JsonValue::Str(_) => prim_spec(g, TypeView::Str),
        JsonValue::Array(elems) => {
            let gl = infer_list_spec(g, elems@, hint);
            let ge = if elems@.len() == 0 {
                prim_spec(gl.0, TypeView::Any)
            } else {
                union_spec(gl.0, gl.1)
            };
            (ge.0.push(TypeView::Array { elem: ge.1 }), ge.0.len() as int)
        },
        JsonValue::Object(fs) => {
            let gf = infer_fields_spec(g, fs@);
            (
                gf.0.push(TypeView::Record { hints: record_hints(hint), fields: gf.1 }),
                gf.0.len() as int,
            )
        },
    }
}

/// Infer a list of samples left to right under one shared hint, threading
/// the graph and collecting the handles.
pub open spec fn infer_list_spec(
    g: Seq<TypeView>,
    vs: Seq<JsonValue>,
    hint: Option<Seq<char>>,
) -> (Seq<TypeView>, Seq<int>)
    decreases vs,
{
    if vs.len() == 0 {
        (g, Seq::empty())
    } else {
        let gh = infer_value_spec(g, vs[0], hint);
        let rest = infer_list_spec(gh.0, vs.drop_first(), hint);
        (rest.0, seq![gh.1] + rest.1)
    }
}

/// Infer an object's fields in first-seen key order, each value hinted
/// with the pascal-cased key.
pub open spec fn infer_fields_spec(g: Seq<TypeView>, fs: Seq<(String, JsonValue)>) -> (
    Seq<TypeView>,
    Seq<(Seq<char>, int)>,
)
    decreases fs,
{
    if fs.len() == 0 {
        (g, Seq::empty())
    } else {
        let gh = infer_value_spec(g, fs[0].1, Option::Some(pascal_of(fs[0].0@)));
        let rest = infer_fields_spec(gh.0, fs.drop_first());
        (rest.0, seq![(fs[0].0@, gh.1)] + rest.1)
    }
}

/// The view of an optional hint.
pub open spec fn hint_view(hint: Option<&String>) -> Option<Seq<char>> {
    match hint {
        Option::Some(s) => Option::Some(s@),
        Option::None => Option::None,
    }
}

/// Infer the type of one sample, growing the graph.
pub fn infer_value(arena: &mut TypeArena, v: &JsonValue, hint: Option<&String>) -> (r: ArenaIndex)
    requires
        graph_wf(old(arena)@),
    ensures
        graph_wf(final(arena)@),
        old(arena)@.is_prefix_of(final(arena)@),
        r < final(arena)@.len(),
        (final(arena)@, r as int) == infer_value_spec(old(arena)@, *v, hint_view(hint)),
    decreases v,
{
    let ghost g0 = arena@;
    match v {
        JsonValue::Null => arena.get_index_of_primitive(Type::Null),
        JsonValue::Bool(_) => arena.get_index_of_primitive(Type::Bool),
        JsonValue::Int(_) => arena.get_index_of_primitive(Type::Int),
        JsonValue::Float => arena.get_index_of_primitive(Type::Float),
        JsonValue::Str(_) => arena.get_index_of_primitive(Type::Str),
        JsonValue::Array(elems) => {
            let ghost vs = elems@;
            let mut hs: Vec<ArenaIndex> = Vec::new();
            assert(members_view(hs@) =~= Seq::<int>::empty());
            assert(vs.skip(0) =~= vs);
            let mut i: usize = 0;
            while i < elems.len()
                invariant
                    graph_wf(arena@),
                    g0.is_prefix_of(arena@),
                    *v == JsonValue::Array(*elems),
                    vs == elems@,
                    0 <= i <= vs.len(),
                    infer_list_spec(g0, vs, hint_view(hint)).0 == infer_list_spec(
                        arena@,
                        vs.skip(i as int),
                        hint_view(hint),
                    ).0,
                    infer_list_spec(g0, vs, hint_view(hint)).1 =~= members_view(hs@)
                        + infer_list_spec(arena@, vs.skip(i as int), hint_view(hint)).1,
                    forall|k: int| 0 <= k < hs@.len() ==> (#[trigger] hs@[k]) < arena@.len(),
                decreases vs.len() - i,
            {
                let ghost gpre = arena@;
                assert(vs.skip(i as int)[0] == vs[i as int]);
                assert(vs.skip(i as int).drop_first() =~= vs.skip(i as int + 1));
                proof {
                    assert(*v == JsonValue::Array(*elems));
                    assert(decreases_to!(*v => (*v)->Array_0));
                    assert((*v)->Array_0 == *elems);
                    assert(decreases_to!(*elems => elems@));
                    assert(decreases_to!(elems@ => elems@[i as int]));
                }
                let h = infer_value(arena, &elems[i], hint);
                proof {
                    crate::schema::lemma_prefix_trans(g0, gpre, arena@);
                }
                let ghost hs0 = members_view(hs@);
                hs.push(h);
                assert(members_view(hs@) =~= hs0.push(h as int));
                assert(forall|k: int|
                    0 <= k < hs@.len() ==> (#[trigger] hs@[k]) < arena@.len()) by {
                    assert(gpre.len() <= arena@.len());
                }
                i += 1;
            }
            assert(vs.skip(vs.len() as int) =~= Seq::<JsonValue>::empty());
            let ghost gl = infer_list_spec(g0, vs, hint_view(hint));
            assert(gl.0 == arena@);
            assert(gl.1 =~= members_view(hs@));
            let ghost gpre2 = arena@;
            let e: ArenaIndex;
            if elems.len() == 0 {
                e = arena.get_index_of_primitive(Type::Any);
            } else {
                e = union_types(arena, &hs);
            }
            proof {
                crate::schema::lemma_prefix_trans(g0, gpre2, arena@);
            }
            let ghost gpre3 = arena@;
            let r = arena.insert(Type::Array(e));
            proof {
                crate::schema::lemma_prefix_trans(g0, gpre3, arena@);
            }
            r
        },
        JsonValue::Object(fs) => {
            let ghost fv = fs@;
            let mut fields: Vec<(String, ArenaIndex)> = Vec::new();
            assert(fields_view(fields@) =~= Seq::<(Seq<char>, int)>::empty());
            assert(fv.skip(0) =~= fv);
            let mut i: usize = 0;
            while i < fs.len()
                invariant
                    graph_wf(arena@),
                    g0.is_prefix_of(arena@),
                    *v == JsonValue::Object(*fs),
                    fv == fs@,
                    0 <= i <= fv.len(),
                    infer_fields_spec(g0, fv).0 == infer_fields_spec(arena@, fv.skip(i as int)).0,
                    infer_fields_spec(g0, fv).1 =~= fields_view(fields@) + infer_fields_spec(
                        arena@,
                        fv.skip(i as int),
                    ).1,
                    forall|k: int|
                        0 <= k < fields@.len() ==> (#[trigger] fields@[k]).1 < arena@.len(),
                decreases fv.len() - i,
            {
                let ghost gpre = arena@;
                assert(fv.skip(i as int)[0] == fv[i as int]);
                assert(fv.skip(i as int).drop_first() =~= fv.skip(i as int + 1));
                let key_pascal = pascal_case(fs[i].0.as_str());
                proof {
                    assert(*v == JsonValue::Object(*fs));
                    assert(decreases_to!(*v => (*v)->Object_0));
                    assert((*v)->Object_0 == *fs);
                    assert(decreases_to!(*fs => fs@));
                    assert(decreases_to!(fs@ => fs@[i as int]));
                    assert(decreases_to!(fs@[i as int] => fs@[i as int].1));
                }
                let h = infer_value(arena, &fs[i].1, Some(&key_pascal));
                proof {
                    crate::schema::lemma_prefix_trans(g0, gpre, arena@);
                }
                let ghost fields0 = fields_view(fields@);
                let name = fs[i].0.clone();
                fields.push((name, h));
                assert(fields_view(fields@) =~= fields0.push((fv[i as int].0@, h as int)));
                assert(forall|k: int|
                    0 <= k < fields@.len() ==> (#[trigger] fields@[k]).1 < arena@.len()) by {
                    assert(gpre.len() <= arena@.len());
                }
                i += 1;
            }
            assert(fv.skip(fv.len() as int) =~= Seq::<(String, JsonValue)>::empty());
            let ghost gf = infer_fields_spec(g0, fv);
            assert(gf.0 == arena@);
            assert(gf.1 =~= fields_view(fields@));
            let mut name_hints = NameHints::new();
            match hint {
                Some(hn) => {
                    name_hints.insert(hn.clone());
                    assert(name_hints@ =~= record_hints(hint_view(hint)));
                },
                None => {
                    assert(name_hints@ =~= record_hints(hint_view(hint)));
                },
            }
            let ghost gpre3 = arena@;
            let r = arena.insert(Type::Record(Record { name_hints, fields }));
            proof {
                crate::schema::lemma_prefix_trans(g0, gpre3, arena@);
            }
            r
        },
    }
}

/// What inferring a run of top-level samples does to an empty graph: each
/// sample inferred independently, all folded through the union builder.
pub open spec fn infer_samples_spec(samples: Seq<JsonValue>) -> (Seq<TypeView>, int) {
    let gl = infer_list_spec(Seq::empty(), samples, Option::None);
    union_spec(gl.0, gl.1)
}

/// Infer a schema from one or more raw samples describing the same logical
/// position. With no sample at all there is nothing to anchor a root, and
/// `Empty` is returned; otherwise the result is exactly
/// [`infer_samples_spec`] of the samples.
pub fn infer(samples: &Vec<JsonValue>) -> (r: Result<Schema, JSONSchemaError>)
    ensures
        r is Ok <==> samples@.len() > 0,
        r matches Err(e) ==> e is Empty,
        r matches Ok(s) ==> {
            &&& s.wf()
            &&& (s.arena@, s.root as int) == infer_samples_spec(samples@)
        },
{
    if samples.len() == 0 {
        return Err(JSONSchemaError::Empty);
    }
    let mut arena = TypeArena::new();
    let ghost g0 = arena@;
    let ghost vs = samples@;
    let mut hs: Vec<ArenaIndex> = Vec::new();
    assert(members_view(hs@) =~= Seq::<int>::empty());
    assert(vs.skip(0) =~= vs);
    let mut i: usize = 0;
    while i < samples.len()
        invariant
            graph_wf(arena@),
            vs == samples@,
            0 <= i <= vs.len(),
            infer_list_spec(g0, vs, Option::None).0 == infer_list_spec(
                arena@,
                vs.skip(i as int),
                Option::None,
            ).0,
            infer_list_spec(g0, vs, Option::None).1 =~= members_view(hs@) + infer_list_spec(
                arena@,
                vs.skip(i as int),
                Option::None,
            ).1,
            forall|k: int| 0 <= k < hs@.len() ==> (#[trigger] hs@[k]) < arena@.len(),
        decreases vs.len() - i,
    {
        let ghost gpre = arena@;
        assert(vs.skip(i as int)[0] == vs[i as int]);
        assert(vs.skip(i as int).drop_first() =~= vs.skip(i as int + 1));
        let h = infer_value(&mut arena, &samples[i], None);
        let ghost hs0 = members_view(hs@);
        hs.push(h);
        assert(members_view(hs@) =~= hs0.push(h as int));
        assert(forall|k: int| 0 <= k < hs@.len() ==> (#[trigger] hs@[k]) < arena@.len()) by {
            assert(gpre.len() <= arena@.len());
        }
        i += 1;
    }
    assert(vs.skip(vs.len() as int) =~= Seq::<JsonValue>::empty());
    let ghost gl = infer_list_spec(g0, vs, Option::None);
    assert(gl.0 == arena@);
    assert(gl.1 =~= members_view(hs@));
    let root = union_types(&mut arena, &hs);
    assert(g0 =~= Seq::<TypeView>::empty());
    Ok(Schema { arena, root })
}

} // verus!
