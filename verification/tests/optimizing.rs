use typegraph::{
    infer_from_json, ArenaIndex, JsonValue, NameHints, Optimizer, Record, Schema, Type, TypeArena,
};

fn s(x: &str) -> String {
    x.to_string()
}

fn obj(fields: Vec<(&str, JsonValue)>) -> JsonValue {
    JsonValue::Object(fields.into_iter().map(|(k, v)| (k.to_string(), v)).collect())
}

/// A comparable dump of a whole schema: every node and the root.
fn dump(schema: &Schema) -> Vec<String> {
    let mut out = Vec::new();
    let mut i: ArenaIndex = 0;
    while i < schema.arena.len() {
        out.push(format!("{:?}", schema.arena.resolve(i)));
        i += 1;
    }
    out.push(format!("root={}", schema.root));
    out
}

fn record(hints: Vec<&str>, fields: Vec<(&str, ArenaIndex)>) -> Type {
    let mut nh = NameHints::new();
    for h in hints {
        nh.insert(h.to_string());
    }
    Type::Record(Record {
        name_hints: nh,
        fields: fields.into_iter().map(|(k, v)| (k.to_string(), v)).collect(),
    })
}

#[test]
fn merge_similar_collapses_equal_records() {
    // One sample whose two keys hold identically shaped objects: the
    // inferrer builds two distinct record nodes.
    let sample = obj(vec![
        ("x", obj(vec![("a", JsonValue::Int(1)), ("b", JsonValue::Str(s("p")))])),
        ("y", obj(vec![("a", JsonValue::Int(2)), ("b", JsonValue::Str(s("q")))])),
    ]);
    let mut schema = infer_from_json(&vec![sample]).unwrap();
    let (x0, y0) = match schema.arena.resolve(schema.root) {
        Type::Record(r) => (r.fields[0].1, r.fields[1].1),
        t => panic!("expected record, got {:?}", t),
    };
    assert_ne!(x0, y0);
    Optimizer {
        to_merge_similar_datatypes: true,
        to_merge_name_datatypes: false,
        to_merge_same_unions: false,
    }
    .optimize(&mut schema);
    match schema.arena.resolve(schema.root) {
        Type::Record(r) => {
            // Every reference that pointed at either record now points at
            // the one survivor: the first of the two.
            assert_eq!(r.fields[0].1, r.fields[1].1);
            assert_eq!(r.fields[0].1, x0.min(y0));
        }
        t => panic!("expected record, got {:?}", t),
    }
}

#[test]
fn merge_similar_is_idempotent() {
    let sample = obj(vec![
        ("x", obj(vec![("a", JsonValue::Int(1))])),
        ("y", obj(vec![("a", JsonValue::Int(2))])),
        ("z", JsonValue::Array(vec![obj(vec![("a", JsonValue::Int(3))])])),
    ]);
    let mut schema = infer_from_json(&vec![sample]).unwrap();
    let cfg = Optimizer {
        to_merge_similar_datatypes: true,
        to_merge_name_datatypes: false,
        to_merge_same_unions: false,
    };
    cfg.optimize(&mut schema);
    let once = dump(&schema);
    cfg.optimize(&mut schema);
    assert_eq!(once, dump(&schema));
}

#[test]
fn merge_same_unions_collapses_equal_member_sets() {
    // Two array positions whose unions hold {Int, Str} in different order:
    // member sets compare as sets, so the unions merge.
    let sample = obj(vec![
        ("u", JsonValue::Array(vec![JsonValue::Int(1), JsonValue::Str(s("a"))])),
        ("v", JsonValue::Array(vec![JsonValue::Str(s("b")), JsonValue::Int(2)])),
    ]);
    let mut schema = infer_from_json(&vec![sample]).unwrap();
    let (u_elem0, v_elem0) = {
        let (u, v) = match schema.arena.resolve(schema.root) {
            Type::Record(r) => (r.fields[0].1, r.fields[1].1),
            t => panic!("expected record, got {:?}", t),
        };
        let ue = match schema.arena.resolve(u) {
            Type::Array(e) => *e,
            t => panic!("expected array, got {:?}", t),
        };
        let ve = match schema.arena.resolve(v) {
            Type::Array(e) => *e,
            t => panic!("expected array, got {:?}", t),
        };
        (ue, ve)
    };
    assert_ne!(u_elem0, v_elem0);
    let cfg = Optimizer {
        to_merge_similar_datatypes: false,
        to_merge_name_datatypes: false,
        to_merge_same_unions: true,
    };
    cfg.optimize(&mut schema);
    let (u, v) = match schema.arena.resolve(schema.root) {
        Type::Record(r) => (r.fields[0].1, r.fields[1].1),
        t => panic!("expected record, got {:?}", t),
    };
    let ue = match schema.arena.resolve(u) {
        Type::Array(e) => *e,
        t => panic!("expected array, got {:?}", t),
    };
    let ve = match schema.arena.resolve(v) {
        Type::Array(e) => *e,
        t => panic!("expected array, got {:?}", t),
    };
    assert_eq!(ue, ve);
    // And running the pass again changes nothing.
    let once = dump(&schema);
    cfg.optimize(&mut schema);
    assert_eq!(once, dump(&schema));
}

#[test]
fn merge_name_redirects_and_unites_hints() {
    // Two differently shaped records that share the hint "Addr": the later
    // one is absorbed into the earlier, which unites their hint sets.
    let mut arena = TypeArena::new();
    let int_h = arena.get_index_of_primitive(Type::Int);
    let str_h = arena.get_index_of_primitive(Type::Str);
    let r1 = arena.insert(record(vec!["Addr"], vec![("a", int_h)]));
    let r2 = arena.insert(record(vec!["Addr", "Place"], vec![("b", str_h)]));
    let root = arena.insert(record(vec![], vec![("p", r1), ("q", r2)]));
    let mut schema = Schema { arena, root };
    let cfg = Optimizer {
        to_merge_similar_datatypes: false,
        to_merge_name_datatypes: true,
        to_merge_same_unions: false,
    };
    cfg.optimize(&mut schema);
    match schema.arena.resolve(schema.root) {
        Type::Record(r) => {
            assert_eq!(r.fields[0].1, r1);
            assert_eq!(r.fields[1].1, r1);
        }
        t => panic!("expected record, got {:?}", t),
    }
    match schema.arena.resolve(r1) {
        Type::Record(rep) => {
            // The representative keeps its own fields but gains the
            // absorbed record's hints.
            assert_eq!(rep.fields.len(), 1);
            assert_eq!(rep.fields[0].0, s("a"));
            assert!(rep.name_hints.names.contains(&s("Addr")));
            assert!(rep.name_hints.names.contains(&s("Place")));
        }
        t => panic!("expected record, got {:?}", t),
    }
    let once = dump(&schema);
    cfg.optimize(&mut schema);
    assert_eq!(once, dump(&schema));
}

#[test]
fn self_referential_record_survives_equality_and_merging() {
    // A record whose field points back at itself: the cycle-safe equality
    // and the merge passes terminate and still collapse the two copies.
    let mut arena = TypeArena::new();
    let a = arena.insert(record(vec!["Node"], vec![("next", 0)]));
    let b = arena.insert(record(vec!["Node"], vec![("next", 1)]));
    assert_eq!((a, b), (0, 1));
    let root = arena.insert(record(vec![], vec![("head", a), ("tail", b)]));
    let mut schema = Schema { arena, root };
    let cfg = Optimizer {
        to_merge_similar_datatypes: true,
        to_merge_name_datatypes: false,
        to_merge_same_unions: false,
    };
    cfg.optimize(&mut schema);
    match schema.arena.resolve(schema.root) {
        Type::Record(r) => {
            assert_eq!(r.fields[0].1, a);
            assert_eq!(r.fields[1].1, a);
        }
        t => panic!("expected record, got {:?}", t),
    }
    let once = dump(&schema);
    cfg.optimize(&mut schema);
    assert_eq!(once, dump(&schema));
}

#[test]
fn no_op_configuration_changes_nothing() {
    let sample = obj(vec![("a", JsonValue::Int(1))]);
    let mut schema = infer_from_json(&vec![sample]).unwrap();
    let before = dump(&schema);
    Optimizer {
        to_merge_similar_datatypes: false,
        to_merge_name_datatypes: false,
        to_merge_same_unions: false,
    }
    .optimize(&mut schema);
    assert_eq!(before, dump(&schema));
}

#[test]
fn root_handle_redirects_to_its_representative() {
    // The root itself is a record equal to an earlier one: the root handle
    // is redirected but still resolves.
    let mut arena = TypeArena::new();
    let int_h = arena.get_index_of_primitive(Type::Int);
    let first = arena.insert(record(vec![], vec![("n", int_h)]));
    let second = arena.insert(record(vec![], vec![("n", int_h)]));
    let mut schema = Schema { arena, root: second };
    Optimizer {
        to_merge_similar_datatypes: true,
        to_merge_name_datatypes: false,
        to_merge_same_unions: false,
    }
    .optimize(&mut schema);
    assert_eq!(schema.root, first);
    assert!(matches!(schema.arena.resolve(schema.root), Type::Record(_)));
}
