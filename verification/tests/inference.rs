use typegraph::{
    infer_from_json, infer_from_json_schema, infer_mult_from_json_schema, InferrerClosure,
    JSONSchemaError, JSONSchemaMap, JsonValue, SchemaDoc, SchemaNode, SchemaProperty, Type,
};

fn s(x: &str) -> String {
    x.to_string()
}

#[test]
fn canonical_primitives_two_int_samples() {
    let schema = infer_from_json(&vec![JsonValue::Int(1), JsonValue::Int(2)]).unwrap();
    // Both samples share the single canonical Int node.
    assert_eq!(schema.arena.len(), 1);
    assert!(matches!(schema.arena.resolve(schema.root), Type::Int));
}

#[test]
fn empty_input_is_rejected() {
    let r = infer_from_json(&vec![]);
    assert!(matches!(r, Err(JSONSchemaError::Empty)));
}

#[test]
fn union_minimality_two_members_not_three() {
    let sample = JsonValue::Array(vec![JsonValue::Int(1), JsonValue::Str(s("a")), JsonValue::Int(2)]);
    let schema = infer_from_json(&vec![sample]).unwrap();
    let elem = match schema.arena.resolve(schema.root) {
        Type::Array(e) => *e,
        t => panic!("expected array, got {:?}", t),
    };
    match schema.arena.resolve(elem) {
        Type::Union(ms) => {
            assert_eq!(ms.len(), 2);
            assert!(matches!(schema.arena.resolve(ms[0]), Type::Int));
            assert!(matches!(schema.arena.resolve(ms[1]), Type::Str));
        }
        t => panic!("expected union, got {:?}", t),
    }
}

#[test]
fn single_shape_yields_plain_primitive_not_union() {
    let sample = JsonValue::Array(vec![JsonValue::Int(1), JsonValue::Int(2), JsonValue::Int(3)]);
    let schema = infer_from_json(&vec![sample]).unwrap();
    let elem = match schema.arena.resolve(schema.root) {
        Type::Array(e) => *e,
        t => panic!("expected array, got {:?}", t),
    };
    assert!(matches!(schema.arena.resolve(elem), Type::Int));
}

#[test]
fn empty_array_element_is_any() {
    let schema = infer_from_json(&vec![JsonValue::Array(vec![])]).unwrap();
    let elem = match schema.arena.resolve(schema.root) {
        Type::Array(e) => *e,
        t => panic!("expected array, got {:?}", t),
    };
    assert!(matches!(schema.arena.resolve(elem), Type::Any));
}

#[test]
fn float_and_int_samples_make_a_union() {
    let sample = JsonValue::Array(vec![JsonValue::Int(1), JsonValue::Float]);
    let schema = infer_from_json(&vec![sample]).unwrap();
    let elem = match schema.arena.resolve(schema.root) {
        Type::Array(e) => *e,
        t => panic!("expected array, got {:?}", t),
    };
    match schema.arena.resolve(elem) {
        Type::Union(ms) => {
            assert_eq!(ms.len(), 2);
            assert!(matches!(schema.arena.resolve(ms[0]), Type::Int));
            assert!(matches!(schema.arena.resolve(ms[1]), Type::Float));
        }
        t => panic!("expected union, got {:?}", t),
    }
}

#[test]
fn object_sample_keeps_key_order_and_pascal_hints() {
    let sample = JsonValue::Object(vec![
        (s("user_name"), JsonValue::Object(vec![(s("id"), JsonValue::Int(7))])),
        (s("flag"), JsonValue::Bool(true)),
    ]);
    let schema = infer_from_json(&vec![sample]).unwrap();
    let fields = match schema.arena.resolve(schema.root) {
        Type::Record(r) => &r.fields,
        t => panic!("expected record, got {:?}", t),
    };
    assert_eq!(fields.len(), 2);
    assert_eq!(fields[0].0, s("user_name"));
    assert_eq!(fields[1].0, s("flag"));
    // The nested record is hinted with the pascal-cased enclosing key.
    match schema.arena.resolve(fields[0].1) {
        Type::Record(inner) => {
            assert!(inner.name_hints.names.contains(&s("UserName")));
        }
        t => panic!("expected record, got {:?}", t),
    }
    assert!(matches!(schema.arena.resolve(fields[1].1), Type::Bool));
}

#[test]
fn schema_doc_without_body_is_empty_error() {
    let doc = SchemaDoc { body: None };
    let r = infer_from_json_schema(&doc, Some(s("Root")));
    assert!(matches!(r, Err(JSONSchemaError::Empty)));
}

#[test]
fn schema_object_gets_type_suffixed_hint() {
    let doc = SchemaDoc {
        body: Some(SchemaNode::Object(vec![(
            s("age"),
            SchemaProperty::Value(SchemaNode::Integer),
        )])),
    };
    let schema = infer_from_json_schema(&doc, Some(s("Person"))).unwrap();
    match schema.arena.resolve(schema.root) {
        Type::Record(r) => {
            assert!(r.name_hints.names.contains(&s("PersonType")));
            assert_eq!(r.fields.len(), 1);
            assert_eq!(r.fields[0].0, s("age"));
            assert!(matches!(schema.arena.resolve(r.fields[0].1), Type::Int));
        }
        t => panic!("expected record, got {:?}", t),
    }
}

#[test]
fn empty_schema_node_maps_to_any() {
    let doc = SchemaDoc {
        body: Some(SchemaNode::Object(vec![(
            s("anything"),
            SchemaProperty::Value(SchemaNode::Empty),
        )])),
    };
    let schema = infer_from_json_schema(&doc, None).unwrap();
    match schema.arena.resolve(schema.root) {
        Type::Record(r) => {
            assert!(matches!(schema.arena.resolve(r.fields[0].1), Type::Any));
        }
        t => panic!("expected record, got {:?}", t),
    }
}

#[test]
fn reference_to_sibling_property_resolves() {
    let doc = SchemaDoc {
        body: Some(SchemaNode::Object(vec![
            (s("a"), SchemaProperty::Value(SchemaNode::Str)),
            (
                s("b"),
                SchemaProperty::Ref(vec![s("properties"), s("a")]),
            ),
        ])),
    };
    let schema = infer_from_json_schema(&doc, Some(s("Root"))).unwrap();
    match schema.arena.resolve(schema.root) {
        Type::Record(r) => {
            assert_eq!(r.fields.len(), 2);
            // Both properties share the one canonical Str node.
            assert_eq!(r.fields[0].1, r.fields[1].1);
            assert!(matches!(schema.arena.resolve(r.fields[0].1), Type::Str));
        }
        t => panic!("expected record, got {:?}", t),
    }
}

#[test]
fn dangling_reference_is_an_error() {
    let doc = SchemaDoc {
        body: Some(SchemaNode::Object(vec![(
            s("b"),
            SchemaProperty::Ref(vec![s("properties"), s("missing")]),
        )])),
    };
    let r = infer_from_json_schema(&doc, None);
    assert!(matches!(r, Err(JSONSchemaError::DanglingReference)));
}

#[test]
fn cyclic_reference_chain_terminates_as_dangling() {
    // A property that refers to itself through its own reference entry:
    // resolution gives up instead of recursing forever.
    let doc = SchemaDoc {
        body: Some(SchemaNode::Object(vec![(
            s("a"),
            SchemaProperty::Ref(vec![s("properties"), s("a")]),
        )])),
    };
    let r = infer_from_json_schema(&doc, None);
    assert!(matches!(r, Err(JSONSchemaError::DanglingReference)));
}

#[test]
fn schema_set_skips_empty_entries() {
    let map = JSONSchemaMap(vec![
        (
            s("Foo"),
            s(r#"{"type":"object","properties":{"name":{"type":"string"}}}"#),
        ),
        (s("Bar"), s(r#"{"$id":"urn:empty"}"#)),
    ]);
    let schema = infer_mult_from_json_schema(&map, None).unwrap();
    match schema.arena.resolve(schema.root) {
        Type::Record(r) => {
            // Foo was inferred; Bar's empty schema was skipped, not fatal.
            assert_eq!(r.fields.len(), 1);
            assert_eq!(r.fields[0].0, s("Foo"));
            match schema.arena.resolve(r.fields[0].1) {
                Type::Record(foo) => {
                    assert!(foo.name_hints.names.contains(&s("FooType")));
                    assert_eq!(foo.fields.len(), 1);
                    assert_eq!(foo.fields[0].0, s("name"));
                    assert!(matches!(schema.arena.resolve(foo.fields[0].1), Type::Str));
                }
                t => panic!("expected record, got {:?}", t),
            }
        }
        t => panic!("expected record, got {:?}", t),
    }
}

#[test]
fn schema_set_bad_text_is_parse_error() {
    let map = JSONSchemaMap(vec![(s("Broken"), s("not json at all"))]);
    let r = infer_mult_from_json_schema(&map, None);
    assert!(matches!(r, Err(JSONSchemaError::ParseError)));
}

#[test]
fn schema_set_root_is_hinted_with_outer_name() {
    let map = JSONSchemaMap(vec![(
        s("Foo"),
        s(r#"{"type":"object","properties":{"n":{"type":"integer"}}}"#),
    )]);
    let schema = infer_mult_from_json_schema(&map, Some(s("Everything"))).unwrap();
    match schema.arena.resolve(schema.root) {
        Type::Record(r) => {
            assert!(r.name_hints.names.contains(&s("Everything")));
        }
        t => panic!("expected record, got {:?}", t),
    }
}

#[test]
fn closure_insert_and_collect_build_synthetic_root() {
    let mut closure = InferrerClosure::new();
    let doc_a = SchemaDoc { body: Some(SchemaNode::Str) };
    let doc_b = SchemaDoc { body: None };
    closure.insert(&doc_a, &s("A")).unwrap();
    closure.insert(&doc_b, &s("B")).unwrap();
    let schema = closure.collect(None).unwrap();
    match schema.arena.resolve(schema.root) {
        Type::Record(r) => {
            assert_eq!(r.fields.len(), 1);
            assert_eq!(r.fields[0].0, s("A"));
            assert!(matches!(schema.arena.resolve(r.fields[0].1), Type::Str));
        }
        t => panic!("expected record, got {:?}", t),
    }
}

#[test]
fn mixed_samples_at_top_level_union() {
    let schema =
        infer_from_json(&vec![JsonValue::Int(1), JsonValue::Str(s("x")), JsonValue::Null]).unwrap();
    match schema.arena.resolve(schema.root) {
        Type::Union(ms) => {
            assert_eq!(ms.len(), 3);
        }
        t => panic!("expected union, got {:?}", t),
    }
}

#[test]
fn primitive_handles_are_canonical_in_the_arena() {
    let mut arena = typegraph::TypeArena::new();
    let a = arena.get_index_of_primitive(Type::Int);
    let b = arena.get_index_of_primitive(Type::Int);
    let c = arena.get_index_of_primitive(Type::Str);
    assert_eq!(a, b);
    assert_ne!(a, c);
    assert_eq!(arena.len(), 2);
}

#[test]
fn name_hints_do_not_duplicate() {
    let mut nh = typegraph::NameHints::new();
    nh.insert(s("A"));
    nh.insert(s("B"));
    nh.insert(s("A"));
    assert_eq!(nh.names, vec![s("A"), s("B")]);
}
