use std::collections::HashMap;

use borsh::schema::{BorshSchemaContainer, Definition, Fields};
use serialize_struct::normalize::{get_schema, get_type, SchemaError};
use serialize_struct::schema::{DataType, TermMap, Type, TypeSchema};

fn container(declaration: &str, defs: Vec<(&str, Definition)>) -> BorshSchemaContainer {
    let mut definitions = HashMap::new();
    for (k, d) in defs {
        definitions.insert(k.to_string(), d);
    }
    BorshSchemaContainer {
        declaration: declaration.to_string(),
        definitions,
    }
}

fn named(fields: Vec<(&str, &str)>) -> Definition {
    Definition::Struct {
        fields: Fields::NamedFields(
            fields
                .into_iter()
                .map(|(n, d)| (n.to_string(), d.to_string()))
                .collect(),
        ),
    }
}

fn fresh_schema() -> TypeSchema {
    TypeSchema {
        schema: Type::default(),
        terms: TermMap::new(),
    }
}

fn normalize_one(decl: &str) -> Result<Type, SchemaError> {
    let ctr = container("x", vec![]);
    let mut ts = fresh_schema();
    get_type(&ctr, None, &decl.to_string(), &mut ts, false)
}

#[test]
fn unsigned_int_widths() {
    for (decl, bytes) in [("u8", 1u32), ("u16", 2), ("u32", 4), ("u64", 8), ("u128", 16)] {
        let t = normalize_one(decl).unwrap();
        assert_eq!(t.datatype, DataType::Int);
        assert_eq!(t.signed, Some(false));
        assert_eq!(t.length, Some(bytes));
        assert_eq!(t.fields, None);
        assert_eq!(t.term, None);
    }
}

#[test]
fn signed_int_widths() {
    for (decl, bytes) in [("i8", 1u32), ("i16", 2), ("i32", 4), ("i64", 8), ("i128", 16)] {
        let t = normalize_one(decl).unwrap();
        assert_eq!(t.datatype, DataType::Int);
        assert_eq!(t.signed, Some(true));
        assert_eq!(t.length, Some(bytes));
    }
}

#[test]
fn float_widths() {
    for (decl, bytes) in [("f32", 4u32), ("f64", 8)] {
        let t = normalize_one(decl).unwrap();
        assert_eq!(t.datatype, DataType::Float);
        assert_eq!(t.signed, None);
        assert_eq!(t.length, Some(bytes));
    }
}

#[test]
fn invalid_widths_fail() {
    for decl in ["u7", "u24", "u0", "i12", "i256", "f8", "f16", "f128", "u999999999999"] {
        assert_eq!(normalize_one(decl), Err(SchemaError::InvalidNumericWidth));
    }
}

#[test]
fn bool_string_and_undefined() {
    let b = normalize_one("bool").unwrap();
    assert_eq!(b.datatype, DataType::Bool);
    let s = normalize_one("string").unwrap();
    assert_eq!(s.datatype, DataType::String);
    let u = normalize_one("whatever").unwrap();
    assert_eq!(u.datatype, DataType::Undefined);
    assert_eq!(u, Type::default());
    // A bare prefix with no digits is not a numeric declaration.
    assert_eq!(normalize_one("u").unwrap().datatype, DataType::Undefined);
    assert_eq!(normalize_one("f").unwrap().datatype, DataType::Undefined);
}

#[test]
fn term_map_insert_get_replace() {
    let mut m = TermMap::new();
    assert_eq!(m.len(), 0);
    assert!(m.get(&"A".to_string()).is_none());
    m.insert("A".to_string(), Type::default());
    assert_eq!(m.len(), 1);
    assert!(m.contains_key(&"A".to_string()));
    let mut named = Type::default();
    named.name = Some("x".to_string());
    m.insert("A".to_string(), named.clone());
    assert_eq!(m.len(), 1);
    assert_eq!(m.get(&"A".to_string()), Some(&named));
    m.insert("B".to_string(), Type::default());
    assert_eq!(m.len(), 2);
    assert!(!m.contains_key(&"C".to_string()));
}

#[test]
fn field_name_carries_over() {
    let ctr = container("x", vec![]);
    let mut ts = fresh_schema();
    let name = "age".to_string();
    let t = get_type(&ctr, Some(&name), &"u32".to_string(), &mut ts, false).unwrap();
    assert_eq!(t.name, Some("age".to_string()));
}

#[test]
fn self_referential_struct_terminates_with_one_entry() {
    let ctr = container("Node", vec![("Node", named(vec![("next", "Node")]))]);
    let schema = get_schema(&ctr).unwrap();
    assert_eq!(schema.schema.datatype, DataType::Struct);
    assert_eq!(schema.schema.term, Some("Node".to_string()));
    assert_eq!(schema.terms.len(), 1);
    let canonical = schema.terms.get(&"Node".to_string()).unwrap();
    assert_eq!(canonical.datatype, DataType::Struct);
    let children = canonical.fields.as_ref().unwrap();
    assert_eq!(children.len(), 1);
    // The recursive occurrence is a reference node, never an expansion.
    assert_eq!(children[0].term, Some("Node".to_string()));
    assert_eq!(children[0].fields, None);
}

#[test]
fn self_referential_through_vec_terminates() {
    let ctr = container(
        "Tree",
        vec![
            ("Tree", named(vec![("children", "Vec<Tree>")])),
            (
                "Vec<Tree>",
                Definition::Sequence {
                    elements: "Tree".to_string(),
                },
            ),
        ],
    );
    let schema = get_schema(&ctr).unwrap();
    assert_eq!(schema.terms.len(), 1);
    let canonical = schema.terms.get(&"Tree".to_string()).unwrap();
    let children = canonical.fields.as_ref().unwrap();
    assert_eq!(children[0].datatype, DataType::Vec);
    let inner = children[0].fields.as_ref().unwrap();
    assert_eq!(inner[0].term, Some("Tree".to_string()));
    assert_eq!(inner[0].fields, None);
}

#[test]
fn sibling_references_share_one_expansion() {
    let ctr = container(
        "Pair",
        vec![
            ("Pair", named(vec![("a", "Item"), ("b", "Item")])),
            ("Item", named(vec![("x", "string")])),
        ],
    );
    let schema = get_schema(&ctr).unwrap();
    let fields = schema.schema.fields.as_ref().unwrap();
    assert_eq!(fields.len(), 2);
    assert_eq!(fields[0].term, Some("Item".to_string()));
    assert_eq!(fields[1].term, Some("Item".to_string()));
    assert_eq!(fields[0].fields, None);
    assert_eq!(fields[1].fields, None);
    assert_eq!(schema.terms.len(), 1);
    let canonical = schema.terms.get(&"Item".to_string()).unwrap();
    assert_eq!(canonical.fields.as_ref().unwrap().len(), 1);
}

#[test]
fn normalization_is_idempotent() {
    let ctr = container(
        "Person",
        vec![
            (
                "Person",
                named(vec![("name", "string"), ("age", "u32"), ("zoom", "Other")]),
            ),
            ("Other", named(vec![("label", "string"), ("cool", "bool")])),
        ],
    );
    let s1 = get_schema(&ctr).unwrap();
    let s2 = get_schema(&ctr).unwrap();
    assert_eq!(s1, s2);
}

#[test]
fn zero_field_struct_has_empty_children() {
    let ctr = container("Unit", vec![("Unit", named(vec![]))]);
    let schema = get_schema(&ctr).unwrap();
    assert_eq!(schema.schema.datatype, DataType::Struct);
    assert_eq!(schema.schema.term, Some("Unit".to_string()));
    assert_eq!(schema.schema.fields, Some(vec![]));
}

#[test]
fn empty_fields_definition_is_a_variant() {
    let ctr = container(
        "x",
        vec![(
            "Marker",
            Definition::Struct {
                fields: Fields::Empty,
            },
        )],
    );
    let mut ts = fresh_schema();
    let t = get_type(&ctr, None, &"Marker".to_string(), &mut ts, false).unwrap();
    assert_eq!(t.datatype, DataType::Variant);
    assert_eq!(t.fields, None);
    assert_eq!(t.term, None);
}

#[test]
fn positional_fields_expand_inline() {
    let ctr = container(
        "x",
        vec![(
            "Payload",
            Definition::Struct {
                fields: Fields::UnnamedFields(vec!["u8".to_string(), "string".to_string()]),
            },
        )],
    );
    let mut ts = fresh_schema();
    let t = get_type(&ctr, None, &"Payload".to_string(), &mut ts, false).unwrap();
    assert_eq!(t.datatype, DataType::Variant);
    assert_eq!(t.length, Some(2));
    let fields = t.fields.as_ref().unwrap();
    assert_eq!(fields[0].datatype, DataType::Int);
    assert_eq!(fields[1].datatype, DataType::String);
    // Positional structs are never stored in the term table.
    assert_eq!(ts.terms.len(), 0);
}

#[test]
fn enum_is_shared_through_the_table() {
    let ctr = container(
        "x",
        vec![
            (
                "Something",
                Definition::Enum {
                    variants: vec![
                        ("A".to_string(), "SomethingA".to_string()),
                        ("B".to_string(), "SomethingB".to_string()),
                    ],
                },
            ),
            (
                "SomethingA",
                Definition::Struct {
                    fields: Fields::Empty,
                },
            ),
            (
                "SomethingB",
                Definition::Struct {
                    fields: Fields::Empty,
                },
            ),
        ],
    );
    let mut ts = fresh_schema();
    let t = get_type(&ctr, None, &"Something".to_string(), &mut ts, false).unwrap();
    assert_eq!(t.datatype, DataType::Enum);
    assert_eq!(t.term, Some("Something".to_string()));
    assert_eq!(t.fields, None);
    assert_eq!(ts.terms.len(), 1);
    let canonical = ts.terms.get(&"Something".to_string()).unwrap();
    assert_eq!(canonical.datatype, DataType::Enum);
    assert_eq!(canonical.length, Some(2));
    let variants = canonical.fields.as_ref().unwrap();
    assert_eq!(variants[0].name, Some("A".to_string()));
    assert_eq!(variants[0].datatype, DataType::Variant);
}

#[test]
fn parametric_forms() {
    let ctr = container(
        "x",
        vec![
            (
                "Vec<u8>",
                Definition::Sequence {
                    elements: "u8".to_string(),
                },
            ),
            (
                "Array<u8, 4>",
                Definition::Array {
                    length: 4,
                    elements: "u8".to_string(),
                },
            ),
            (
                "Tuple<u8, string>",
                Definition::Tuple {
                    elements: vec!["u8".to_string(), "string".to_string()],
                },
            ),
            (
                "Option<u8>",
                Definition::Enum {
                    variants: vec![
                        ("None".to_string(), "nil".to_string()),
                        ("Some".to_string(), "u8".to_string()),
                    ],
                },
            ),
            (
                "Result<u8, string>",
                Definition::Enum {
                    variants: vec![
                        ("Ok".to_string(), "u8".to_string()),
                        ("Err".to_string(), "string".to_string()),
                    ],
                },
            ),
            (
                "HashSet<u8>",
                Definition::Sequence {
                    elements: "u8".to_string(),
                },
            ),
            (
                "HashMap<u8, string>",
                Definition::Sequence {
                    elements: "Tuple<u8, string>".to_string(),
                },
            ),
        ],
    );
    let mut ts = fresh_schema();

    let v = get_type(&ctr, None, &"Vec<u8>".to_string(), &mut ts, false).unwrap();
    assert_eq!(v.datatype, DataType::Vec);
    assert_eq!(v.fields.as_ref().unwrap()[0].datatype, DataType::Int);

    let a = get_type(&ctr, None, &"Array<u8, 4>".to_string(), &mut ts, false).unwrap();
    assert_eq!(a.datatype, DataType::Array);
    assert_eq!(a.length, Some(4));

    let t = get_type(&ctr, None, &"Tuple<u8, string>".to_string(), &mut ts, false).unwrap();
    assert_eq!(t.datatype, DataType::Tuple);
    assert_eq!(t.length, Some(2));
    assert_eq!(t.fields.as_ref().unwrap().len(), 2);

    let o = get_type(&ctr, None, &"Option<u8>".to_string(), &mut ts, false).unwrap();
    assert_eq!(o.datatype, DataType::Option);
    // Only the value type is modelled.
    assert_eq!(o.fields.as_ref().unwrap().len(), 1);
    assert_eq!(o.fields.as_ref().unwrap()[0].datatype, DataType::Int);

    let r = get_type(&ctr, None, &"Result<u8, string>".to_string(), &mut ts, false).unwrap();
    assert_eq!(r.datatype, DataType::Result);
    let rf = r.fields.as_ref().unwrap();
    assert_eq!(rf.len(), 2);
    assert_eq!(rf[0].datatype, DataType::Int);
    assert_eq!(rf[1].datatype, DataType::String);

    let hs = get_type(&ctr, None, &"HashSet<u8>".to_string(), &mut ts, false).unwrap();
    assert_eq!(hs.datatype, DataType::HashSet);

    let hm = get_type(&ctr, None, &"HashMap<u8, string>".to_string(), &mut ts, false).unwrap();
    assert_eq!(hm.datatype, DataType::HashMap);
    assert_eq!(hm.fields.as_ref().unwrap()[0].datatype, DataType::Tuple);
}

#[test]
fn mismatched_parametric_definition_is_inconsistent() {
    // Declared as a sequence, defined as a tuple.
    let ctr = container(
        "x",
        vec![(
            "Vec<u8>",
            Definition::Tuple {
                elements: vec!["u8".to_string()],
            },
        )],
    );
    let mut ts = fresh_schema();
    let r = get_type(&ctr, None, &"Vec<u8>".to_string(), &mut ts, false);
    assert_eq!(r, Err(SchemaError::SchemaInconsistency));
}

#[test]
fn missing_parametric_definition_is_inconsistent() {
    let ctr = container("x", vec![]);
    let mut ts = fresh_schema();
    let r = get_type(&ctr, None, &"Tuple<u8, u8>".to_string(), &mut ts, false);
    assert_eq!(r, Err(SchemaError::SchemaInconsistency));
    let r2 = get_type(&ctr, None, &"Option<u8>".to_string(), &mut ts, false);
    assert_eq!(r2, Err(SchemaError::SchemaInconsistency));
}

#[test]
fn cyclic_parametric_definitions_are_inconsistent() {
    // A sequence whose element declaration is itself: no term table entry
    // ever guards it, so normalization reports the cycle instead of
    // descending forever.
    let ctr = container(
        "x",
        vec![(
            "Vec<A>",
            Definition::Sequence {
                elements: "Vec<A>".to_string(),
            },
        )],
    );
    let mut ts = fresh_schema();
    let r = get_type(&ctr, None, &"Vec<A>".to_string(), &mut ts, false);
    assert_eq!(r, Err(SchemaError::SchemaInconsistency));
}

#[test]
fn root_struct_expands_inline_and_keeps_term() {
    let ctr = container(
        "Person",
        vec![("Person", named(vec![("name", "string"), ("age", "u32")]))],
    );
    let schema = get_schema(&ctr).unwrap();
    assert_eq!(schema.schema.datatype, DataType::Struct);
    assert_eq!(schema.schema.name, Some("Person".to_string()));
    assert_eq!(schema.schema.term, Some("Person".to_string()));
    let fields = schema.schema.fields.as_ref().unwrap();
    assert_eq!(fields.len(), 2);
    assert_eq!(fields[0].name, Some("name".to_string()));
    assert_eq!(fields[0].datatype, DataType::String);
    assert_eq!(fields[1].name, Some("age".to_string()));
    assert_eq!(fields[1].datatype, DataType::Int);
    // The root is expanded inline, never stored.
    assert_eq!(schema.terms.len(), 0);
}

#[test]
fn term_table_entries_are_enumerable() {
    let ctr = container(
        "Pair",
        vec![
            ("Pair", named(vec![("a", "Item"), ("b", "Other")])),
            ("Item", named(vec![("x", "string")])),
            ("Other", named(vec![("y", "u8")])),
        ],
    );
    let schema = get_schema(&ctr).unwrap();
    let mut keys: Vec<String> = schema
        .terms
        .to_entries()
        .into_iter()
        .map(|(k, _)| k)
        .collect();
    keys.sort();
    assert_eq!(keys, vec!["Item".to_string(), "Other".to_string()]);
}
