use std::collections::HashMap;

use borsh::schema::{BorshSchemaContainer, Definition, Fields};
use serialize_struct::normalize::get_schema;
use serialize_struct::schema::DataType;
use serialize_struct::text::{
    join_path_exec, str_eq_str, str_starts_with, u64_to_string, usize_to_string,
};
use serialize_struct::walker::TypeIterator;

fn container(declaration: &str, defs: Vec<(&str, Definition)>) -> BorshSchemaContainer {
    let mut definitions = HashMap::new();
    for (k, d) in defs {
        definitions.insert(k.to_string(), d);
    }
    BorshSchemaContainer {
        declaration: declaration.to_string(),
        definitions,
    }
}

fn named(fields: Vec<(&str, &str)>) -> Definition {
    Definition::Struct {
        fields: Fields::NamedFields(
            fields
                .into_iter()
                .map(|(n, d)| (n.to_string(), d.to_string()))
                .collect(),
        ),
    }
}

#[test]
fn walk_counts_every_node_of_an_inline_schema() {
    // Person { name: string, age: u32 }: root plus two leaves.
    let ctr = container(
        "Person",
        vec![("Person", named(vec![("name", "string"), ("age", "u32")]))],
    );
    let schema = get_schema(&ctr).unwrap();
    let mut it = TypeIterator::new(&schema);
    let mut count = 0;
    while let Some(_) = it.next() {
        count += 1;
    }
    assert_eq!(count, 3);
}

#[test]
fn walk_is_preorder_left_to_right() {
    let ctr = container(
        "Person",
        vec![("Person", named(vec![("name", "string"), ("age", "u32")]))],
    );
    let schema = get_schema(&ctr).unwrap();
    let mut it = TypeIterator::new(&schema);

    let (p0, n0) = it.next().unwrap();
    assert!(p0.is_none());
    assert_eq!(n0.datatype, DataType::Struct);

    let (p1, n1) = it.next().unwrap();
    assert_eq!(p1.unwrap().datatype, DataType::Struct);
    assert_eq!(n1.name, Some("name".to_string()));

    let (_, n2) = it.next().unwrap();
    assert_eq!(n2.name, Some("age".to_string()));

    assert!(it.next().is_none());
}

#[test]
fn walk_dereferences_terms_once() {
    // Person { name: string, thing: Vec<Other> }, Other { label: string }:
    // root, name, thing, the Other reference, and Other's label.
    let ctr = container(
        "Person",
        vec![
            ("Person", named(vec![("name", "string"), ("thing", "Vec<Other>")])),
            (
                "Vec<Other>",
                Definition::Sequence {
                    elements: "Other".to_string(),
                },
            ),
            ("Other", named(vec![("label", "string")])),
        ],
    );
    let schema = get_schema(&ctr).unwrap();
    let mut it = TypeIterator::new(&schema);
    let mut names = Vec::new();
    while let Some((_, node)) = it.next() {
        names.push(node.name.clone());
    }
    assert_eq!(
        names,
        vec![
            Some("Person".to_string()),
            Some("name".to_string()),
            Some("thing".to_string()),
            None,
            Some("label".to_string()),
        ]
    );
}

#[test]
fn walk_of_a_recursive_schema_terminates() {
    let ctr = container("Node", vec![("Node", named(vec![("next", "Node")]))]);
    let schema = get_schema(&ctr).unwrap();
    let mut it = TypeIterator::new(&schema);
    let mut count = 0;
    while let Some(_) = it.next() {
        count += 1;
        assert!(count < 100);
    }
    // The root, its reference field, and the canonical definition's
    // reference field — whose term has then been visited already.
    assert_eq!(count, 3);
}

#[test]
fn walks_are_independent_and_restartable() {
    let ctr = container(
        "Person",
        vec![("Person", named(vec![("name", "string"), ("age", "u32")]))],
    );
    let schema = get_schema(&ctr).unwrap();
    let mut it1 = TypeIterator::new(&schema);
    it1.next();
    let mut c1 = 0;
    let mut it2 = TypeIterator::new(&schema);
    while let Some(_) = it2.next() {
        c1 += 1;
    }
    assert_eq!(c1, 3);
    let mut c2 = 1;
    while let Some(_) = it1.next() {
        c2 += 1;
    }
    assert_eq!(c2, 3);
}

#[test]
fn string_helpers() {
    assert!(str_eq_str("abc", "abc"));
    assert!(!str_eq_str("abc", "abd"));
    assert!(!str_eq_str("abc", "ab"));
    assert!(str_starts_with("HashSet<u8>", "HashSet<"));
    assert!(!str_starts_with("HashMap<u8>", "HashSet<"));
    assert!(str_starts_with("x", ""));
    assert!(!str_starts_with("", "x"));
}

#[test]
fn decimal_rendering() {
    assert_eq!(u64_to_string(0), "0");
    assert_eq!(u64_to_string(7), "7");
    assert_eq!(u64_to_string(10), "10");
    assert_eq!(u64_to_string(1234567890), "1234567890");
    assert_eq!(u64_to_string(u64::MAX), "18446744073709551615");
    assert_eq!(usize_to_string(42), "42");
}

#[test]
fn path_joining() {
    let empty: Vec<String> = vec![];
    assert_eq!(join_path_exec(&empty), "");
    let one = vec!["a".to_string()];
    assert_eq!(join_path_exec(&one), "a");
    let three = vec!["a".to_string(), "bc".to_string(), "d".to_string()];
    assert_eq!(join_path_exec(&three), "a/bc/d");
}
