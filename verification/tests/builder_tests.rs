use std::collections::HashMap;

use borsh::schema::{BorshSchemaContainer, Definition, Fields};
use serialize_struct::normalize::get_schema;
use serialize_struct::schema::{DataType, Type};
use serialize_struct::serialize::{
    build_rdf_instance, BuildError, Builder, Statement, StatementObject, TokenMode,
};

const BASE: &str = "https://data.atellix.net";
const RDF_TYPE: &str = "http://www.w3.org/1999/02/22-rdf-syntax-ns#type";

fn container(declaration: &str, defs: Vec<(&str, Definition)>) -> BorshSchemaContainer {
    let mut definitions = HashMap::new();
    for (k, d) in defs {
        definitions.insert(k.to_string(), d);
    }
    BorshSchemaContainer {
        declaration: declaration.to_string(),
        definitions,
    }
}

fn named(fields: Vec<(&str, &str)>) -> Definition {
    Definition::Struct {
        fields: Fields::NamedFields(
            fields
                .into_iter()
                .map(|(n, d)| (n.to_string(), d.to_string()))
                .collect(),
        ),
    }
}

fn iri(subject: &str, predicate: &str, object: &str) -> Statement {
    Statement {
        subject: subject.to_string(),
        predicate: predicate.to_string(),
        object: StatementObject::Iri(object.to_string()),
    }
}

fn lit(subject: &str, predicate: &str, object: &str) -> Statement {
    Statement {
        subject: subject.to_string(),
        predicate: predicate.to_string(),
        object: StatementObject::Literal(object.to_string()),
    }
}

fn person_container() -> BorshSchemaContainer {
    container(
        "Person",
        vec![
            (
                "Person",
                named(vec![("name", "string"), ("info", "Vec<Tuple<PersonInfo, u8>>")]),
            ),
            (
                "Vec<Tuple<PersonInfo, u8>>",
                Definition::Sequence {
                    elements: "Tuple<PersonInfo, u8>".to_string(),
                },
            ),
            (
                "Tuple<PersonInfo, u8>",
                Definition::Tuple {
                    elements: vec!["PersonInfo".to_string(), "u8".to_string()],
                },
            ),
            ("PersonInfo", named(vec![("data", "string")])),
        ],
    )
}

#[test]
fn end_to_end_person_scenario() {
    let schema = get_schema(&person_container()).unwrap();
    let mut b = Builder::new(&schema, TokenMode::Counter);
    assert!(b.is_root());

    // The visit plan for Person { name: "Bob",
    // info: [(PersonInfo { data: "Hello" }, 10),
    //        (PersonInfo { data: "World" }, 20)] }.
    b.stack_push(0).unwrap();
    assert!(!b.is_root());
    b.build(None).unwrap();

    b.stack_push(0).unwrap();
    b.build(Some("Bob")).unwrap();
    b.stack_pop().unwrap();

    b.stack_push(1).unwrap();
    b.build(Some("2")).unwrap();
    for (data, num) in [("Hello", "10"), ("World", "20")] {
        b.stack_push(0).unwrap();
        b.build(None).unwrap();

        b.stack_push(0).unwrap();
        b.build(None).unwrap();
        b.stack_push(0).unwrap();
        b.build(Some(data)).unwrap();
        b.stack_pop().unwrap();
        b.stack_pop().unwrap();

        b.stack_push(1).unwrap();
        b.build(Some(num)).unwrap();
        b.stack_pop().unwrap();

        b.stack_pop().unwrap();
    }
    b.stack_pop().unwrap();
    b.stack_pop().unwrap();

    let base = BASE;
    let expected = vec![
        // One Struct-class statement for Person.
        iri(
            &format!("{base}/Person#0"),
            RDF_TYPE,
            &format!("{base}/type/struct#Person"),
        ),
        // One String leaf with literal "Bob".
        lit(&format!("{base}/Person#0"), &format!("{base}/Person/name"), "Bob"),
        // One Sequence-class statement, built with length "2".
        iri(
            &format!("{base}/Person/info#1"),
            RDF_TYPE,
            &format!("{base}/type/vec"),
        ),
        iri(
            &format!("{base}/Person#0"),
            &format!("{base}/Person/info"),
            &format!("{base}/Person/info#1"),
        ),
        // First tuple element, linked to the sequence instance.
        iri(
            &format!("{base}/Person/info/0#2"),
            RDF_TYPE,
            &format!("{base}/type/tuple"),
        ),
        iri(
            &format!("{base}/Person/info#1"),
            &format!("{base}/Person/info/0"),
            &format!("{base}/Person/info/0#2"),
        ),
        iri(
            &format!("{base}/Person/info/0/0#3"),
            RDF_TYPE,
            &format!("{base}/type/struct#PersonInfo"),
        ),
        iri(
            &format!("{base}/Person/info/0#2"),
            &format!("{base}/Person/info/0/0"),
            &format!("{base}/Person/info/0/0#3"),
        ),
        lit(
            &format!("{base}/Person/info/0/0#3"),
            &format!("{base}/Person/info/0/0/data"),
            "Hello",
        ),
        lit(
            &format!("{base}/Person/info/0#2"),
            &format!("{base}/Person/info/0/1"),
            "10",
        ),
        // Second tuple element: same class address, distinct identity.
        iri(
            &format!("{base}/Person/info/0#4"),
            RDF_TYPE,
            &format!("{base}/type/tuple"),
        ),
        iri(
            &format!("{base}/Person/info#1"),
            &format!("{base}/Person/info/0"),
            &format!("{base}/Person/info/0#4"),
        ),
        iri(
            &format!("{base}/Person/info/0/0#5"),
            RDF_TYPE,
            &format!("{base}/type/struct#PersonInfo"),
        ),
        iri(
            &format!("{base}/Person/info/0#4"),
            &format!("{base}/Person/info/0/0"),
            &format!("{base}/Person/info/0/0#5"),
        ),
        lit(
            &format!("{base}/Person/info/0/0#5"),
            &format!("{base}/Person/info/0/0/data"),
            "World",
        ),
        lit(
            &format!("{base}/Person/info/0#4"),
            &format!("{base}/Person/info/0/1"),
            "20",
        ),
    ];
    assert_eq!(b.graph, expected);
}

#[test]
fn zero_field_struct_emits_only_its_class_statement() {
    let ctr = container("Unit", vec![("Unit", named(vec![]))]);
    let schema = get_schema(&ctr).unwrap();
    let mut b = Builder::new(&schema, TokenMode::Counter);
    b.stack_push(0).unwrap();
    b.build(None).unwrap();
    b.stack_pop().unwrap();
    let expected = vec![iri(
        &format!("{BASE}/Unit#0"),
        RDF_TYPE,
        &format!("{BASE}/type/struct#Unit"),
    )];
    assert_eq!(b.graph, expected);
}

#[test]
fn leaf_without_literal_is_an_error() {
    let ctr = container("Person", vec![("Person", named(vec![("name", "string")]))]);
    let schema = get_schema(&ctr).unwrap();
    let mut b = Builder::new(&schema, TokenMode::Counter);
    b.stack_push(0).unwrap();
    b.build(None).unwrap();
    b.stack_push(0).unwrap();
    assert_eq!(b.build(None), Err(BuildError::MissingLiteral));
}

#[test]
fn build_before_any_push_is_an_error() {
    let ctr = container("Person", vec![("Person", named(vec![("name", "string")]))]);
    let schema = get_schema(&ctr).unwrap();
    let mut b = Builder::new(&schema, TokenMode::Counter);
    assert_eq!(b.build(None), Err(BuildError::EmptyStack));
    assert_eq!(b.stack_pop(), Err(BuildError::EmptyStack));
}

#[test]
fn push_past_the_children_is_an_error() {
    let ctr = container("Person", vec![("Person", named(vec![("name", "string")]))]);
    let schema = get_schema(&ctr).unwrap();
    let mut b = Builder::new(&schema, TokenMode::Counter);
    b.stack_push(0).unwrap();
    assert_eq!(b.stack_push(1), Err(BuildError::IndexOutOfRange));
    // Pushing into a leaf is out of range for any index.
    b.stack_push(0).unwrap();
    assert_eq!(b.stack_push(0), Err(BuildError::IndexOutOfRange));
}

#[test]
fn push_resolves_term_references_through_the_table() {
    let ctr = container(
        "Outer",
        vec![
            ("Outer", named(vec![("item", "Item")])),
            ("Item", named(vec![("x", "string")])),
        ],
    );
    let schema = get_schema(&ctr).unwrap();
    let mut b = Builder::new(&schema, TokenMode::Counter);
    b.stack_push(0).unwrap();
    b.build(None).unwrap();
    // Enter the reference node, then push through it into the canonical
    // definition's field.
    b.stack_push(0).unwrap();
    b.build(None).unwrap();
    b.stack_push(0).unwrap();
    b.build(Some("hi")).unwrap();
    let last = b.graph.last().unwrap();
    assert_eq!(last.predicate, format!("{BASE}/Outer/item/x"));
    assert_eq!(last.object, StatementObject::Literal("hi".to_string()));
}

#[test]
fn get_uri_distinguishes_class_and_instance() {
    let ctr = container("Unit", vec![("Unit", named(vec![]))]);
    let schema = get_schema(&ctr).unwrap();
    let mut b = Builder::new(&schema, TokenMode::Counter);
    b.stack_push(0).unwrap();
    assert_eq!(b.get_uri(true), format!("{BASE}/Unit"));
    assert_eq!(b.get_uri(false), format!("{BASE}/Unit#0"));
    assert_eq!(b.get_uri(false), format!("{BASE}/Unit#1"));
}

#[test]
fn random_tokens_have_the_path_prefix_and_fixed_length() {
    let ctr = container("Unit", vec![("Unit", named(vec![]))]);
    let schema = get_schema(&ctr).unwrap();
    let mut b = Builder::new(&schema, TokenMode::Random);
    b.stack_push(0).unwrap();
    let u1 = b.get_uri(false);
    let u2 = b.get_uri(false);
    let prefix = format!("{BASE}/Unit#");
    assert!(u1.starts_with(&prefix));
    assert!(u2.starts_with(&prefix));
    assert_eq!(u1.len(), prefix.len() + 36);
    assert_eq!(u2.len(), prefix.len() + 36);
    assert_ne!(u1, u2);
}

#[test]
fn path_element_uses_term_name_or_index() {
    let ctr = container("Person", vec![("Person", named(vec![("name", "string")]))]);
    let schema = get_schema(&ctr).unwrap();
    let mut b = Builder::new(&schema, TokenMode::Counter);

    let root_struct = Type {
        datatype: DataType::Struct,
        name: None,
        term: Some("Person".to_string()),
        signed: None,
        length: None,
        fields: None,
    };
    assert_eq!(
        b.path_element(&root_struct, 7, true),
        Ok("Person".to_string())
    );
    let named_leaf = Type {
        datatype: DataType::String,
        name: Some("name".to_string()),
        term: None,
        signed: None,
        length: None,
        fields: None,
    };
    assert_eq!(b.path_element(&named_leaf, 7, false), Ok("name".to_string()));
    let unnamed_leaf = Type {
        datatype: DataType::Int,
        name: None,
        term: None,
        signed: None,
        length: None,
        fields: None,
    };
    assert_eq!(b.path_element(&unnamed_leaf, 7, false), Ok("7".to_string()));
    let bare_root = Type {
        datatype: DataType::Struct,
        name: None,
        term: None,
        signed: None,
        length: None,
        fields: None,
    };
    assert_eq!(
        b.path_element(&bare_root, 0, true),
        Err(BuildError::MissingTerm)
    );
}

#[test]
fn rdf_instance_statements() {
    let struct_node = Type {
        datatype: DataType::Struct,
        name: None,
        term: Some("Person".to_string()),
        signed: None,
        length: None,
        fields: None,
    };
    let stmts = build_rdf_instance(&struct_node);
    assert_eq!(
        stmts,
        vec![iri(
            "http://example.org/Person",
            RDF_TYPE,
            "http://www.w3.org/2000/01/rdf-schema#Class",
        )]
    );

    let leaf = Type {
        datatype: DataType::String,
        name: Some("name".to_string()),
        term: None,
        signed: None,
        length: None,
        fields: None,
    };
    let stmts2 = build_rdf_instance(&leaf);
    assert_eq!(
        stmts2,
        vec![iri(
            "http://example.org/name",
            RDF_TYPE,
            "http://www.w3.org/1999/02/22-rdf-syntax-ns#Property",
        )]
    );

    let anonymous = Type::default();
    assert_eq!(build_rdf_instance(&anonymous), vec![]);
}
