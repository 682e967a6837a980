use class_ast::parse_to_ast;
use class_ast::AttributeDef;
use class_ast::ClassDef;
use class_ast::DataType;
use class_ast::FunctionDef;
use class_ast::ParseError;

fn attr(dt: DataType, name: &str) -> AttributeDef {
    AttributeDef {
        data_type: dt,
        name: name.to_string(),
    }
}

#[test]
fn round_trip_single_class() {
    let input = "classDiagram\nclass Foo {\nstring name\n}\nclassDiagram";
    let table = parse_to_ast(input).unwrap();
    assert_eq!(table.len(), 1);
    assert!(table.contains_name(&"FOO".to_string()));
    assert!(!table.contains_name(&"BAR".to_string()));
    let foo = table.get(&"FOO".to_string()).unwrap();
    assert_eq!(foo.name, "FOO");
    assert_eq!(foo.attributes, vec![attr(DataType::STRING, "name")]);
    assert!(foo.functions.is_empty());
}

#[test]
fn function_member_is_a_function_not_an_attribute() {
    let input = "classDiagram\nclass Foo {\nint getValue()\n}";
    let table = parse_to_ast(input).unwrap();
    let foo = table.get(&"FOO".to_string()).unwrap();
    assert!(foo.attributes.is_empty());
    // The whole input is lower-cased up front, so the stored name is
    // "getvalue"; parameters are discarded.
    assert_eq!(
        foo.functions,
        vec![FunctionDef {
            return_type: DataType::INTEGER,
            name: "getvalue".to_string(),
            params: Vec::new(),
        }]
    );
}

#[test]
fn unknown_type_token_becomes_foreign_key() {
    let input = "classDiagram\nclass Foo {\nBar ref\n}";
    let table = parse_to_ast(input).unwrap();
    let foo = table.get(&"FOO".to_string()).unwrap();
    assert_eq!(
        foo.attributes,
        vec![attr(DataType::FOREIGN_KEY("bar".to_string()), "ref")]
    );
}

#[test]
fn one_to_many_injects_foreign_key_into_many_side() {
    let input = "classDiagram\nA \"1\" -- \"N\" B";
    let table = parse_to_ast(input).unwrap();
    assert_eq!(table.len(), 2);
    let a = table.get(&"A".to_string()).unwrap();
    assert!(a.attributes.is_empty());
    assert!(a.functions.is_empty());
    let b = table.get(&"B".to_string()).unwrap();
    assert_eq!(
        b.attributes,
        vec![attr(DataType::FOREIGN_KEY("A".to_string()), "A_fk")]
    );
}

#[test]
fn many_to_one_injects_foreign_key_into_left_side() {
    let input = "classDiagram\nA \"N\" -- \"1\" B";
    let table = parse_to_ast(input).unwrap();
    let a = table.get(&"A".to_string()).unwrap();
    assert_eq!(
        a.attributes,
        vec![attr(DataType::FOREIGN_KEY("B".to_string()), "B_fk")]
    );
    let b = table.get(&"B".to_string()).unwrap();
    assert!(b.attributes.is_empty());
}

#[test]
fn many_to_many_injects_cross_reference_into_left_side() {
    let input = "classDiagram\nA \"N\" -- \"M\" B";
    let table = parse_to_ast(input).unwrap();
    let a = table.get(&"A".to_string()).unwrap();
    assert_eq!(
        a.attributes,
        vec![attr(DataType::MANY_TO_MANY("B".to_string()), "B_fk")]
    );
    let b = table.get(&"B".to_string()).unwrap();
    assert!(b.attributes.is_empty());
}

#[test]
fn one_to_one_injects_nothing_but_creates_both() {
    let input = "classDiagram\nA \"1\" -- \"1\" B";
    let table = parse_to_ast(input).unwrap();
    assert_eq!(table.len(), 2);
    assert!(table.get(&"A".to_string()).unwrap().attributes.is_empty());
    assert!(table.get(&"B".to_string()).unwrap().attributes.is_empty());
}

#[test]
fn zero_to_one_range_counts_as_many() {
    let input = "classDiagram\nA \"0..1\" -- \"1\" B";
    let table = parse_to_ast(input).unwrap();
    let a = table.get(&"A".to_string()).unwrap();
    assert_eq!(
        a.attributes,
        vec![attr(DataType::FOREIGN_KEY("B".to_string()), "B_fk")]
    );
}

#[test]
fn unresolvable_cardinality_fails_naming_the_token() {
    let input = "classDiagram\nA \"X\" -- \"1\" B";
    let err = parse_to_ast(input).unwrap_err();
    assert_eq!(err, ParseError::UnknownCardinality("X".to_string()));
    assert!(err.message().contains("X"));
}

#[test]
fn short_relation_line_fails_naming_the_line() {
    let input = "classDiagram\nA -- B";
    let err = parse_to_ast(input).unwrap_err();
    assert_eq!(err, ParseError::MalformedRelation("a -- b".to_string()));
    assert!(err.message().contains("a -- b"));
}

#[test]
fn reopening_a_class_merges_members() {
    let input = "classDiagram\nclass A {\nstring x\n}\nclass A {\nint y\n}";
    let table = parse_to_ast(input).unwrap();
    assert_eq!(table.len(), 1);
    let a = table.get(&"A".to_string()).unwrap();
    assert_eq!(
        a.attributes,
        vec![attr(DataType::STRING, "x"), attr(DataType::INTEGER, "y")]
    );
}

#[test]
fn parsing_twice_yields_identical_mappings() {
    let input = "classDiagram\nclass A {\nstring x\nbool b\n}\nclass B {\n}\nA \"1\" -- \"N\" B";
    let first = parse_to_ast(input).unwrap();
    let second = parse_to_ast(input).unwrap();
    assert_eq!(first, second);
}

#[test]
fn class_only_input_yields_one_entry_per_class_in_order() {
    let input = "classDiagram\nclass One {\nstring a\ndouble d\n}\nclass Two {\nchar c\n}";
    let table = parse_to_ast(input).unwrap();
    assert_eq!(table.len(), 2);
    let names: Vec<String> = table.classes().iter().map(|c: &ClassDef| c.name.clone()).collect();
    assert_eq!(names, vec!["ONE".to_string(), "TWO".to_string()]);
    let one = table.get(&"ONE".to_string()).unwrap();
    assert_eq!(
        one.attributes,
        vec![attr(DataType::STRING, "a"), attr(DataType::DOUBLE, "d")]
    );
    let two = table.get(&"TWO".to_string()).unwrap();
    assert_eq!(two.attributes, vec![attr(DataType::CHAR, "c")]);
}

#[test]
fn all_primitive_type_names_resolve() {
    let input = "classDiagram\nclass T {\nstring a\nfloat b\nint c\nbool d\ndatetime e\ndouble f\nchar g\n}";
    let table = parse_to_ast(input).unwrap();
    let t = table.get(&"T".to_string()).unwrap();
    let kinds: Vec<DataType> = t.attributes.iter().map(|a| a.data_type.clone()).collect();
    assert_eq!(
        kinds,
        vec![
            DataType::STRING,
            DataType::FLOAT,
            DataType::INTEGER,
            DataType::BOOL,
            DataType::DATETIME,
            DataType::DOUBLE,
            DataType::CHAR,
        ]
    );
}

#[test]
fn unterminated_class_block_is_dropped() {
    let input = "classDiagram\nclass A {\nstring x";
    let table = parse_to_ast(input).unwrap();
    assert_eq!(table.len(), 0);
}

#[test]
fn unparseable_member_lines_are_skipped() {
    let input = "classDiagram\nclass A {\n!!!\n+++ ???\n}";
    let table = parse_to_ast(input).unwrap();
    let a = table.get(&"A".to_string()).unwrap();
    assert!(a.attributes.is_empty());
    assert!(a.functions.is_empty());
}

#[test]
fn empty_input_yields_empty_mapping() {
    let table = parse_to_ast("").unwrap();
    assert_eq!(table.len(), 0);
}

#[test]
fn relation_between_declared_classes_keeps_their_members() {
    let input =
        "classDiagram\nclass User {\nstring name\n}\nclass Post {\nstring title\n}\nUser \"1\" -- \"N\" Post";
    let table = parse_to_ast(input).unwrap();
    let user = table.get(&"USER".to_string()).unwrap();
    assert_eq!(user.attributes, vec![attr(DataType::STRING, "name")]);
    let post = table.get(&"POST".to_string()).unwrap();
    assert_eq!(
        post.attributes,
        vec![
            attr(DataType::STRING, "title"),
            attr(DataType::FOREIGN_KEY("USER".to_string()), "USER_fk"),
        ]
    );
}

#[test]
fn section_marker_lines_are_skipped_anywhere() {
    let input = "class A {\nstring x\nclassDiagram\n}";
    let table = parse_to_ast(input).unwrap();
    let a = table.get(&"A".to_string()).unwrap();
    assert_eq!(a.attributes, vec![attr(DataType::STRING, "x")]);
}

#[test]
fn class_created_by_relation_can_be_reopened_and_merged() {
    let input = "classDiagram\nA \"1\" -- \"N\" B\nclass B {\nstring title\n}";
    let table = parse_to_ast(input).unwrap();
    assert_eq!(table.len(), 2);
    let b = table.get(&"B".to_string()).unwrap();
    assert_eq!(
        b.attributes,
        vec![
            attr(DataType::FOREIGN_KEY("A".to_string()), "A_fk"),
            attr(DataType::STRING, "title"),
        ]
    );
}

#[test]
fn crlf_line_endings_are_tolerated() {
    let input = "classDiagram\r\nclass A {\r\nstring x\r\n}\r\nA \"1\" -- \"N\" B\r\n";
    let table = parse_to_ast(input).unwrap();
    let b = table.get(&"B".to_string()).unwrap();
    assert_eq!(
        b.attributes,
        vec![attr(DataType::FOREIGN_KEY("A".to_string()), "A_fk")]
    );
}
