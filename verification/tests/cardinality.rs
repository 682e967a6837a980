use class_ast::convert_cardinality;
use class_ast::ManyKind;
use class_ast::RelationEndpoint;

#[test]
fn zero_and_one_resolve() {
    assert_eq!(convert_cardinality("0"), Some(RelationEndpoint::ZERO));
    assert_eq!(convert_cardinality("1"), Some(RelationEndpoint::ONE));
}

#[test]
fn bare_many_tokens_resolve_to_unknown_kind() {
    assert_eq!(
        convert_cardinality("N"),
        Some(RelationEndpoint::MANY(ManyKind::UNKNOWN))
    );
    assert_eq!(
        convert_cardinality("M"),
        Some(RelationEndpoint::MANY(ManyKind::UNKNOWN))
    );
}

#[test]
fn range_tokens_resolve_to_their_kinds() {
    assert_eq!(
        convert_cardinality("0..N"),
        Some(RelationEndpoint::MANY(ManyKind::ZERO_TO_MANY))
    );
    assert_eq!(
        convert_cardinality("0..M"),
        Some(RelationEndpoint::MANY(ManyKind::ZERO_TO_MANY))
    );
    assert_eq!(
        convert_cardinality("1..N"),
        Some(RelationEndpoint::MANY(ManyKind::ONE_TO_MANY))
    );
    assert_eq!(
        convert_cardinality("1..M"),
        Some(RelationEndpoint::MANY(ManyKind::ONE_TO_MANY))
    );
    assert_eq!(
        convert_cardinality("0..1"),
        Some(RelationEndpoint::MANY(ManyKind::ZERO_TO_ONE))
    );
}

#[test]
fn many_classification_covers_every_endpoint() {
    assert!(!RelationEndpoint::ZERO.is_many());
    assert!(!RelationEndpoint::ONE.is_many());
    assert!(RelationEndpoint::MANY(ManyKind::UNKNOWN).is_many());
    assert!(RelationEndpoint::MANY(ManyKind::ZERO_TO_ONE).is_many());
}

#[test]
fn unrecognized_tokens_resolve_to_nothing() {
    assert_eq!(convert_cardinality("X"), None);
    assert_eq!(convert_cardinality(""), None);
    assert_eq!(convert_cardinality("2"), None);
    // Tokens reach the resolver upper-cased; a lower-case form is not a
    // recognized token of its own.
    assert_eq!(convert_cardinality("n"), None);
}
