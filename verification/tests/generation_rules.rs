use skippable_partialeq::classify::FieldTreatment;
use skippable_partialeq::compare::{records_equal, FieldValue};
use skippable_partialeq::generate::partial_eq_except_timestamps;
use skippable_partialeq::rules::{parse_directive, GenError, Policy};
use skippable_partialeq::shape::{FieldDescriptor, TypeShape};

fn field(name: &str, declared_type: &str, has_skip_marker: bool) -> FieldDescriptor {
    FieldDescriptor {
        name: name.as_bytes().to_vec(),
        declared_type: declared_type.as_bytes().to_vec(),
        has_skip_marker,
    }
}

fn text(s: &str) -> FieldValue {
    FieldValue::Text(s.as_bytes().to_vec())
}

fn post_shape() -> TypeShape {
    TypeShape::NamedRecord(vec![
        field("id", "i64", false),
        field("content", "String", false),
        field("author", "i32", false),
        field("created_at", "DateTime < Utc >", false),
    ])
}

#[test]
fn default_configuration_skips_created_at() {
    // Basic policy, no directive: the built-in token `at` applies and the
    // non-optional `created_at` is omitted from comparison.
    let cmp = partial_eq_except_timestamps(&post_shape(), &None, Policy::Basic).unwrap();
    assert_eq!(cmp.entries[3].treatment, FieldTreatment::Omit);

    let a = vec![FieldValue::Int(1), text("x"), FieldValue::Int(2), FieldValue::Int(100)];
    let b = vec![FieldValue::Int(1), text("x"), FieldValue::Int(2), FieldValue::Int(999)];
    assert!(records_equal(&cmp, &a, &b));
}

#[test]
fn identical_records_compare_equal() {
    let cmp = partial_eq_except_timestamps(&post_shape(), &None, Policy::Basic).unwrap();
    let a = vec![FieldValue::Int(7), text("body"), FieldValue::Int(3), FieldValue::Int(100)];
    assert!(records_equal(&cmp, &a, &a.clone()));
}

#[test]
fn compared_field_change_breaks_equality() {
    let cmp = partial_eq_except_timestamps(&post_shape(), &None, Policy::Basic).unwrap();
    assert_eq!(cmp.entries[1].treatment, FieldTreatment::Compare);
    let a = vec![FieldValue::Int(7), text("body"), FieldValue::Int(3), FieldValue::Int(100)];
    let b = vec![FieldValue::Int(7), text("other"), FieldValue::Int(3), FieldValue::Int(100)];
    assert!(!records_equal(&cmp, &a, &b));
}

#[test]
fn presence_only_ignores_content_but_not_presence() {
    let shape = TypeShape::NamedRecord(vec![
        field("id", "i64", false),
        field("updated_at", "Option < DateTime < Utc > >", false),
    ]);
    let directive = Some(b"at".to_vec());
    let cmp = partial_eq_except_timestamps(&shape, &directive, Policy::Skippable).unwrap();
    assert_eq!(cmp.entries[1].treatment, FieldTreatment::PresenceOnly);

    let a = vec![FieldValue::Int(1), FieldValue::OptInt(Some(100))];
    let b = vec![FieldValue::Int(1), FieldValue::OptInt(Some(999))];
    let c = vec![FieldValue::Int(1), FieldValue::OptInt(None)];
    assert!(records_equal(&cmp, &a, &b));
    assert!(!records_equal(&cmp, &a, &c));
    assert!(records_equal(&cmp, &c, &c.clone()));
}

#[test]
fn mixed_tokens_classify_optional_and_plain_differently() {
    // Tokens {at, date}: an optional `updated_at` is presence-only while a
    // non-optional `creation_date` is omitted outright.
    let shape = TypeShape::NamedRecord(vec![
        field("updated_at", "Option < DateTime < Utc > >", false),
        field("creation_date", "DateTime < Utc >", false),
    ]);
    let directive = Some(b"at, date".to_vec());
    let cmp = partial_eq_except_timestamps(&shape, &directive, Policy::Skippable).unwrap();
    assert_eq!(cmp.entries[0].treatment, FieldTreatment::PresenceOnly);
    assert_eq!(cmp.entries[1].treatment, FieldTreatment::Omit);
}

#[test]
fn missing_configuration_fails_generation() {
    // Skippable policy with neither a directive nor any skip marker.
    let r = partial_eq_except_timestamps(&post_shape(), &None, Policy::Skippable);
    assert!(matches!(r, Err(GenError::MissingExclusionConfiguration)));
}

#[test]
fn unsupported_shapes_fail_generation() {
    let d = Some(b"at".to_vec());
    let r = partial_eq_except_timestamps(&TypeShape::TupleRecord, &d, Policy::Skippable);
    assert!(matches!(r, Err(GenError::UnsupportedShape)));
    let r = partial_eq_except_timestamps(&TypeShape::EnumType, &d, Policy::Skippable);
    assert!(matches!(r, Err(GenError::UnsupportedShape)));
    let r = partial_eq_except_timestamps(&TypeShape::UnitType, &d, Policy::Skippable);
    assert!(matches!(r, Err(GenError::UnsupportedShape)));
}

#[test]
fn malformed_directive_fails_generation() {
    let directive = Some(b"at; date".to_vec());
    let r = partial_eq_except_timestamps(&post_shape(), &directive, Policy::Skippable);
    assert!(matches!(r, Err(GenError::MalformedDirective)));
}

#[test]
fn directive_tokens_are_lowercased_and_separated() {
    let toks = parse_directive(&b" At ,\tDATE \n".to_vec()).unwrap();
    assert_eq!(toks, vec![b"at".to_vec(), b"date".to_vec()]);
    let empty = parse_directive(&b" , ,".to_vec()).unwrap();
    assert!(empty.is_empty());
}

#[test]
fn suffix_match_requires_the_underscore() {
    // `rate` does not end in `_at`, and `exchange_rate` does not end in
    // `_ate`: both stay compared by value.
    let shape = TypeShape::NamedRecord(vec![
        field("rate", "i64", false),
        field("exchange_rate", "i64", false),
    ]);
    let directive = Some(b"at, ate".to_vec());
    let cmp = partial_eq_except_timestamps(&shape, &directive, Policy::Skippable).unwrap();
    assert_eq!(cmp.entries[0].treatment, FieldTreatment::Compare);
    assert_eq!(cmp.entries[1].treatment, FieldTreatment::Compare);
}

#[test]
fn option_detection_is_purely_syntactic() {
    // A type merely named like an optional wrapper is taken as one.
    let shape = TypeShape::NamedRecord(vec![field("seen_at", "OptionalFoo", false)]);
    let directive = Some(b"at".to_vec());
    let cmp = partial_eq_except_timestamps(&shape, &directive, Policy::Skippable).unwrap();
    assert_eq!(cmp.entries[0].treatment, FieldTreatment::PresenceOnly);
}

#[test]
fn all_fields_skipped_degenerates_to_always_equal() {
    let shape = TypeShape::NamedRecord(vec![
        field("left", "i64", true),
        field("right", "String", true),
    ]);
    let cmp = partial_eq_except_timestamps(&shape, &None, Policy::Skippable).unwrap();
    let a = vec![FieldValue::Int(1), text("a")];
    let b = vec![FieldValue::Int(2), text("b")];
    assert!(records_equal(&cmp, &a, &b));
}

#[test]
fn generation_is_idempotent() {
    let directive = Some(b"at".to_vec());
    let c1 = partial_eq_except_timestamps(&post_shape(), &directive, Policy::Skippable).unwrap();
    let c2 = partial_eq_except_timestamps(&post_shape(), &directive, Policy::Skippable).unwrap();
    assert_eq!(c1.entries.len(), c2.entries.len());
    let samples = [
        vec![FieldValue::Int(1), text("x"), FieldValue::Int(2), FieldValue::Int(100)],
        vec![FieldValue::Int(1), text("x"), FieldValue::Int(2), FieldValue::Int(999)],
        vec![FieldValue::Int(9), text("y"), FieldValue::Int(2), FieldValue::Int(100)],
    ];
    for a in samples.iter() {
        for b in samples.iter() {
            assert_eq!(records_equal(&c1, a, b), records_equal(&c2, a, b));
        }
    }
}

#[test]
fn skip_marker_wins_over_suffix_match() {
    // An optional field that would be presence-only by suffix is omitted
    // outright when it carries the explicit skip marker.
    let shape = TypeShape::NamedRecord(vec![
        field("updated_at", "Option < DateTime < Utc > >", true),
    ]);
    let directive = Some(b"at".to_vec());
    let cmp = partial_eq_except_timestamps(&shape, &directive, Policy::Skippable).unwrap();
    assert_eq!(cmp.entries[0].treatment, FieldTreatment::Omit);
    let a = vec![FieldValue::OptInt(Some(1))];
    let b = vec![FieldValue::OptInt(None)];
    assert!(records_equal(&cmp, &a, &b));
}
