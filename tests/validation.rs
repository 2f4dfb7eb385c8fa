use nbtdoc::arena::{Arena, Index};
use nbtdoc::ast::{FieldPath, Identifier, Range};
use nbtdoc::schema::{
    Binding, EnumKind, EnumLiteral, EnumVariant, NumKind, ResolvedCompound, ResolvedEnum,
    ResolvedField, ResolvedSuper, ResolvedType, Schema,
};
use nbtdoc::validate::{enum_contains, id_matches, len_in_range, validate, ValidationError, ValidationErrorKind, Value};

fn s(x: &str) -> String {
    x.to_string()
}

fn id(ns: &str, p: &str) -> Identifier {
    Identifier { namespace: s(ns), path: s(p) }
}

fn empty_schema() -> Schema {
    Schema { compounds: Arena::new(), enums: Arena::new(), describes: vec![] }
}

fn int_low(v: i64) -> ResolvedType {
    ResolvedType::Number { kind: NumKind::Int, range: Some(Range::Low(v)) }
}

fn rfield(t: ResolvedType, optional: bool) -> ResolvedField {
    ResolvedField { description: s(""), optional, ty: t }
}

fn kinds(errs: &[ValidationError]) -> Vec<&ValidationErrorKind> {
    errs.iter().map(|e| &e.kind).collect()
}

/// C has a required string `name`; D dispatches on its `id` key in registry `ns:reg`.
fn dispatch_schema() -> Schema {
    let mut sc = empty_schema();
    let c = sc.compounds.push(ResolvedCompound {
        description: s(""),
        fields: vec![(s("name"), rfield(ResolvedType::Str, false))],
        sup: None,
    });
    sc.compounds.push(ResolvedCompound {
        description: s(""),
        fields: vec![(s("id"), rfield(ResolvedType::Str, false))],
        sup: Some(ResolvedSuper::RegistryDispatch { registry: id("ns", "reg"), discriminator: vec![FieldPath::Key(s("id"))] }),
    });
    sc.describes.push(Binding { registry: id("ns", "reg"), key: Some(id("ns", "foo")), target: c });
    sc
}

fn entity(key: &str, extra: Vec<(String, Value)>) -> Value {
    let mut entries = vec![(s("id"), Value::Str(s(key)))];
    entries.extend(extra);
    Value::Compound(entries)
}

#[test]
fn bound_key_checks_against_bound_compound() {
    let sc = dispatch_schema();
    let d = ResolvedType::Compound(Index::from_pos(1));
    let good = entity("ns:foo", vec![(s("name"), Value::Str(s("zed")))]);
    assert!(validate(&sc, &d, &good).is_empty());
    let missing = entity("ns:foo", vec![]);
    let errs = validate(&sc, &d, &missing);
    assert_eq!(errs.len(), 1);
    assert!(matches!(errs[0].kind, ValidationErrorKind::TypeMismatch));
    assert!(matches!(&errs[0].path[..], [FieldPath::Key(k)] if k == "name"));
    let wrong = entity("ns:foo", vec![(s("name"), Value::Int(3))]);
    assert_eq!(validate(&sc, &d, &wrong).len(), 1);
}

#[test]
fn unbound_key_is_unknown() {
    let sc = dispatch_schema();
    let d = ResolvedType::Compound(Index::from_pos(1));
    let errs = validate(&sc, &d, &entity("ns:bar", vec![]));
    assert_eq!(errs.len(), 1);
    assert!(matches!(errs[0].kind, ValidationErrorKind::UnknownRegistryKey));
}

#[test]
fn catch_all_binding_applies_to_other_keys() {
    let mut sc = dispatch_schema();
    sc.describes.push(Binding { registry: id("ns", "reg"), key: None, target: Index::from_pos(0) });
    let d = ResolvedType::Compound(Index::from_pos(1));
    assert_eq!(validate(&sc, &d, &entity("ns:bar", vec![])).len(), 1);
    assert!(validate(&sc, &d, &entity("ns:bar", vec![(s("name"), Value::Str(s("q")))])).is_empty());
}

#[test]
fn int_low_bound_respects_full_width() {
    let sc = empty_schema();
    let t = int_low(5);
    assert!(validate(&sc, &t, &Value::Int(5)).is_empty());
    let errs = validate(&sc, &t, &Value::Int(4));
    assert_eq!(errs.len(), 1);
    assert!(matches!(errs[0].kind, ValidationErrorKind::RangeViolation));
    assert!(validate(&sc, &t, &Value::Int(2147483647)).is_empty());
}

#[test]
fn number_kind_must_match_exactly() {
    let sc = empty_schema();
    let errs = validate(&sc, &int_low(5), &Value::Long(6));
    assert!(matches!(kinds(&errs)[..], [ValidationErrorKind::TypeMismatch]));
    let errs = validate(&sc, &int_low(5), &Value::Byte(6));
    assert!(matches!(kinds(&errs)[..], [ValidationErrorKind::TypeMismatch]));
}

fn string_list() -> ResolvedType {
    ResolvedType::List { item: Box::new(ResolvedType::Str), len_range: Some(Range::Both(1, 3)) }
}

#[test]
fn empty_list_is_too_short() {
    let errs = validate(&empty_schema(), &string_list(), &Value::List(vec![]));
    assert_eq!(errs.len(), 1);
    assert!(matches!(errs[0].kind, ValidationErrorKind::LengthViolation));
}

#[test]
fn each_bad_item_is_reported_at_its_index() {
    let v = Value::List(vec![Value::Int(1), Value::Int(2)]);
    let errs = validate(&empty_schema(), &string_list(), &v);
    assert_eq!(errs.len(), 2);
    assert!(matches!(&errs[0].path[..], [FieldPath::Index(0)]));
    assert!(matches!(&errs[1].path[..], [FieldPath::Index(1)]));
    assert!(errs.iter().all(|e| matches!(e.kind, ValidationErrorKind::TypeMismatch)));
}

#[test]
fn list_of_four_is_too_long() {
    let v = Value::List(vec![Value::Str(s("a")), Value::Str(s("b")), Value::Str(s("c")), Value::Str(s("d"))]);
    let errs = validate(&empty_schema(), &string_list(), &v);
    assert!(matches!(kinds(&errs)[..], [ValidationErrorKind::LengthViolation]));
    let ok = Value::List(vec![Value::Str(s("a")), Value::Str(s("b")), Value::Str(s("c"))]);
    assert!(validate(&empty_schema(), &string_list(), &ok).is_empty());
}

fn byte_or_string() -> ResolvedType {
    ResolvedType::Or(vec![ResolvedType::Number { kind: NumKind::Byte, range: None }, ResolvedType::Str])
}

#[test]
fn alternatives_accept_either_kind() {
    let sc = empty_schema();
    assert!(validate(&sc, &byte_or_string(), &Value::Byte(3)).is_empty());
    assert!(validate(&sc, &byte_or_string(), &Value::Str(s("x"))).is_empty());
}

#[test]
fn no_alternative_aggregates_every_failure() {
    let errs = validate(&empty_schema(), &byte_or_string(), &Value::Long(1));
    assert_eq!(errs.len(), 1);
    match &errs[0].kind {
        ValidationErrorKind::NoAlternative { alternatives } => {
            assert_eq!(alternatives.len(), 2);
            assert!(alternatives.iter().all(|a| a.len() == 1 && matches!(a[0].kind, ValidationErrorKind::TypeMismatch)));
        },
        _ => panic!("expected an aggregated failure"),
    }
}

#[test]
fn boolean_is_a_zero_or_one_byte() {
    let sc = empty_schema();
    assert!(validate(&sc, &ResolvedType::Boolean, &Value::Byte(1)).is_empty());
    assert!(validate(&sc, &ResolvedType::Boolean, &Value::Byte(0)).is_empty());
    assert_eq!(validate(&sc, &ResolvedType::Boolean, &Value::Byte(2)).len(), 1);
    assert_eq!(validate(&sc, &ResolvedType::Boolean, &Value::Str(s("true"))).len(), 1);
}

#[test]
fn array_checks_length_and_each_element() {
    let t = ResolvedType::Array { kind: NumKind::Int, value_range: Some(Range::High(10)), len_range: Some(Range::High(2)) };
    let sc = empty_schema();
    assert!(validate(&sc, &t, &Value::IntArray(vec![1, 10])).is_empty());
    let errs = validate(&sc, &t, &Value::IntArray(vec![11, 1, 12]));
    assert!(matches!(kinds(&errs)[..], [ValidationErrorKind::LengthViolation, ValidationErrorKind::RangeViolation, ValidationErrorKind::RangeViolation]));
    assert!(matches!(&errs[2].path[..], [FieldPath::Index(2)]));
    assert_eq!(validate(&sc, &t, &Value::LongArray(vec![1])).len(), 1);
}

#[test]
fn enum_value_must_be_declared() {
    let mut sc = empty_schema();
    let e = sc.enums.push(ResolvedEnum {
        description: s(""),
        kind: EnumKind::Byte,
        values: vec![(s("Red"), EnumVariant { value: EnumLiteral::Int(1), description: s("") })],
    });
    let t = ResolvedType::Enum(e);
    assert!(validate(&sc, &t, &Value::Byte(1)).is_empty());
    let errs = validate(&sc, &t, &Value::Byte(2));
    assert!(matches!(kinds(&errs)[..], [ValidationErrorKind::EnumValueNotFound]));
    assert!(enum_contains(sc.enums.get(&Index::from_pos(0)), &Value::Int(1)));
}

#[test]
fn inherited_fields_are_checked_and_shadowed() {
    let mut sc = empty_schema();
    sc.compounds.push(ResolvedCompound {
        description: s(""),
        fields: vec![(s("a"), rfield(ResolvedType::Str, false)), (s("b"), rfield(ResolvedType::Str, false))],
        sup: None,
    });
    sc.compounds.push(ResolvedCompound {
        description: s(""),
        fields: vec![(s("b"), rfield(int_low(0), false))],
        sup: Some(ResolvedSuper::Static(Index::from_pos(0))),
    });
    let t = ResolvedType::Compound(Index::from_pos(1));
    let ok = Value::Compound(vec![(s("a"), Value::Str(s("x"))), (s("b"), Value::Int(3))]);
    assert!(validate(&sc, &t, &ok).is_empty());
    let missing_base = Value::Compound(vec![(s("b"), Value::Int(3))]);
    let errs = validate(&sc, &t, &missing_base);
    assert_eq!(errs.len(), 1);
    assert!(matches!(&errs[0].path[..], [FieldPath::Key(k)] if k == "a"));
}

#[test]
fn registry_id_must_be_bound() {
    let sc = dispatch_schema();
    let t = ResolvedType::Id(id("ns", "reg"));
    assert!(validate(&sc, &t, &Value::Str(s("ns:foo"))).is_empty());
    assert!(matches!(kinds(&validate(&sc, &t, &Value::Str(s("ns:fo"))))[..], [ValidationErrorKind::UnknownRegistryKey]));
}

#[test]
fn identifier_text_form() {
    assert!(id_matches(&s("ns:foo"), &id("ns", "foo")));
    assert!(!id_matches(&s("ns:bar"), &id("ns", "foo")));
    assert!(!id_matches(&s("nsfoo"), &id("ns", "foo")));
    assert!(id_matches(&s(":"), &id("", "")));
}

#[test]
fn length_ranges_on_sizes() {
    assert!(len_in_range(&Range::Both(1, 3), 1));
    assert!(!len_in_range(&Range::Both(1, 3), 0));
    assert!(len_in_range(&Range::Low(0), usize::MAX));
    assert!(!len_in_range(&Range::Single(-1), 0));
}
