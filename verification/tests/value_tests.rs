//! Texts, scalars, schemas and catalogs.

use std::collections::hash_map::DefaultHasher;
use std::hash::{Hash, Hasher};

use arbor::error::{plan_error, ArborError};
use arbor::float::{float_below, float_is_nan, settle, QUIET_NAN};
use arbor::optimizer::ColumnSet;
use arbor::order::{compare_scalars, compare_texts, Order};
use arbor::text::{
    chars_of, decimal_text, digits_text, ends_with, find_char, join2, join3, parse_i64,
    parse_usize, starts_with,
};
use arbor::planner::Expr;
use arbor::types::{Catalog, DataType, Field, ScalarValue, Schema};

fn schema(names: &[&str]) -> Schema {
    Schema {
        fields: names
            .iter()
            .map(|n| Field { name: n.to_string(), data_type: DataType::Int64 })
            .collect(),
    }
}

#[test]
fn texts_join_and_split() {
    assert_eq!(join2("ab", "c"), "abc");
    assert_eq!(join3("", "é", "x"), "éx");
    assert_eq!(chars_of("aé"), vec!['a', 'é']);
    assert!(starts_with("u.id", "u."));
    assert!(!starts_with("u", "u."));
    assert!(ends_with("u.id", ".id"));
    assert!(!ends_with("id", ".id"));
    assert_eq!(find_char("é.b", '.'), Some(1));
    assert_eq!(find_char("ab", '.'), None);
}

#[test]
fn numbers_are_written_in_decimal() {
    assert_eq!(digits_text(0), "0");
    assert_eq!(digits_text(18446744073709551615), "18446744073709551615");
    assert_eq!(decimal_text(-9223372036854775808), "-9223372036854775808");
    assert_eq!(decimal_text(42), "42");
}

#[test]
fn numbers_are_read_from_decimal() {
    assert_eq!(parse_i64("9223372036854775807"), Some(i64::MAX));
    assert_eq!(parse_i64("-9223372036854775808"), Some(i64::MIN));
    assert_eq!(parse_i64("+5"), Some(5));
    assert_eq!(parse_i64("9223372036854775808"), None);
    assert_eq!(parse_i64(""), None);
    assert_eq!(parse_i64("-"), None);
    assert_eq!(parse_i64("1.5"), None);
    assert_eq!(parse_usize("10"), Some(10));
    assert_eq!(parse_usize("-1"), None);
    assert_eq!(parse_usize("18446744073709551616"), None);
}

#[test]
fn floats_compare_by_their_bits() {
    let b = |v: f64| v.to_bits();
    assert!(float_is_nan(b(f64::NAN)));
    assert!(!float_is_nan(b(f64::INFINITY)));
    assert!(float_below(b(-1.0), b(1.0)));
    assert!(float_below(b(-2.0), b(-1.0)));
    assert!(!float_below(b(-0.0), b(0.0)));
    assert!(!float_below(b(0.0), b(-0.0)));
    assert!(float_below(b(-0.0), b(5e-324)));
    assert_eq!(settle(b(-f64::NAN)), QUIET_NAN);
    assert_eq!(settle(b(1.5)), b(1.5));
    assert!(f64::from_bits(QUIET_NAN).is_nan());
}

#[test]
fn scalars_compare_within_a_kind() {
    let f = |v: f64| ScalarValue::Float64(v.to_bits());
    assert_eq!(
        compare_scalars(&ScalarValue::Int64(1), &ScalarValue::Int64(2)),
        Some(Order::Less)
    );
    assert_eq!(compare_scalars(&f(-0.0), &f(0.0)), Some(Order::Equal));
    assert_eq!(compare_scalars(&f(f64::NAN), &f(0.0)), None);
    assert_eq!(
        compare_scalars(&ScalarValue::Boolean(true), &ScalarValue::Boolean(false)),
        Some(Order::Greater)
    );
    assert_eq!(compare_scalars(&ScalarValue::Null, &ScalarValue::Null), None);
    assert_eq!(compare_scalars(&ScalarValue::Int64(1), &f(1.0)), None);
    assert_eq!(compare_texts("a", "ab"), Order::Less);
    assert_eq!(compare_texts("é", "z"), Order::Greater);
    assert_eq!(compare_texts("", ""), Order::Equal);
}

#[test]
fn scalars_are_equal_by_value() {
    assert!(ScalarValue::Utf8("a".into()) == ScalarValue::Utf8("a".into()));
    assert!(ScalarValue::Utf8("a".into()) != ScalarValue::Utf8("b".into()));
    assert!(ScalarValue::Null == ScalarValue::Null);
    assert!(ScalarValue::Int64(0) != ScalarValue::Boolean(false));
    let zero = ScalarValue::Float64(0.0f64.to_bits());
    let minus_zero = ScalarValue::Float64((-0.0f64).to_bits());
    assert!(zero != minus_zero);
    assert!(zero.clone() == zero);
}

#[test]
fn fields_are_found_by_name() {
    let s = schema(&["a", "b", "a"]);
    assert_eq!(s.field_by_name("a").unwrap().0, 0);
    assert_eq!(s.field_by_name("b").unwrap().1.name, "b");
    assert!(s.field_by_name("c").is_none());
    assert_eq!(s.index_of("b").unwrap(), 1);
    assert!(matches!(s.index_of("c"), Err(ArborError::Plan(_))));
}

#[test]
fn a_catalog_gives_back_what_was_put_in_last() {
    let mut c = Catalog::new();
    assert!(!c.contains_key("t"));
    c.insert("t".into(), schema(&["a"]));
    c.insert("u".into(), schema(&["x", "y"]));
    c.insert("t".into(), schema(&["b", "c"]));
    assert!(c.contains_key("t"));
    assert_eq!(c.get("t").unwrap().fields[0].name, "b");
    assert_eq!(c.get("u").unwrap().fields.len(), 2);
    assert!(c.get("v").is_none());
}

#[test]
fn column_sets_hold_each_name_once() {
    let mut s = ColumnSet::new();
    s.insert("a".into());
    s.insert("b".into());
    s.insert("a".into());
    assert_eq!(s.len(), 2);
    assert!(s.contains("b"));
    assert!(!s.contains("c"));
    let mut other = ColumnSet::new();
    other.insert("b".into());
    other.insert("c".into());
    assert!(s.meets(&other));
    s.extend(&other);
    assert_eq!(s.len(), 3);
    assert!(other.is_within(&s));
    assert!(!s.is_within(&other));
}

#[test]
fn errors_say_what_failed() {
    assert_eq!(ArborError::Parse("x".into()).message(), "parse error: x");
    assert_eq!(plan_error("x").message(), "plan error: x");
    assert_eq!(ArborError::Execution("x".into()).message(), "execution error: x");
    assert_eq!(ArborError::Storage("x".into()).message(), "storage error: x");
    assert_eq!(ArborError::Type("x".into()).message(), "type error: x");
}

#[test]
fn equal_expressions_hash_alike() {
    let hash = |e: &Expr| {
        let mut h = DefaultHasher::new();
        e.hash(&mut h);
        h.finish()
    };
    let e = Expr::Literal(ScalarValue::Utf8("x".into()));
    assert_eq!(hash(&e), hash(&e.clone()));
    assert_ne!(hash(&e), hash(&Expr::Literal(ScalarValue::Int64(1))));
}
