use egg::numeral::parse_literal;
use egg::semantics::Fault;
use egg::value::{int_to_text, Value};

fn s(x: &str) -> String {
    x.to_string()
}

#[test]
fn literal_with_radix_marker() {
    assert_eq!(parse_literal(&s("ffb16"), 10), Some(255));
    assert_eq!(parse_literal(&s("101b2"), 10), Some(5));
    assert_eq!(parse_literal(&s("zb36"), 10), Some(35));
    assert_eq!(parse_literal(&s("-17b8"), 10), Some(-15));
    assert_eq!(parse_literal(&s("FFb16"), 10), Some(255));
}

#[test]
fn literal_in_default_base() {
    assert_eq!(parse_literal(&s("42"), 10), Some(42));
    assert_eq!(parse_literal(&s("+42"), 10), Some(42));
    assert_eq!(parse_literal(&s("-42"), 10), Some(-42));
    assert_eq!(parse_literal(&s("17"), 8), Some(15));
    assert_eq!(parse_literal(&s("9223372036854775807"), 10), Some(i64::MAX));
    assert_eq!(parse_literal(&s("-9223372036854775808"), 10), Some(i64::MIN));
}

#[test]
fn literal_rejections() {
    assert_eq!(parse_literal(&s(""), 10), None);
    assert_eq!(parse_literal(&s("-"), 10), None);
    assert_eq!(parse_literal(&s("12b1"), 10), None);
    assert_eq!(parse_literal(&s("12b37"), 10), None);
    assert_eq!(parse_literal(&s("1b2b3"), 10), None);
    assert_eq!(parse_literal(&s("9b8"), 10), None);
    assert_eq!(parse_literal(&s("12b"), 10), None);
    assert_eq!(parse_literal(&s("9223372036854775808"), 10), None);
    assert_eq!(parse_literal(&s("1a"), 10), None);
    assert_eq!(parse_literal(&s("5"), 1), None);
}

#[test]
fn display_forms() {
    assert_eq!(int_to_text(0), s("0"));
    assert_eq!(int_to_text(-120), s("-120"));
    assert_eq!(int_to_text(i64::MIN), s("-9223372036854775808"));
    let nested = Value::Array(vec![
        Value::Number(1),
        Value::Array(vec![Value::Number(2), Value::Text(s("x"))]),
    ]);
    assert_eq!(nested.display(), s("[ 1 [ 2 x ] ]"));
    assert_eq!(Value::Array(vec![]).display(), s("[  ]"));
    assert_eq!(Value::Text(s("hi there")).display(), s("hi there"));
    assert_eq!(Value::Function(vec![], s("{}")).display(), s("Function()"));
}

#[test]
fn copies_are_independent() {
    let v = Value::Array(vec![Value::Number(1), Value::Text(s("t"))]);
    let mut c = v.copy();
    assert_eq!(c, v);
    if let Value::Array(items) = &mut c {
        items.push(Value::Number(3));
    }
    assert_eq!(v.display(), s("[ 1 t ]"));
    assert_eq!(c.display(), s("[ 1 t 3 ]"));
}

#[test]
fn fault_messages() {
    assert_eq!(Fault::BadNumber.message(), s("Error: invalid number literal"));
    assert_eq!(Fault::DivideByZero.message(), s("Error: division by zero"));
    assert_eq!(Fault::Overflow.message(), s("Error: arithmetic overflow"));
    assert_eq!(Fault::NegativeExponent.message(), s("Error: negative exponent"));
}
