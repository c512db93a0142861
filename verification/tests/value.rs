use sql_domain_filter::value::Value;

#[test]
fn value_reads_back_what_it_holds() {
    let text = Value::Text("foo".to_string());
    let number = Value::Integer(-42);
    let truth = Value::Boolean(true);
    let null = Value::Null;

    assert_eq!(text.as_text(), Some("foo"));
    assert_eq!(text.as_integer(), None);
    assert_eq!(text.as_boolean(), None);
    assert!(!text.is_null());

    assert_eq!(number.as_integer(), Some(-42));
    assert_eq!(number.as_text(), None);
    assert_eq!(number.as_boolean(), None);
    assert!(!number.is_null());

    assert_eq!(truth.as_boolean(), Some(true));
    assert_eq!(truth.as_text(), None);
    assert_eq!(truth.as_integer(), None);
    assert!(!truth.is_null());

    assert!(null.is_null());
    assert_eq!(null.as_text(), None);
    assert_eq!(null.as_integer(), None);
    assert_eq!(null.as_boolean(), None);
}

#[test]
fn value_holds_the_ends_of_its_range() {
    assert_eq!(Value::Integer(i64::MAX).as_integer(), Some(i64::MAX));
    assert_eq!(Value::Integer(i64::MIN).as_integer(), Some(i64::MIN));
    assert_eq!(Value::Text(String::new()).as_text(), Some(""));
    assert_eq!(Value::Boolean(false).as_boolean(), Some(false));
}

#[test]
fn values_are_equal_when_they_hold_the_same() {
    assert_eq!(Value::Null, Value::Null);
    assert_eq!(Value::Boolean(true), Value::Boolean(true));
    assert_eq!(Value::Integer(5), Value::Integer(5));
    assert_eq!(Value::Text("a?b".to_string()), Value::Text("a?b".to_string()));
}

#[test]
fn values_differ_when_they_hold_something_else() {
    assert_ne!(Value::Boolean(true), Value::Boolean(false));
    assert_ne!(Value::Integer(5), Value::Integer(-5));
    assert_ne!(Value::Text("a".to_string()), Value::Text("A".to_string()));
    assert_ne!(Value::Text("".to_string()), Value::Null);
    assert_ne!(Value::Integer(0), Value::Null);
    assert_ne!(Value::Integer(1), Value::Boolean(true));
    assert_ne!(Value::Integer(1), Value::Text("1".to_string()));
    assert_ne!(Value::Boolean(false), Value::Null);
}

#[test]
fn value_clone_holds_the_same() {
    for value in [
        Value::Null,
        Value::Boolean(true),
        Value::Integer(12),
        Value::Text("foo".to_string()),
    ] {
        assert_eq!(value.clone(), value);
    }
}
