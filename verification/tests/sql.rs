use sql_domain_filter::sql::Sql;
use sql_domain_filter::value::Value;

#[test]
fn empty_string() {
    let sql = Sql::new("", None);

    assert!(
        sql.query().is_empty(),
        "Sql object created with empty fragment is itself empty"
    );
    assert_eq!(
        "",
        sql.query(),
        "Sql object created with empty fragment returns empty string"
    );
    assert_eq!(0, sql.params().len(), "Empty Sql object has no parameters")
}

#[test]
fn naked_string() {
    let sql = Sql::new("1 = 1", None);

    assert_eq!(
        "1 = 1",
        sql.query(),
        "Sql object created with a string fragment returns the fragment"
    );
    assert_eq!(
        0,
        sql.params().len(),
        "Sql object with a text fragment has no parameters"
    )
}

#[test]
fn string_with_one_parameter() {
    let sql = Sql::new(
        "CREATE TABLE %s()",
        Some(&mut [Value::Text("foo".to_string())]),
    );

    assert_eq!(
        "CREATE TABLE %s()",
        sql.query(),
        "Sql object statement() returns the fragment part"
    );
    assert_eq!(
        sql.params().pop().unwrap(),
        Value::Text("foo".to_string()),
        "The first parameter returned contains 'foo'"
    );
}

#[test]
fn string_and_integer_parameter() {
    let one = 1;
    let name = Sql::identifier("foo");
    let sql = Sql::new("UPDATE TABLE", None)
        .append(Sql::new(&name, None))
        .append(Sql::new(
            "SET name=?, one=?",
            Some(&mut [Value::Text(name.clone()), Value::Integer(one)]),
        ));

    assert_eq!(
        "UPDATE TABLE \"foo\" SET name=?, one=?",
        sql.query(),
        "Sql object statement() returns the fragment part"
    );
    let params = sql.params();
    assert_eq!(
        params[0],
        Value::Text(r#""foo""#.to_string()),
        "The first parameter is &str"
    );
    assert_eq!(
        params[1],
        Value::Integer(1),
        "The second parameter is an int"
    );
    assert_eq!(
        "UPDATE TABLE \"foo\" SET name=$1, one=$2",
        sql.finalize().formatted(),
        "Sql object statement() returns the fragment part"
    );
}
