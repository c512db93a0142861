use sql_domain_filter::placeholder::count_markers;
use sql_domain_filter::sql::{Sql, SqlError};
use sql_domain_filter::value::Value;

fn finalized(text: &str) -> String {
    Sql::new(text, None).finalize().formatted()
}

#[test]
fn finalize_numbers_markers_from_one() {
    assert_eq!(finalized("a=? and b=?"), "a=$1 and b=$2");
}

#[test]
fn finalize_numbers_a_single_marker() {
    assert_eq!(finalized("?"), "$1");
    assert_eq!(finalized("x = ?"), "x = $1");
    assert_eq!(finalized("? = x"), "$1 = x");
}

#[test]
fn finalize_numbers_markers_side_by_side() {
    assert_eq!(finalized("??"), "$1$2");
    assert_eq!(finalized("???"), "$1$2$3");
}

#[test]
fn finalize_leaves_a_text_without_markers() {
    assert_eq!(finalized("SELECT 1"), "SELECT 1");
    assert_eq!(finalized(""), "");
    assert_eq!(finalized(" "), " ");
    assert_eq!(finalized("CREATE TABLE %s()"), "CREATE TABLE %s()");
}

#[test]
fn finalize_leaves_the_other_characters() {
    assert_eq!(
        finalized("SELECT \"a\", 'b'\n\tFROM t WHERE x IN (?, ?) -- $9 {}%"),
        "SELECT \"a\", 'b'\n\tFROM t WHERE x IN ($1, $2) -- $9 {}%"
    );
}

#[test]
fn finalize_leaves_characters_of_more_than_one_byte() {
    assert_eq!(finalized("größe=? ∧ 名前=? 🙂"), "größe=$1 ∧ 名前=$2 🙂");
}

#[test]
fn finalize_leaves_dollar_signs_and_digits() {
    assert_eq!(finalized("$1 ? $2 ? 3"), "$1 $1 $2 $2 3");
}

#[test]
fn finalize_writes_positions_of_two_digits() {
    assert_eq!(
        finalized("?,?,?,?,?,?,?,?,?,?,?,?"),
        "$1,$2,$3,$4,$5,$6,$7,$8,$9,$10,$11,$12"
    );
}

#[test]
fn finalize_writes_positions_of_three_and_four_digits() {
    let text = "?".repeat(1234);

    let done = finalized(&text);

    let mut expected = String::new();
    for position in 1..=1234 {
        expected.push('$');
        expected.push_str(&position.to_string());
    }
    assert_eq!(done, expected);
    assert!(done.starts_with("$1$2$3"));
    assert!(done.contains("$99$100$101"));
    assert!(done.contains("$999$1000$1001"));
    assert!(done.ends_with("$1233$1234"));
}

#[test]
fn finalize_keeps_text_and_parameters() {
    let sql = Sql::new(
        "a=? and b=?",
        Some(&mut [Value::Integer(1), Value::Text("x".to_string())]),
    );

    let done = sql.finalize();

    assert_eq!(done.query(), "a=? and b=?");
    assert_eq!(
        done.params(),
        vec![Value::Integer(1), Value::Text("x".to_string())]
    );
    assert_eq!(done.formatted(), "a=$1 and b=$2");
}

#[test]
fn finalize_twice_changes_nothing() {
    let once = Sql::new("a=? and b=?", Some(&mut [Value::Null])).finalize();
    let twice = once.clone().finalize();

    assert_eq!(twice.formatted(), once.formatted());
    assert_eq!(twice.query(), once.query());
    assert_eq!(twice.params(), once.params());
}

#[test]
fn finalize_does_not_ask_for_parameters() {
    let none = Sql::new("a=? and b=?", None).finalize();
    let many = Sql::new(
        "a=?",
        Some(&mut [Value::Integer(1), Value::Integer(2), Value::Integer(3)]),
    )
    .finalize();

    assert_eq!(none.formatted(), "a=$1 and b=$2");
    assert_eq!(none.params().len(), 0);
    assert_eq!(many.formatted(), "a=$1");
    assert_eq!(many.params().len(), 3);
}

#[test]
fn finalize_numbers_across_appended_fragments() {
    let sql = Sql::new("a=? AND b=?", Some(&mut [Value::Integer(1), Value::Integer(2)]))
        .append(Sql::new("OR c=?", Some(&mut [Value::Integer(3)])))
        .append(Sql::new("LIMIT 1", None))
        .append(Sql::new("OFFSET ?", Some(&mut [Value::Integer(4)])));

    let done = sql.finalize();

    assert_eq!(done.formatted(), "a=$1 AND b=$2 OR c=$3 LIMIT 1 OFFSET $4");
    assert_eq!(
        done.params(),
        vec![
            Value::Integer(1),
            Value::Integer(2),
            Value::Integer(3),
            Value::Integer(4)
        ]
    );
}

#[test]
fn formatted_is_empty_before_finalize() {
    let sql = Sql::new("a=?", Some(&mut [Value::Integer(1)]));

    assert_eq!(sql.formatted(), "");
    assert_eq!(sql.append(Sql::new("b=?", None)).formatted(), "");
}

#[test]
fn try_finalize_finalizes_a_balanced_fragment() {
    let sql = Sql::new(
        "a=? and b=?",
        Some(&mut [Value::Integer(1), Value::Boolean(true)]),
    );

    let done = sql.try_finalize().unwrap();

    assert_eq!(done.formatted(), "a=$1 and b=$2");
    assert_eq!(done.query(), "a=? and b=?");
    assert_eq!(done.params(), vec![Value::Integer(1), Value::Boolean(true)]);
}

#[test]
fn try_finalize_finalizes_a_fragment_without_markers_and_parameters() {
    let done = Sql::new("SELECT 1", None).try_finalize().unwrap();

    assert_eq!(done.formatted(), "SELECT 1");
}

#[test]
fn try_finalize_refuses_markers_without_parameters() {
    let sql = Sql::new("a=? and b=?", Some(&mut [Value::Integer(1)]));

    assert_eq!(
        sql.try_finalize().unwrap_err(),
        SqlError::CountMismatch { markers: 2, params: 1 }
    );
}

#[test]
fn try_finalize_refuses_parameters_without_markers() {
    let sql = Sql::new("a=1", Some(&mut [Value::Integer(1)]));

    assert_eq!(
        sql.try_finalize().unwrap_err(),
        SqlError::CountMismatch { markers: 0, params: 1 }
    );
}

#[test]
fn count_markers_counts_every_question_mark() {
    assert_eq!(count_markers(""), 0);
    assert_eq!(count_markers("SELECT 1"), 0);
    assert_eq!(count_markers("?"), 1);
    assert_eq!(count_markers("a=? and b=?"), 2);
    assert_eq!(count_markers("??é?"), 3);
    assert_eq!(count_markers(&"?".repeat(300)), 300);
}
