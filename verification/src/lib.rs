//! Parameterized SQL, put together from fragments.
//!
//! A [`sql::Sql`] holds a piece of SQL text and the values for the
//! placeholders in it; values never become part of the text. This file holds
//! the operators of filter expressions and the table that gives the SQL text
//! for those that have one.

pub mod placeholder;
pub mod sql;
pub mod strings;
pub mod value;

use crate::sql::{Sql, SqlView};
use vstd::prelude::*;

verus! {

/// The connector that negates the filter term after it.
pub const NOT_OPERATOR: char = '!';

/// The connector that holds when either of the two terms after it holds.
pub const OR_OPERATOR: char = '|';

/// The connector that holds when both of the two terms after it hold.
pub const AND_OPERATOR: char = '&';

/// The connectors of filter expressions.
pub open spec fn domain_operators() -> Seq<char> {
    seq![NOT_OPERATOR, OR_OPERATOR, AND_OPERATOR]
}

/// The tokens of the operators that a filter term can hold.
pub open spec fn term_operators() -> Seq<Seq<char>> {
    seq![
        "="@,
        "!="@,
        "<="@,
        "<"@,
        ">"@,
        ">="@,
        "=?"@,
        "=like"@,
        "=ilike"@,
        "like"@,
        "not like"@,
        "ilike"@,
        "not ilike"@,
        "in"@,
        "not in"@,
        "child_of"@,
        "parent_of"@,
        "any"@,
        "not any"@,
    ]
}

/// The tokens of the term operators that are the negative form of another.
pub open spec fn negative_term_operators() -> Seq<Seq<char>> {
    seq!["!="@, "not like"@, "not ilike"@, "not in"@]
}

/// Whether one of `tokens` is `token`, character by character.
fn among(tokens: &[&str], token: &str) -> (found: bool)
    ensures
        found == exists|i: int| 0 <= i < tokens@.len() && (#[trigger] tokens@[i])@ == token@,
{
    let mut i: usize = 0;
    while i < tokens.len()
        invariant
            i <= tokens@.len(),
            forall|j: int| 0 <= j < i ==> (#[trigger] tokens@[j])@ != token@,
        decreases tokens@.len() - i,
    {
        if tokens[i].eq(token) {
            return true;
        }
        i = i + 1;
    }
    false
}

/// Whether `c` is one of the connectors of filter expressions.
pub fn is_domain_operator(c: char) -> (known: bool)
    ensures
        known == domain_operators().contains(c),
{
    c == NOT_OPERATOR || c == OR_OPERATOR || c == AND_OPERATOR
}

/// Whether `token` is the token of a term operator.
pub fn is_term_operator(token: &str) -> (known: bool)
    ensures
        known == term_operators().contains(token@),
{
    let tokens = [
        "=",
        "!=",
        "<=",
        "<",
        ">",
        ">=",
        "=?",
        "=like",
        "=ilike",
        "like",
        "not like",
        "ilike",
        "not ilike",
        "in",
        "not in",
        "child_of",
        "parent_of",
        "any",
        "not any",
    ];
    among(tokens.as_slice(), token)
}

/// Whether `token` is the token of a term operator that is the negative form
/// of another.
pub fn is_negative_term_operator(token: &str) -> (negative: bool)
    ensures
        negative == negative_term_operators().contains(token@),
{
    let tokens = ["!=", "not like", "not ilike", "not in"];
    among(tokens.as_slice(), token)
}

/// The rows of the operator table: the token of a filter operator and the SQL
/// text to write for it.
pub open spec fn operator_table() -> Seq<(Seq<char>, Seq<char>)> {
    seq![
        ("="@, "="@),
        ("!="@, "!="@),
        ("<="@, "<="@),
        ("<"@, "<"@),
        (">"@, ">"@),
        (">="@, ">="@),
        ("in"@, "IN"@),
        ("not in"@, "NOT IN"@),
        ("=like"@, "LIKE"@),
        ("=ilike"@, "ILIKE"@),
        ("like"@, "LIKE"@),
        ("ilike"@, "ILIKE"@),
        ("not like"@, "NOT LIKE"@),
        ("not ilike"@, "NOT ILIKE"@),
    ]
}

/// The text of the first of `rows` whose token is `token`, if there is one.
pub open spec fn first_match(rows: Seq<(Seq<char>, Seq<char>)>, token: Seq<char>) -> Option<
    Seq<char>,
>
    decreases rows.len(),
{
    if rows.len() == 0 {
        None
    } else if rows[0].0 == token {
        Some(rows[0].1)
    } else {
        first_match(rows.drop_first(), token)
    }
}

/// The SQL text for the filter operator `token`; none for a token that the
/// table does not hold. Tokens are compared character by character.
pub open spec fn sql_operator(token: Seq<char>) -> Option<Seq<char>> {
    first_match(operator_table(), token)
}

/// The operator table, row by row: a fragment without parameters for each
/// filter operator that has SQL text.
pub fn sql_operators() -> (table: Vec<(&'static str, Sql)>)
    ensures
        table@.len() == operator_table().len(),
        forall|i: int|
            0 <= i < table@.len() ==> (#[trigger] table@[i]).0@ == operator_table()[i].0,
        forall|i: int|
            0 <= i < table@.len() ==> (#[trigger] table@[i]).1@ == SqlView::new(
                operator_table()[i].1,
                Seq::empty(),
            ),
{
    let mut table: Vec<(&'static str, Sql)> = Vec::new();
    table.push(("=", Sql::new("=", None)));
    table.push(("!=", Sql::new("!=", None)));
    table.push(("<=", Sql::new("<=", None)));
    table.push(("<", Sql::new("<", None)));
    table.push((">", Sql::new(">", None)));
    table.push((">=", Sql::new(">=", None)));
    table.push(("in", Sql::new("IN", None)));
    table.push(("not in", Sql::new("NOT IN", None)));
    table.push(("=like", Sql::new("LIKE", None)));
    table.push(("=ilike", Sql::new("ILIKE", None)));
    table.push(("like", Sql::new("LIKE", None)));
    table.push(("ilike", Sql::new("ILIKE", None)));
    table.push(("not like", Sql::new("NOT LIKE", None)));
    table.push(("not ilike", Sql::new("NOT ILIKE", None)));
    table
}

/// Looks `token` up in the operator table.
pub fn lookup(token: &str) -> (found: Option<Sql>)
    ensures
        (match sql_operator(token@) {
            Some(text) => found matches Some(sql) && sql@ == SqlView::new(text, Seq::empty()),
            None => found is None,
        }),
{
    let mut table = sql_operators();
    let ghost rows = operator_table();
    let mut found: Option<Sql> = None;
    while table.len() > 0
        invariant
            table@.len() <= rows.len(),
            forall|i: int| 0 <= i < table@.len() ==> (#[trigger] table@[i]).0@ == rows[i].0,
            forall|i: int|
                0 <= i < table@.len() ==> (#[trigger] table@[i]).1@ == SqlView::new(
                    rows[i].1,
                    Seq::empty(),
                ),
            match first_match(rows.skip(table@.len() as int), token@) {
                Some(text) => found matches Some(sql) && sql@ == SqlView::new(text, Seq::empty()),
                None => found is None,
            },
        decreases table@.len(),
    {
        let (name, sql) = table.pop().unwrap();
        proof {
            let rest = rows.skip(table@.len() as int);
            assert(rest.drop_first() =~= rows.skip(table@.len() as int + 1));
        }
        if name.eq(token) {
            found = Some(sql);
        }
    }
    assert(rows.skip(0) =~= rows);
    found
}

/// What a search of `rows` for `token` finds is the text of the first row
/// with that token, and it finds nothing only where no row has it.
pub proof fn lemma_first_match(rows: Seq<(Seq<char>, Seq<char>)>, token: Seq<char>)
    ensures
        (match first_match(rows, token) {
            Some(text) => exists|i: int|
                {
                    &&& 0 <= i < rows.len()
                    &&& #[trigger] rows[i] == (token, text)
                    &&& forall|j: int| 0 <= j < i ==> (#[trigger] rows[j]).0 != token
                },
            None => forall|i: int| 0 <= i < rows.len() ==> (#[trigger] rows[i]).0 != token,
        }),
    decreases rows.len(),
{
    if rows.len() > 0 && rows[0].0 != token {
        let rest = rows.drop_first();
        lemma_first_match(rest, token);
        match first_match(rest, token) {
            Some(text) => {
                let i = choose|i: int|
                    {
                        &&& 0 <= i < rest.len()
                        &&& #[trigger] rest[i] == (token, text)
                        &&& forall|j: int| 0 <= j < i ==> (#[trigger] rest[j]).0 != token
                    };
                assert forall|j: int| 0 <= j < i + 1 implies (#[trigger] rows[j]).0 != token by {
                    if j > 0 {
                        assert(rest[j - 1] == rows[j]);
                    }
                }
            },
            None => {
                assert forall|i: int| 0 <= i < rows.len() implies (#[trigger] rows[i]).0
                    != token by {
                    if i > 0 {
                        assert(rest[i - 1] == rows[i]);
                    }
                }
            },
        }
    }
}

/// No token stands in two rows of the operator table.
pub proof fn lemma_operator_tokens_distinct()
    ensures
        forall|i: int, j: int|
            0 <= i < j < operator_table().len() ==> (#[trigger] operator_table()[i]).0 != (
            #[trigger] operator_table()[j]).0,
{
    reveal_strlit("=");
    reveal_strlit("!=");
    reveal_strlit("<=");
    reveal_strlit("<");
    reveal_strlit(">");
    reveal_strlit(">=");
    reveal_strlit("in");
    reveal_strlit("not in");
    reveal_strlit("=like");
    reveal_strlit("=ilike");
    reveal_strlit("like");
    reveal_strlit("ilike");
    reveal_strlit("not like");
    reveal_strlit("not ilike");
    let rows = operator_table();
    assert forall|i: int, j: int| 0 <= i < j < rows.len() implies (#[trigger] rows[i]).0 != (
    #[trigger] rows[j]).0 by {
        let a = rows[i].0;
        let b = rows[j].0;
        assert(a.len() != b.len() || a[0] != b[0]);
    }
}

/// The table gives a token the text `text` exactly where one of its rows is
/// that token with that text.
pub proof fn lemma_sql_operator_row(token: Seq<char>, text: Seq<char>)
    ensures
        sql_operator(token) == Some(text) <==> operator_table().contains((token, text)),
{
    let rows = operator_table();
    lemma_first_match(rows, token);
    lemma_operator_tokens_distinct();
}

/// Every token of the operator table is the token of a term operator.
pub proof fn lemma_sql_operators_are_term_operators()
    ensures
        forall|token: Seq<char>| #[trigger]
            sql_operator(token) is Some ==> term_operators().contains(token),
{
    let rows = operator_table();
    let all = term_operators();
    assert forall|token: Seq<char>| #[trigger] sql_operator(token) is Some implies all.contains(
        token,
    ) by {
        lemma_first_match(rows, token);
        let text = sql_operator(token)->Some_0;
        let i = choose|i: int|
            {
                &&& 0 <= i < rows.len()
                &&& #[trigger] rows[i] == (token, text)
                &&& forall|j: int| 0 <= j < i ==> (#[trigger] rows[j]).0 != token
            };
        assert(rows[i].0 == token);
        let to: Seq<int> = seq![0, 1, 2, 3, 4, 5, 13, 14, 7, 8, 9, 11, 10, 12];
        assert(all[to[i]] == token);
    }
}

/// Every negative term operator is a term operator, and the operator table
/// has SQL text for it.
pub proof fn lemma_negative_operators_have_sql_text()
    ensures
        forall|token: Seq<char>| #[trigger]
            negative_term_operators().contains(token) ==> term_operators().contains(token)
                && sql_operator(token) is Some,
{
    let rows = operator_table();
    let all = term_operators();
    let negative = negative_term_operators();
    assert forall|token: Seq<char>| #[trigger] negative.contains(token) implies all.contains(token)
        && sql_operator(token) is Some by {
        let i = choose|i: int| 0 <= i < negative.len() && negative[i] == token;
        let in_all: Seq<int> = seq![1, 10, 12, 14];
        let in_rows: Seq<int> = seq![1, 12, 13, 7];
        assert(all[in_all[i]] == token);
        assert(rows[in_rows[i]].0 == token);
        lemma_first_match(rows, token);
    }
}

} // verus!
