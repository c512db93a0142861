//! Fragments of SQL: text with placeholders, and the values for them.
//!
//! A statement is put together from fragments with [`Sql::append`] and then
//! brought into its final form with [`Sql::finalize`]. What the operations do
//! is stated over [`SqlView`], and the laws at the end of the file are proved
//! from those statements.

use crate::placeholder::{
    char_limit, count_markers, lemma_marker_count_concat, lemma_marker_count_push,
    lemma_numbered_from_concat, marker_count, numbered, numbered_from, position, push_reference,
    MARKER,
};
use crate::value::{Value, ValueView};
use vstd::prelude::*;

verus! {

/// A piece of SQL text together with the values for its placeholders.
///
/// The text holds a `?` wherever a value belongs; the values themselves never
/// become part of the text. Fragments are joined with [`Sql::append`], and the
/// whole statement is brought into the form that a query engine takes with
/// [`Sql::finalize`]. A `?` cannot be escaped: each one is a placeholder.
#[derive(Debug)]
pub struct Sql {
    fragment: String,
    params: Vec<Value>,
    formatted: String,
}

/// What a [`Sql`] stands for.
pub struct SqlView {
    /// The text, with a marker wherever a parameter belongs.
    pub text: Seq<char>,
    /// The parameters, in the order of the markers they belong to.
    pub params: Seq<ValueView>,
    /// The text in its final form; empty until the fragment is finalized.
    pub formatted: Seq<char>,
}

/// The values that a sequence of parameters stands for, one by one.
pub open spec fn views(values: Seq<Value>) -> Seq<ValueView> {
    values.map_values(|v: Value| v@)
}

impl SqlView {
    /// A fresh fragment: the given text and parameters, nothing finalized.
    pub open spec fn new(text: Seq<char>, params: Seq<ValueView>) -> SqlView {
        SqlView { text, params, formatted: Seq::empty() }
    }

    /// `self` followed by `other`: the two texts with one space between them,
    /// and the parameters of `self` followed by those of `other`.
    pub open spec fn append(self, other: SqlView) -> SqlView {
        SqlView {
            text: self.text + seq![' '] + other.text,
            params: self.params + other.params,
            formatted: self.formatted,
        }
    }

    /// `self` with its final form filled in: the text with each marker
    /// replaced by the reference to its position.
    pub open spec fn finalize(self) -> SqlView {
        SqlView { text: self.text, params: self.params, formatted: numbered(self.text) }
    }

    /// Whether the text holds exactly one marker for each parameter.
    pub open spec fn balanced(self) -> bool {
        marker_count(self.text) == self.params.len()
    }
}

/// Why a fragment was not finalized.
#[derive(Clone, Copy, Debug, PartialEq, Eq)]
pub enum SqlError {
    /// The text holds `markers` markers, but there are `params` parameters.
    CountMismatch { markers: usize, params: usize },
}

impl View for Sql {
    type V = SqlView;

    closed spec fn view(&self) -> SqlView {
        SqlView { text: self.fragment@, params: views(self.params@), formatted: self.formatted@ }
    }
}

impl Sql {
    /// A fragment with the text `fragment` and copies of the given
    /// parameters, in their order; without parameters where none are given.
    /// Nothing is asked of the number of markers in the text. The slice is
    /// left as it was.
    pub fn new(fragment: &str, params: Option<&mut [Value]>) -> (sql: Sql)
        ensures
            sql@ == SqlView::new(
                fragment@,
                (match params {
                    Some(values) => views(values@),
                    None => Seq::empty(),
                }),
            ),
            params matches Some(values) ==> final(values)@ == values@,
    {
        let mut owned: Vec<Value> = Vec::new();
        match params {
            Some(values) => {
                let n = values.len();
                let mut i: usize = 0;
                while i < n
                    invariant
                        n == values@.len(),
                        i <= n,
                        owned@ == values@.take(i as int),
                    decreases n - i,
                {
                    owned.push(values[i].clone());
                    i = i + 1;
                }
                assert(values@.take(n as int) =~= values@);
            },
            None => {
                assert(views(owned@) =~= Seq::empty());
            },
        }
        Sql { fragment: fragment.to_owned(), params: owned, formatted: String::new() }
    }

    /// Adds `sql` to the end of this fragment: its text after one space, its
    /// parameters after those that are already there. What was finalized of
    /// this fragment stays as it is; it is not brought up to date.
    pub fn append(self, sql: Sql) -> (joined: Sql)
        ensures
            joined@ == self@.append(sql@),
    {
        let mut fragment = self.fragment;
        let mut params = self.params;
        let mut more = sql.params;
        fragment.push(' ');
        fragment.append(sql.fragment.as_str());
        params.append(&mut more);
        assert(fragment@ =~= self@.text + seq![' '] + sql@.text);
        assert(views(params@) =~= self@.params + sql@.params);
        Sql { fragment, params, formatted: self.formatted }
    }

    /// The text of the fragment, markers and all.
    pub fn query(&self) -> (text: String)
        ensures
            text@ == self@.text,
    {
        self.fragment.clone()
    }

    /// A copy of the parameters, in their order.
    pub fn params(&self) -> (values: Vec<Value>)
        ensures
            views(values@) == self@.params,
    {
        let values = self.params.clone();
        values
    }

    /// The text in its final form; empty as long as the fragment has not been
    /// finalized.
    pub fn formatted(&self) -> (text: String)
        ensures
            text@ == self@.formatted,
    {
        self.formatted.clone()
    }

    /// `arg` between double quotes, for a name of a table or a column. A
    /// double quote inside `arg` is not escaped.
    pub fn identifier(arg: &str) -> (quoted: String)
        ensures
            quoted@ == seq!['"'] + arg@ + seq!['"'],
    {
        let mut quoted = String::new();
        quoted.push('"');
        quoted.append(arg);
        quoted.push('"');
        quoted
    }

    /// Fills in the final form of the fragment: its text with each `?`
    /// replaced by `$` and the position of the marker, counted from 1 and
    /// from the left, and every other character as it is. Text and
    /// parameters stay as they are, whether or not there is a parameter for
    /// each marker.
    pub fn finalize(self) -> (done: Sql)
        ensures
            done@ == self@.finalize(),
    {
        let ghost text = self.fragment@;
        let mut out = String::new();
        let mut seen: usize = 0;
        let limit = char_limit(self.fragment.as_str());
        for ch in it: self.fragment.as_str().chars()
            invariant
                text == self.fragment@,
                text.len() <= limit,
                it.seq() == text,
                seen == marker_count(text.take(it.index() as int)),
                out@ == numbered(text.take(it.index() as int)),
        {
            proof {
                let done = text.take(it.index() as int);
                let next = text.take(it.index() + 1);
                assert(next =~= done.push(ch));
                assert(next.drop_last() =~= done);
                lemma_marker_count_push(done, ch);
            }
            if ch == MARKER {
                seen = seen + 1;
                push_reference(&mut out, seen);
            } else {
                out.push(ch);
            }
        }
        assert(text.take(text.len() as int) =~= text);
        Sql { fragment: self.fragment, params: self.params, formatted: out }
    }

    /// Finalizes the fragment if its text holds exactly one marker for each
    /// parameter, and says how the two counts differ if it does not.
    pub fn try_finalize(self) -> (result: Result<Sql, SqlError>)
        ensures
            (match result {
                Ok(done) => self@.balanced() && done@ == self@.finalize(),
                Err(SqlError::CountMismatch { markers, params }) => {
                    &&& !self@.balanced()
                    &&& markers == marker_count(self@.text)
                    &&& params == self@.params.len()
                },
            }),
    {
        let markers = count_markers(self.fragment.as_str());
        let params = self.params.len();
        if markers == params {
            Ok(self.finalize())
        } else {
            Err(SqlError::CountMismatch { markers, params })
        }
    }
}

impl Clone for Sql {
    /// The copy stands for the same fragment as `self`.
    fn clone(&self) -> (copy: Sql)
        ensures
            copy@ == self@,
    {
        let params = self.params.clone();
        Sql { fragment: self.fragment.clone(), params, formatted: self.formatted.clone() }
    }
}

/// Appending keeps every parameter of both fragments, those of the first
/// before those of the second, in the order they had, and adds none.
pub proof fn lemma_append_params(
    a: Seq<char>,
    pa: Seq<ValueView>,
    b: Seq<char>,
    pb: Seq<ValueView>,
)
    ensures
        SqlView::new(a, pa).append(SqlView::new(b, pb)).params == pa + pb,
{
}

/// Appending writes the two texts one after the other with exactly one space
/// between them.
pub proof fn lemma_append_text(a: Seq<char>, pa: Seq<ValueView>, b: Seq<char>, pb: Seq<ValueView>)
    ensures
        SqlView::new(a, pa).append(SqlView::new(b, pb)).text == a + seq![' '] + b,
        SqlView::new(a, pa).append(SqlView::new(b, pb)).text.len() == a.len() + 1 + b.len(),
        SqlView::new(a, pa).append(SqlView::new(b, pb)).text[a.len() as int] == ' ',
{
}

/// The fragment made from the empty text holds neither text nor parameters,
/// and appending it on either side changes a fragment by the separating
/// space alone.
pub proof fn lemma_append_empty(other: SqlView)
    ensures
        SqlView::new(Seq::empty(), Seq::empty()).text.len() == 0,
        SqlView::new(Seq::empty(), Seq::empty()).params.len() == 0,
        SqlView::new(Seq::empty(), Seq::empty()).append(other).text == seq![' '] + other.text,
        SqlView::new(Seq::empty(), Seq::empty()).append(other).params == other.params,
        other.append(SqlView::new(Seq::empty(), Seq::empty())).text == other.text.push(' '),
        other.append(SqlView::new(Seq::empty(), Seq::empty())).params == other.params,
{
}

/// `text` without the spaces at its start.
pub open spec fn trim_start(text: Seq<char>) -> Seq<char>
    decreases text.len(),
{
    if text.len() > 0 && text.first() == ' ' {
        trim_start(text.drop_first())
    } else {
        text
    }
}

/// `text` without the spaces at its end.
pub open spec fn trim_end(text: Seq<char>) -> Seq<char>
    decreases text.len(),
{
    if text.len() > 0 && text.last() == ' ' {
        trim_end(text.drop_last())
    } else {
        text
    }
}

/// `text` without the spaces at its start and at its end.
pub open spec fn trimmed(text: Seq<char>) -> Seq<char> {
    trim_end(trim_start(text))
}

/// A space written after a text is gone once the text is trimmed.
proof fn lemma_trimmed_push_space(text: Seq<char>)
    ensures
        trimmed(text.push(' ')) == trimmed(text),
    decreases text.len(),
{
    let longer = text.push(' ');
    if text.len() > 0 && text.first() == ' ' {
        assert(longer.drop_first() =~= text.drop_first().push(' '));
        lemma_trimmed_push_space(text.drop_first());
    } else if text.len() > 0 {
        assert(longer.drop_last() =~= text);
    } else {
        assert(longer.drop_first() =~= text);
    }
}

/// Up to the spaces at its ends, a fragment's text is what it was after the
/// fragment made from the empty text has been appended on either side, and
/// its parameters are what they were.
pub proof fn lemma_append_empty_trimmed(other: SqlView)
    ensures
        trimmed(SqlView::new(Seq::empty(), Seq::empty()).append(other).text) == trimmed(
            other.text,
        ),
        trimmed(other.append(SqlView::new(Seq::empty(), Seq::empty())).text) == trimmed(
            other.text,
        ),
        SqlView::new(Seq::empty(), Seq::empty()).append(other).params == other.params,
        other.append(SqlView::new(Seq::empty(), Seq::empty())).params == other.params,
{
    let empty = SqlView::new(Seq::empty(), Seq::empty());
    let before = empty.append(other).text;
    assert(before.drop_first() =~= other.text);
    assert(other.append(empty).text =~= other.text.push(' '));
    lemma_trimmed_push_space(other.text);
}

/// Appending three fragments gives the same whichever two are joined first.
pub proof fn lemma_append_associative(x: SqlView, y: SqlView, z: SqlView)
    ensures
        x.append(y).append(z) == x.append(y.append(z)),
{
    assert(x.append(y).append(z).text =~= x.append(y.append(z)).text);
    assert(x.append(y).append(z).params =~= x.append(y.append(z)).params);
}

/// Finalizing changes neither the text nor the parameters, and finalizing
/// again changes nothing at all.
pub proof fn lemma_finalize_idempotent(x: SqlView)
    ensures
        x.finalize().text == x.text,
        x.finalize().params == x.params,
        x.finalize().finalize() == x.finalize(),
{
}

/// Two fragments that each hold one marker for each parameter make, appended,
/// a fragment that does so too.
pub proof fn lemma_append_balanced(x: SqlView, y: SqlView)
    requires
        x.balanced(),
        y.balanced(),
    ensures
        x.append(y).balanced(),
{
    lemma_marker_count_concat(x.text.push(' '), y.text);
    lemma_marker_count_push(x.text, ' ');
    assert(x.text + seq![' '] =~= x.text.push(' '));
}

/// The markers of an appended fragment stay with their parameters: where the
/// first fragment holds one marker for each of its parameters, the second
/// one's markers are numbered after the parameters of the first, which is
/// where its own parameters stand in the joined list.
pub proof fn lemma_append_tracks_params(x: SqlView, y: SqlView)
    requires
        x.balanced(),
    ensures
        x.append(y).finalize().formatted == numbered(x.text) + seq![' '] + numbered_from(
            y.text,
            x.params.len(),
        ),
        forall|k: int|
            0 <= k < y.params.len() ==> x.append(y).params[x.params.len() + k] == y.params[k],
{
    let head = x.text + seq![' '];
    lemma_numbered_from_concat(head, y.text, 0);
    lemma_numbered_from_concat(x.text, seq![' '], 0);
    lemma_marker_count_push(Seq::empty(), ' ');
    reveal_with_fuel(numbered_from, 2);
}

/// In a fragment with one marker for each parameter, the position that a
/// marker is numbered with is the position of a parameter: it lies between 1
/// and the number of parameters.
pub proof fn lemma_balanced_positions(x: SqlView, i: int)
    requires
        x.balanced(),
        0 <= i < x.text.len(),
        x.text[i] == MARKER,
    ensures
        1 <= position(x.text, i) <= x.params.len(),
{
    let upto = x.text.take(i + 1);
    assert(upto =~= x.text.take(i).push(MARKER));
    lemma_marker_count_push(x.text.take(i), MARKER);
    assert(x.text =~= upto + x.text.skip(i + 1));
    lemma_marker_count_concat(upto, x.text.skip(i + 1));
}

/// Reading a fragment twice gives the same both times: what `query` and
/// `params` hand out is fixed by the fragment, which they leave as it is.
pub proof fn lemma_reads_repeat(
    sql: Sql,
    first_text: String,
    second_text: String,
    first_params: Vec<Value>,
    second_params: Vec<Value>,
)
    requires
        first_text@ == sql@.text,
        second_text@ == sql@.text,
        views(first_params@) == sql@.params,
        views(second_params@) == sql@.params,
    ensures
        first_text@ == second_text@,
        views(first_params@) == views(second_params@),
{
}

} // verus!
