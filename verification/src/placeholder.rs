//! Placeholders: the marker that stands for a parameter in the text of a
//! fragment, and the numbered references that take its place when the
//! fragment is finalized.

use vstd::prelude::*;
use vstd::utf8::encode_utf8;

verus! {

/// The character that stands for a parameter in the text of a fragment.
pub const MARKER: char = '?';

/// The character that opens a positional reference.
pub const PREFIX: char = '$';

/// How many markers `text` holds.
pub open spec fn marker_count(text: Seq<char>) -> nat {
    text.filter(|c: char| c == MARKER).len()
}

/// The character for the decimal digit `d`.
pub open spec fn digit(d: nat) -> char
    recommends
        d < 10,
{
    seq!['0', '1', '2', '3', '4', '5', '6', '7', '8', '9'][d as int]
}

/// `n` written in base ten, most significant digit first, without leading
/// zeros.
pub open spec fn decimal(n: nat) -> Seq<char>
    decreases n,
{
    if n < 10 {
        seq![digit(n)]
    } else {
        decimal(n / 10).push(digit(n % 10))
    }
}

/// The position of the marker at index `i` of `text`: one more than the
/// number of markers to its left.
pub open spec fn position(text: Seq<char>, i: int) -> nat
    recommends
        0 <= i < text.len(),
        text[i] == MARKER,
{
    marker_count(text.take(i)) + 1
}

/// The positional reference to the parameter at `position`, counted from 1.
pub open spec fn reference(position: nat) -> Seq<char> {
    seq![PREFIX] + decimal(position)
}

/// `text` with every marker replaced by the reference to its position, where
/// `before` markers stand to the left of `text`. The first marker of `text`
/// becomes the reference to `before + 1`, the next one to `before + 2`, and so
/// on; every other character stays as it is.
pub open spec fn numbered_from(text: Seq<char>, before: nat) -> Seq<char>
    decreases text.len(),
{
    if text.len() == 0 {
        Seq::empty()
    } else if text.last() == MARKER {
        numbered_from(text.drop_last(), before) + reference(before + marker_count(text))
    } else {
        numbered_from(text.drop_last(), before).push(text.last())
    }
}

/// `text` with every marker replaced by the reference to its position, the
/// leftmost marker being the first.
pub open spec fn numbered(text: Seq<char>) -> Seq<char> {
    numbered_from(text, 0)
}

/// Counting markers goes character by character: a marker at the end adds
/// one, any other character adds nothing.
pub proof fn lemma_marker_count_push(text: Seq<char>, c: char)
    ensures
        c == MARKER ==> marker_count(text.push(c)) == marker_count(text) + 1,
        c != MARKER ==> marker_count(text.push(c)) == marker_count(text),
{
    reveal(Seq::filter);
    assert(text.push(c).drop_last() =~= text);
}

/// The markers of two texts written one after the other are those of the
/// first and those of the second.
pub proof fn lemma_marker_count_concat(a: Seq<char>, b: Seq<char>)
    ensures
        marker_count(a + b) == marker_count(a) + marker_count(b),
{
    Seq::filter_distributes_over_add(a, b, |c: char| c == MARKER);
}

/// Numbering goes through a text piece by piece: the second of two pieces
/// written one after the other is numbered as if the markers of the first
/// stood before it.
pub proof fn lemma_numbered_from_concat(a: Seq<char>, b: Seq<char>, before: nat)
    ensures
        numbered_from(a + b, before) == numbered_from(a, before) + numbered_from(
            b,
            before + marker_count(a),
        ),
    decreases b.len(),
{
    if b.len() > 0 {
        assert((a + b).drop_last() =~= a + b.drop_last());
        lemma_numbered_from_concat(a, b.drop_last(), before);
    }
}

/// A text without markers counts none.
pub proof fn lemma_marker_count_without_markers(text: Seq<char>)
    requires
        !text.contains(MARKER),
    ensures
        marker_count(text) == 0,
    decreases text.len(),
{
    if text.len() > 0 {
        assert(text.drop_last().push(text.last()) =~= text);
        lemma_marker_count_without_markers(text.drop_last());
        lemma_marker_count_push(text.drop_last(), text.last());
    }
}

/// The leftmost marker has position 1.
pub proof fn lemma_first_position(text: Seq<char>, i: int)
    requires
        0 <= i < text.len(),
        text[i] == MARKER,
        forall|k: int| 0 <= k < i ==> text[k] != MARKER,
    ensures
        position(text, i) == 1,
{
    lemma_marker_count_without_markers(text.take(i));
}

/// From a marker to the next one the position goes up by exactly one.
pub proof fn lemma_next_position(text: Seq<char>, i: int, j: int)
    requires
        0 <= i < j < text.len(),
        text[i] == MARKER,
        text[j] == MARKER,
        forall|k: int| i < k < j ==> text[k] != MARKER,
    ensures
        position(text, j) == position(text, i) + 1,
{
    let between = text.subrange(i + 1, j);
    assert(text.take(j) =~= text.take(i).push(MARKER) + between);
    lemma_marker_count_concat(text.take(i).push(MARKER), between);
    lemma_marker_count_push(text.take(i), MARKER);
    lemma_marker_count_without_markers(between);
}

/// The marker at index `i` becomes the reference to its position; what stands
/// to its left is numbered as if it stood alone, and what stands to its right
/// is numbered after it.
pub proof fn lemma_marker_becomes_reference(text: Seq<char>, i: int)
    requires
        0 <= i < text.len(),
        text[i] == MARKER,
    ensures
        numbered(text) == numbered(text.take(i)) + reference(position(text, i)) + numbered_from(
            text.skip(i + 1),
            position(text, i),
        ),
{
    let left = text.take(i);
    let here = seq![MARKER];
    let right = text.skip(i + 1);
    assert(text =~= left + here + right);
    lemma_numbered_from_concat(left + here, right, 0);
    lemma_numbered_from_concat(left, here, 0);
    lemma_marker_count_push(Seq::empty(), MARKER);
    reveal_with_fuel(numbered_from, 2);
}

/// A character that is no marker comes out as it went in, at the place that
/// the numbering of what stands to its left leaves for it; and the markers to
/// its right are numbered as if it were not there.
pub proof fn lemma_other_character_stays(text: Seq<char>, i: int)
    requires
        0 <= i < text.len(),
        text[i] != MARKER,
    ensures
        numbered(text) == numbered(text.take(i)).push(text[i]) + numbered_from(
            text.skip(i + 1),
            marker_count(text.take(i)),
        ),
        numbered(text)[numbered(text.take(i)).len() as int] == text[i],
{
    let left = text.take(i);
    let here = seq![text[i]];
    let right = text.skip(i + 1);
    assert(text =~= left + here + right);
    lemma_numbered_from_concat(left + here, right, 0);
    lemma_numbered_from_concat(left, here, 0);
    lemma_marker_count_push(Seq::empty(), text[i]);
    reveal_with_fuel(numbered_from, 2);
}

/// A text without markers is its own numbering.
pub proof fn lemma_numbered_without_markers(text: Seq<char>, before: nat)
    requires
        !text.contains(MARKER),
    ensures
        numbered_from(text, before) == text,
    decreases text.len(),
{
    if text.len() > 0 {
        lemma_numbered_without_markers(text.drop_last(), before);
    }
}

/// The number that the digit character `c` stands for.
pub open spec fn digit_value(c: char) -> nat
    recommends
        '0' <= c <= '9',
{
    (c as u32 - '0' as u32) as nat
}

/// The number that `digits` spell in base ten.
pub open spec fn decimal_value(digits: Seq<char>) -> nat
    decreases digits.len(),
{
    if digits.len() == 0 {
        0
    } else {
        decimal_value(digits.drop_last()) * 10 + digit_value(digits.last())
    }
}

/// What `decimal` writes is made of digits alone, at least one of them, and
/// starts with a zero only for zero itself.
pub proof fn lemma_decimal_digits(n: nat)
    ensures
        decimal(n).len() >= 1,
        forall|j: int| 0 <= j < decimal(n).len() ==> '0' <= #[trigger] decimal(n)[j] <= '9',
        n > 0 ==> decimal(n)[0] != '0',
    decreases n,
{
    if n >= 10 {
        lemma_decimal_digits(n / 10);
    }
}

/// What `decimal` writes for a number spells that number.
pub proof fn lemma_decimal_reads_back(n: nat)
    ensures
        decimal_value(decimal(n)) == n,
    decreases n,
{
    if n < 10 {
        reveal_with_fuel(decimal_value, 2);
    } else {
        lemma_decimal_reads_back(n / 10);
        assert(decimal(n).drop_last() =~= decimal(n / 10));
    }
}

/// Two positions with the same reference are the same position.
pub proof fn lemma_reference_names_one_position(a: nat, b: nat)
    requires
        reference(a) == reference(b),
    ensures
        a == b,
{
    assert(reference(a).skip(1) =~= decimal(a));
    assert(reference(b).skip(1) =~= decimal(b));
    lemma_decimal_reads_back(a);
    lemma_decimal_reads_back(b);
}

/// No marker is left in a numbered text.
pub proof fn lemma_numbered_has_no_marker(text: Seq<char>, before: nat)
    ensures
        !numbered_from(text, before).contains(MARKER),
    decreases text.len(),
{
    if text.len() > 0 {
        lemma_numbered_has_no_marker(text.drop_last(), before);
        lemma_decimal_digits(before + marker_count(text));
    }
}

/// A text has at most as many characters as its UTF-8 encoding has bytes.
pub proof fn lemma_chars_within_bytes(text: Seq<char>)
    ensures
        text.len() <= encode_utf8(text).len(),
    decreases text.len(),
{
    if text.len() > 0 {
        lemma_chars_within_bytes(text.drop_first());
    }
}

/// An upper bound on the number of characters of `text`, in constant time.
pub(crate) fn char_limit(text: &str) -> (limit: usize)
    ensures
        text@.len() <= limit,
{
    proof {
        lemma_chars_within_bytes(text@);
    }
    text.as_bytes().len()
}

/// Counts the markers of `text`.
pub fn count_markers(text: &str) -> (count: usize)
    ensures
        count == marker_count(text@),
{
    let limit = char_limit(text);
    let mut count: usize = 0;
    for ch in it: text.chars()
        invariant
            it.seq() == text@,
            text@.len() <= limit,
            count == marker_count(text@.take(it.index() as int)),
    {
        proof {
            let done = text@.take(it.index() as int);
            let next = text@.take(it.index() + 1);
            assert(next =~= done.push(ch));
            lemma_marker_count_push(done, ch);
        }
        if ch == MARKER {
            count = count + 1;
        }
    }
    assert(text@.take(text@.len() as int) =~= text@);
    count
}

/// The character for a digit below ten.
fn digit_char(d: usize) -> (c: char)
    requires
        d < 10,
    ensures
        c == digit(d as nat),
{
    match d {
        0 => '0',
        1 => '1',
        2 => '2',
        3 => '3',
        4 => '4',
        5 => '5',
        6 => '6',
        7 => '7',
        8 => '8',
        _ => '9',
    }
}

/// Writes `n` in base ten at the end of `out`.
pub(crate) fn push_decimal(out: &mut String, n: usize)
    ensures
        final(out)@ == old(out)@ + decimal(n as nat),
    decreases n,
{
    if n >= 10 {
        push_decimal(out, n / 10);
    }
    out.push(digit_char(n % 10));
}

/// Writes the reference to the parameter at `position` at the end of `out`.
pub(crate) fn push_reference(out: &mut String, position: usize)
    ensures
        final(out)@ == old(out)@ + reference(position as nat),
{
    out.push(PREFIX);
    push_decimal(out, position);
}

} // verus!
