//! What the text operations guarantee.

use vstd::prelude::*;

use crate::keyed;
use crate::text;

verus! {

/// Whether every character is white space.
pub open spec fn all_white(s: Seq<char>) -> bool {
    forall|i: int| 0 <= i < s.len() ==> text::is_white_space(#[trigger] s[i])
}

/// Trimming takes white space, and nothing else, from both ends, until none is left there.
pub proof fn law_trimming_takes_white_space_from_both_ends(s: Seq<char>)
    ensures
        exists|head: Seq<char>, tail: Seq<char>|
            all_white(head) && all_white(tail) && #[trigger] (head + text::trimmed(s) + tail) == s,
        text::trimmed(s).len() > 0 ==> !text::is_white_space(text::trimmed(s)[0])
            && !text::is_white_space(text::trimmed(s).last()),
{
    let middle = text::trim_start(s);
    let inner = text::trimmed(s);
    lemma_trim_start(s);
    lemma_trim_end(middle);
    let head = s.take(s.len() - middle.len());
    let tail = middle.skip(inner.len() as int);
    assert(head + inner + tail =~= s);
    assert(all_white(head) && all_white(tail));
    if inner.len() > 0 {
        assert(inner[0] == middle[0]);
    }
}

proof fn lemma_trim_start(s: Seq<char>)
    ensures
        text::trim_start(s).len() <= s.len(),
        text::trim_start(s) == s.skip(s.len() - text::trim_start(s).len()),
        all_white(s.take(s.len() - text::trim_start(s).len())),
        text::trim_start(s).len() > 0 ==> !text::is_white_space(text::trim_start(s)[0]),
    decreases s.len(),
{
    if s.len() > 0 && text::is_white_space(s[0]) {
        let rest = s.skip(1);
        lemma_trim_start(rest);
        let kept = text::trim_start(s);
        assert(kept =~= s.skip(s.len() - kept.len()));
        let head = s.take(s.len() - kept.len());
        assert forall|i: int| 0 <= i < head.len() implies text::is_white_space(
            #[trigger] head[i],
        ) by {
            if i > 0 {
                assert(rest.take(rest.len() - kept.len())[i - 1] == head[i]);
            }
        }
    } else {
        assert(s.skip(0) =~= s);
    }
}

proof fn lemma_trim_end(s: Seq<char>)
    ensures
        text::trim_end(s).len() <= s.len(),
        text::trim_end(s) == s.take(text::trim_end(s).len() as int),
        all_white(s.skip(text::trim_end(s).len() as int)),
        text::trim_end(s).len() > 0 ==> !text::is_white_space(text::trim_end(s).last()),
    decreases s.len(),
{
    if s.len() > 0 && text::is_white_space(s.last()) {
        let rest = s.drop_last();
        lemma_trim_end(rest);
        let kept = text::trim_end(s);
        assert(kept =~= s.take(kept.len() as int));
        let tail = s.skip(kept.len() as int);
        assert forall|i: int| 0 <= i < tail.len() implies text::is_white_space(
            #[trigger] tail[i],
        ) by {
            if i < tail.len() - 1 {
                assert(rest.skip(kept.len() as int)[i] == tail[i]);
            }
        }
    } else {
        assert(s.take(s.len() as int) =~= s);
    }
}

/// The blank, the tabulator and the line ends are white space; no other character of ASCII is, but
/// for the vertical tabulator and the form feed.
pub proof fn law_white_space_of_ascii(c: char)
    requires
        c as u32 <= 0x7f,
    ensures
        text::is_white_space(c) <==> c as u32 == 0x20 || 0x09 <= c as u32 <= 0x0d,
{
}

/// Text without white space at its ends is not changed by trimming.
pub proof fn law_trimmed_text_stays(s: Seq<char>)
    requires
        s.len() > 0 ==> !text::is_white_space(s[0]) && !text::is_white_space(s.last()),
    ensures
        text::trimmed(s) == s,
{
}

/// Lower case changes the capitals of ASCII, each into its own small letter, and nothing else.
pub proof fn law_lower_case_changes_capitals(c: char)
    ensures
        'A' <= c <= 'Z' ==> 'a' <= text::lower_char(c) <= 'z' && text::lower_char(c) as u32
            - 'a' as u32 == c as u32 - 'A' as u32,
        !('A' <= c <= 'Z') ==> text::lower_char(c) == c,
{
}

/// Texts are ordered by the first character in which they differ; a text stands before those that it
/// begins.
pub proof fn law_texts_are_ordered_by_their_first_difference(
    common: Seq<char>,
    a: char,
    b: char,
    x: Seq<char>,
    y: Seq<char>,
)
    requires
        a < b,
    ensures
        keyed::text_before(common.push(a) + x, common.push(b) + y),
        !keyed::text_before(common.push(b) + y, common.push(a) + x),
        keyed::text_before(common, common.push(a) + x),
        !keyed::text_before(common.push(a) + x, common),
    decreases common.len(),
{
    if common.len() > 0 {
        let rest = common.skip(1);
        law_texts_are_ordered_by_their_first_difference(rest, a, b, x, y);
        assert((common.push(a) + x).skip(1) =~= rest.push(a) + x);
        assert((common.push(b) + y).skip(1) =~= rest.push(b) + y);
        assert((common.push(a) + x)[0] == common[0]);
        assert((common.push(b) + y)[0] == common[0]);
    } else {
        assert((common.push(a) + x)[0] == a);
        assert((common.push(b) + y)[0] == b);
    }
}

/// The last match of a pattern is a match, and none stands behind it; where there is none, no match
/// is found.
pub proof fn law_last_match_is_the_last(s: Seq<char>, pattern: Seq<char>, at: int)
    ensures
        ({
            let found = text::last_match(s, pattern, at);
            &&& found >= 0 ==> found <= at && found + pattern.len() <= s.len() && s.subrange(
                found,
                found + pattern.len(),
            ) == pattern
            &&& forall|i: int|
                found < i <= at && 0 <= i && i + pattern.len() <= s.len() ==> #[trigger] s.subrange(
                    i,
                    i + pattern.len(),
                ) != pattern
        }),
    decreases at + 1,
{
    if at >= 0 && !(at + pattern.len() <= s.len() && s.subrange(at, at + pattern.len())
        == pattern) {
        law_last_match_is_the_last(s, pattern, at - 1);
    }
}

/// Parts are joined in order with the separator between any two.
pub proof fn law_joined_parts(a: Seq<Seq<char>>, b: Seq<Seq<char>>, separator: Seq<char>)
    ensures
        text::joined(Seq::empty(), separator) == Seq::<char>::empty(),
        a.len() == 1 ==> text::joined(a, separator) == a[0],
        a.len() > 0 && b.len() > 0 ==> text::joined(a + b, separator) == text::joined(a, separator)
            + separator + text::joined(b, separator),
    decreases b.len(),
{
    if a.len() > 0 && b.len() > 0 {
        let init = b.drop_last();
        assert((a + b).drop_last() =~= a + init);
        assert((a + b).last() == b.last());
        if b.len() == 1 {
            assert(a + init =~= a);
        } else {
            law_joined_parts(a, init, separator);
            assert(text::joined(a + b, separator) =~= text::joined(a, separator) + separator
                + text::joined(b, separator));
        }
    }
}

/// A text that denotes a counter, with or without a plus sign, is a run of digits; the value of a
/// longer run is ten times that of the shorter one, plus the last digit.
pub proof fn law_digits_denote_their_number(s: Seq<char>, digit: nat)
    requires
        digit < 10,
    ensures
        text::digits_value(seq![text::digit_char(digit as int)]) == digit,
        text::digits_value(s.push(text::digit_char(digit as int))) == 10 * text::digits_value(s)
            + digit,
        text::digit_char(digit as int) as u32 == '0' as u32 + digit,
{
    assert(s.push(text::digit_char(digit as int)).drop_last() =~= s);
    let one = seq![text::digit_char(digit as int)];
    assert(one.drop_last() =~= Seq::<char>::empty());
    assert(text::digits_value(one.drop_last()) == 0);
}

/// No line of a text holds a line end.
pub proof fn law_lines_hold_no_line_end(s: Seq<char>, from: int, i: int)
    requires
        0 <= from,
        0 <= i < text::lines_from(s, from).len(),
    ensures
        !text::lines_from(s, from)[i].contains('\n'),
    decreases s.len() - from,
{
    if from < s.len() {
        lemma_newline_from(s, from);
        let end = text::newline_from(s, from);
        let first = s.subrange(from, end);
        assert forall|k: int| 0 <= k < first.len() implies first[k] != '\n' by {
            assert(first[k] == s[from + k]);
        }
        if i == 0 {
            let line = text::lines_from(s, from)[0];
            assert forall|k: int| 0 <= k < line.len() implies line[k] != '\n' by {
                assert(line[k] == first[k]);
            }
        } else {
            law_lines_hold_no_line_end(s, end + 1, i - 1);
        }
    }
}

proof fn lemma_newline_from(s: Seq<char>, from: int)
    requires
        0 <= from <= s.len(),
    ensures
        from <= text::newline_from(s, from) <= s.len(),
        text::newline_from(s, from) < s.len() ==> s[text::newline_from(s, from)] == '\n',
        forall|k: int| from <= k < text::newline_from(s, from) ==> s[k] != '\n',
    decreases s.len() - from,
{
    if from < s.len() && s[from] != '\n' {
        lemma_newline_from(s, from + 1);
    }
}

/// A line in front of a line end is the first line of the text, and the text behind it gives the
/// others.
pub proof fn law_lines_are_cut_at_line_ends(line: Seq<char>, rest: Seq<char>)
    requires
        !line.contains('\n'),
        !line.contains('\r'),
    ensures
        text::lines(line.push('\n') + rest) == seq![line] + text::lines(rest),
        text::lines(line + seq!['\r', '\n'] + rest) == seq![line] + text::lines(rest),
        line.len() > 0 ==> text::lines(line) == seq![line],
{
    let plain = line.push('\n') + rest;
    let n = line.len() as int;
    assert forall|k: int| 0 <= k < n implies plain[k] != '\n' by {
        assert(plain[k] == line[k]);
    }
    assert(plain[n] == '\n');
    lemma_newline_from(plain, 0);
    assert(text::newline_from(plain, 0) == n);
    assert(plain.subrange(0, n) =~= line);
    assert(n > 0 ==> line[n - 1] != '\r');
    lemma_lines_shift(line.push('\n'), rest, 0);
    let with_return = line + seq!['\r', '\n'] + rest;
    assert forall|k: int| 0 <= k < n + 1 implies with_return[k] != '\n' by {
        if k < n {
            assert(with_return[k] == line[k]);
        }
    }
    assert(with_return[n + 1] == '\n');
    lemma_newline_from(with_return, 0);
    assert(text::newline_from(with_return, 0) == n + 1);
    assert(with_return.subrange(0, n + 1) =~= line.push('\r'));
    assert(line.push('\r').drop_last() =~= line);
    lemma_lines_shift(line + seq!['\r', '\n'], rest, 0);
    if n > 0 {
        lemma_newline_from(line, 0);
        if text::newline_from(line, 0) < n {
            assert(line[text::newline_from(line, 0)] == '\n');
        }
        assert(line.subrange(0, n) =~= line);
    }
}

proof fn lemma_lines_shift(head: Seq<char>, rest: Seq<char>, from: int)
    requires
        0 <= from <= rest.len(),
    ensures
        text::lines_from(head + rest, head.len() + from) == text::lines_from(rest, from),
    decreases rest.len() - from,
{
    let whole = head + rest;
    let at = head.len() + from;
    if from < rest.len() {
        lemma_newline_from(rest, from);
        lemma_newline_from(whole, at);
        let end = text::newline_from(rest, from);
        let whole_end = text::newline_from(whole, at);
        assert(whole_end == head.len() + end) by {
            if whole_end < head.len() + end {
                assert(whole[whole_end] == rest[whole_end - head.len()]);
            } else if head.len() + end < whole_end {
                assert(whole[head.len() + end] == rest[end]);
            }
        }
        assert(whole.subrange(at, whole_end) =~= rest.subrange(from, end));
        if end < rest.len() {
            lemma_lines_shift(head, rest, end + 1);
        }
    }
}

} // verus!
