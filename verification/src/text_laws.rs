//! What the helpers on texts give, told by the characters that go in and come out.

use vstd::prelude::*;

use crate::text;

verus! {

/// A digit stands for its number.
pub proof fn digits_stand_for_numbers(d: int)
    requires
        0 <= d <= 9,
    ensures
        text::is_digit(text::digit(d)),
        text::digit(d) as int == '0' as int + d,
        text::digit_value(text::digit(d)) == d,
{
}

/// The decimal notation of a natural number has its value, is made of digits, and starts with a
/// zero for zero alone.
pub proof fn decimals_have_their_value(n: nat)
    ensures
        text::digits_value(text::spec_decimal(n)) == n,
        text::spec_decimal(n).len() > 0,
        forall|i: int|
            0 <= i < text::spec_decimal(n).len() ==> '0' <= #[trigger] text::spec_decimal(n)[i]
                <= '9',
        text::spec_decimal(n)[0] == '0' <==> n == 0,
    decreases n,
{
    let s = text::spec_decimal(n);
    let d = n as int % 10;
    if n >= 10 {
        decimals_have_their_value(n / 10);
        digits_stand_for_numbers(d);
        assert(s.drop_last() =~= text::spec_decimal(n / 10));
        assert(s[0] == text::spec_decimal(n / 10)[0]);
    } else {
        digits_stand_for_numbers(n as int);
        assert(s.drop_last() =~= Seq::<char>::empty());
        assert(text::digits_value(s.drop_last()) == 0);
    }
}

/// A number below zero is written as a minus sign and its opposite, any other as it is.
pub proof fn signs_are_written(n: int)
    ensures
        n < 0 ==> text::spec_signed_decimal(n)[0] == '-' && text::spec_signed_decimal(
            n,
        ).drop_first() == text::spec_decimal((-n) as nat),
        n >= 0 ==> text::spec_signed_decimal(n) == text::spec_decimal(n as nat),
{
    if n < 0 {
        assert(text::spec_signed_decimal(n).drop_first() =~= text::spec_decimal((-n) as nat));
    }
}

/// Each digit of a row counts ten times the next.
pub proof fn digits_count_by_ten(s: Seq<char>, c: char)
    ensures
        text::digits_value(s.push(c)) == 10 * text::digits_value(s) + (c as int - '0' as int),
        text::digits_value(Seq::empty()) == 0,
{
    assert(s.push(c).drop_last() =~= s);
}

/// What is written for a number is read as that number, with a plus sign before it or without,
/// unless it is beyond the greatest.
pub proof fn written_numbers_are_read(n: nat, max: int)
    ensures
        text::is_number(text::spec_decimal(n), max) <==> n <= max,
        text::number_body(text::spec_decimal(n)) == text::spec_decimal(n),
        text::is_number(seq!['+'] + text::spec_decimal(n), max) <==> n <= max,
        text::number_body(seq!['+'] + text::spec_decimal(n)) == text::spec_decimal(n),
        text::digits_value(text::spec_decimal(n)) == n,
{
    decimals_have_their_value(n);
    let s = seq!['+'] + text::spec_decimal(n);
    assert(s.subrange(1, s.len() as int) =~= text::spec_decimal(n));
}

/// A text with another character than digits, beyond a plus sign at its start, is no number, nor
/// is one without digits.
pub proof fn other_texts_are_no_numbers(s: Seq<char>, max: int, i: int)
    requires
        s.len() == 0 || s == seq!['+'] || (0 <= i < s.len() && !('0' <= s[i] <= '9') && (i > 0
            || s[i] != '+')),
    ensures
        !text::is_number(s, max),
{
    let body = text::number_body(s);
    if 0 <= i < s.len() && !('0' <= s[i] <= '9') && (i > 0 || s[i] != '+') {
        if s[0] == '+' {
            assert(body[i - 1] == s[i]);
        } else {
            assert(body[i] == s[i]);
        }
    }
}

/// Whether `r` is what is left of `s` when the characters of a kind are taken off both ends, and
/// no others.
pub open spec fn is_stripped(s: Seq<char>, r: Seq<char>, kind: spec_fn(char) -> bool) -> bool {
    exists|from: int, to: int| #[trigger]
        is_middle(s, r, from, to) && (forall|i: int| 0 <= i < from ==> kind(#[trigger] s[i])) && (
        forall|i: int| to <= i < s.len() ==> kind(#[trigger] s[i])) && (r.len() > 0 ==> !kind(r[0])
            && !kind(r.last()))
}

/// Whether `r` stands in `s` between two places.
pub open spec fn is_middle(s: Seq<char>, r: Seq<char>, from: int, to: int) -> bool {
    0 <= from <= to <= s.len() && r == s.subrange(from, to)
}

proof fn lemma_start_trimmed(s: Seq<char>) -> (from: int)
    ensures
        is_middle(s, text::trimmed_start(s), from, s.len() as int),
        forall|i: int| 0 <= i < from ==> text::is_white(#[trigger] s[i]),
        from < s.len() ==> !text::is_white(s[from]),
    decreases s.len(),
{
    if s.len() > 0 && text::is_white(s[0]) {
        let rest = s.subrange(1, s.len() as int);
        let k = lemma_start_trimmed(rest);
        assert(rest.subrange(k, rest.len() as int) =~= s.subrange(k + 1, s.len() as int));
        assert forall|i: int| 0 <= i < k + 1 implies text::is_white(#[trigger] s[i]) by {
            if i > 0 {
                assert(rest[i - 1] == s[i]);
            }
        }
        if k + 1 < s.len() {
            assert(rest[k] == s[k + 1]);
        }
        k + 1
    } else {
        assert(s.subrange(0, s.len() as int) =~= s);
        0
    }
}

proof fn lemma_end_trimmed(s: Seq<char>) -> (to: int)
    ensures
        is_middle(s, text::trimmed_end(s), 0, to),
        forall|i: int| to <= i < s.len() ==> text::is_white(#[trigger] s[i]),
        to > 0 ==> !text::is_white(s[to - 1]),
    decreases s.len(),
{
    if s.len() > 0 && text::is_white(s.last()) {
        let front = s.drop_last();
        let k = lemma_end_trimmed(front);
        assert(front.subrange(0, k) =~= s.subrange(0, k));
        assert forall|i: int| k <= i < s.len() implies text::is_white(#[trigger] s[i]) by {
            if i < front.len() {
                assert(front[i] == s[i]);
            }
        }
        if k > 0 {
            assert(front[k - 1] == s[k - 1]);
        }
        k
    } else {
        assert(s.subrange(0, s.len() as int) =~= s);
        s.len() as int
    }
}

/// A trimmed text has lost the white space at its ends, and nothing else.
pub proof fn white_ends_are_taken_off(s: Seq<char>)
    ensures
        is_stripped(s, text::trimmed(s), |c: char| text::is_white(c)),
{
    let kind = |c: char| text::is_white(c);
    let from = lemma_start_trimmed(s);
    let rest = text::trimmed_start(s);
    let k = lemma_end_trimmed(rest);
    let r = text::trimmed(s);
    assert(r =~= s.subrange(from, from + k));
    assert(is_middle(s, r, from, from + k));
    assert forall|i: int| from + k <= i < s.len() implies kind(#[trigger] s[i]) by {
        assert(rest[i - from] == s[i]);
    }
    if r.len() > 0 {
        assert(r[0] == s[from]);
        assert(r.last() == rest[k - 1]);
    }
}

/// White space are the characters that Unicode calls so: those from tab to carriage return, the
/// space, and the others with these numbers.
pub proof fn white_space_is_that_of_unicode(c: char)
    ensures
        text::is_white(c) <==> {
            let n = c as u32;
            ||| 9 <= n <= 13
            ||| n == 0x20
            ||| n == 0x85
            ||| n == 0xA0
            ||| n == 0x1680
            ||| 0x2000 <= n <= 0x200A
            ||| n == 0x2028
            ||| n == 0x2029
            ||| n == 0x202F
            ||| n == 0x205F
            ||| n == 0x3000
        },
{
}

proof fn lemma_start_unquoted(s: Seq<char>) -> (from: int)
    ensures
        is_middle(s, text::unquoted_start(s), from, s.len() as int),
        forall|i: int| 0 <= i < from ==> #[trigger] s[i] == '"',
        from < s.len() ==> s[from] != '"',
    decreases s.len(),
{
    if s.len() > 0 && s[0] == '"' {
        let rest = s.subrange(1, s.len() as int);
        let k = lemma_start_unquoted(rest);
        assert(rest.subrange(k, rest.len() as int) =~= s.subrange(k + 1, s.len() as int));
        assert forall|i: int| 0 <= i < k + 1 implies #[trigger] s[i] == '"' by {
            if i > 0 {
                assert(rest[i - 1] == s[i]);
            }
        }
        if k + 1 < s.len() {
            assert(rest[k] == s[k + 1]);
        }
        k + 1
    } else {
        assert(s.subrange(0, s.len() as int) =~= s);
        0
    }
}

proof fn lemma_end_unquoted(s: Seq<char>) -> (to: int)
    ensures
        is_middle(s, text::unquoted_end(s), 0, to),
        forall|i: int| to <= i < s.len() ==> #[trigger] s[i] == '"',
        to > 0 ==> s[to - 1] != '"',
    decreases s.len(),
{
    if s.len() > 0 && s.last() == '"' {
        let front = s.drop_last();
        let k = lemma_end_unquoted(front);
        assert(front.subrange(0, k) =~= s.subrange(0, k));
        assert forall|i: int| k <= i < s.len() implies #[trigger] s[i] == '"' by {
            if i < front.len() {
                assert(front[i] == s[i]);
            }
        }
        if k > 0 {
            assert(front[k - 1] == s[k - 1]);
        }
        k
    } else {
        assert(s.subrange(0, s.len() as int) =~= s);
        s.len() as int
    }
}

/// A text without its quotation marks has lost those at its ends, and nothing else.
pub proof fn quotation_marks_are_taken_off(s: Seq<char>)
    ensures
        is_stripped(s, text::unquoted_end(text::unquoted_start(s)), |c: char| c == '"'),
{
    let kind = |c: char| c == '"';
    let from = lemma_start_unquoted(s);
    let rest = text::unquoted_start(s);
    let k = lemma_end_unquoted(rest);
    let r = text::unquoted_end(rest);
    assert(r =~= s.subrange(from, from + k));
    assert(is_middle(s, r, from, from + k));
    assert forall|i: int| from + k <= i < s.len() implies kind(#[trigger] s[i]) by {
        assert(rest[i - from] == s[i]);
    }
    if r.len() > 0 {
        assert(r[0] == s[from]);
        assert(r.last() == rest[k - 1]);
    }
}

/// One text stands in another where something before it and something after it make up the whole.
pub proof fn parts_stand_in_the_whole(before: Seq<char>, part: Seq<char>, after: Seq<char>)
    ensures
        text::occurs_at(before + part + after, part, before.len() as int),
        text::occurs(before + part + after, part),
{
    let s = before + part + after;
    let n = before.len() as int;
    assert(s.subrange(n, n + part.len()) =~= part);
    assert(text::occurs_at(s, part, n));
}

/// Where one text stands in another, the whole is made up of it, what is before and what is after.
pub proof fn wholes_are_made_of_parts(s: Seq<char>, part: Seq<char>, i: int)
    requires
        text::occurs_at(s, part, i),
    ensures
        0 <= i <= s.len(),
        s == s.subrange(0, i) + part + s.subrange(i + part.len(), s.len() as int),
{
    assert(s =~= s.subrange(0, i) + part + s.subrange(i + part.len(), s.len() as int));
}

} // verus!
