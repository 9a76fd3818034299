//! Text helpers: comparison, search, decimal notation.

use vstd::prelude::*;
use vstd::string::*;
use vstd::utf8::*;

verus! {

/// The character that shows the digit `d`.
pub open spec fn digit(d: int) -> char {
    if d == 0 {
        '0'
    } else if d == 1 {
        '1'
    } else if d == 2 {
        '2'
    } else if d == 3 {
        '3'
    } else if d == 4 {
        '4'
    } else if d == 5 {
        '5'
    } else if d == 6 {
        '6'
    } else if d == 7 {
        '7'
    } else if d == 8 {
        '8'
    } else {
        '9'
    }
}

/// The decimal notation of a natural number.
pub open spec fn spec_decimal(n: nat) -> Seq<char>
    decreases n,
{
    if n < 10 {
        seq![digit(n as int)]
    } else {
        spec_decimal(n / 10).push(digit(n as int % 10))
    }
}

/// The decimal notation of an integer.
pub open spec fn spec_signed_decimal(n: int) -> Seq<char> {
    if n < 0 {
        seq!['-'] + spec_decimal((-n) as nat)
    } else {
        spec_decimal(n as nat)
    }
}

/// Different natural numbers have different decimal notations.
pub proof fn decimals_differ(m: nat, n: nat)
    requires
        spec_decimal(m) == spec_decimal(n),
    ensures
        m == n,
    decreases m,
{
    lemma_decimal_digits(m);
    lemma_decimal_digits(n);
    if m < 10 && n < 10 {
        assert(spec_decimal(m)[0] == digit(m as int));
        assert(spec_decimal(n)[0] == digit(n as int));
    } else if m >= 10 && n >= 10 {
        let a = spec_decimal(m / 10);
        let b = spec_decimal(n / 10);
        assert(a =~= spec_decimal(m).drop_last());
        assert(b =~= spec_decimal(n).drop_last());
        decimals_differ(m / 10, n / 10);
        assert(spec_decimal(m).last() == digit(m as int % 10));
        assert(spec_decimal(n).last() == digit(n as int % 10));
        assert(m as int % 10 == n as int % 10);
    } else if m < 10 {
        lemma_decimal_digits(n / 10);
        assert(spec_decimal(m).len() == 1);
        assert(spec_decimal(n).len() == spec_decimal(n / 10).len() + 1);
    } else {
        lemma_decimal_digits(m / 10);
        assert(spec_decimal(n).len() == 1);
        assert(spec_decimal(m).len() == spec_decimal(m / 10).len() + 1);
    }
}

/// The decimal notation of a natural number is a row of digits that is not empty.
pub proof fn lemma_decimal_digits(n: nat)
    ensures
        spec_decimal(n).len() > 0,
        forall|i: int| 0 <= i < spec_decimal(n).len() ==> is_digit(#[trigger] spec_decimal(n)[i]),
    decreases n,
{
    if n >= 10 {
        lemma_decimal_digits(n / 10);
    }
}

/// Different integers have different decimal notations.
pub proof fn signed_decimals_differ(m: int, n: int)
    requires
        spec_signed_decimal(m) == spec_signed_decimal(n),
    ensures
        m == n,
{
    let a = spec_signed_decimal(m);
    let b = spec_signed_decimal(n);
    if m < 0 {
        assert(a[0] == '-');
        if n < 0 {
            assert(spec_decimal((-m) as nat) =~= a.subrange(1, a.len() as int));
            assert(spec_decimal((-n) as nat) =~= b.subrange(1, b.len() as int));
            decimals_differ((-m) as nat, (-n) as nat);
        } else {
            lemma_decimal_digits(n as nat);
        }
    } else if n < 0 {
        assert(b[0] == '-');
        lemma_decimal_digits(m as nat);
    } else {
        decimals_differ(m as nat, n as nat);
    }
}

/// The value of a character as a decimal digit.
pub open spec fn digit_value(c: char) -> int {
    c as int - '0' as int
}

pub open spec fn is_digit(c: char) -> bool {
    '0' <= c <= '9'
}

/// The value of a row of decimal digits.
pub open spec fn digits_value(s: Seq<char>) -> int
    decreases s.len(),
{
    if s.len() == 0 {
        0
    } else {
        10 * digits_value(s.drop_last()) + digit_value(s.last())
    }
}

/// The digits of an unsigned number: a leading plus sign is optional.
pub open spec fn number_body(s: Seq<char>) -> Seq<char> {
    if s.len() > 0 && s[0] == '+' {
        s.subrange(1, s.len() as int)
    } else {
        s
    }
}

/// Whether `s` is an unsigned number of at most `max`.
pub open spec fn is_number(s: Seq<char>, max: int) -> bool {
    let body = number_body(s);
    &&& body.len() > 0
    &&& forall|i: int| 0 <= i < body.len() ==> is_digit(#[trigger] body[i])
    &&& digits_value(body) <= max
}

/// Whether `needle` stands in `s` at `i`.
pub open spec fn occurs_at(s: Seq<char>, needle: Seq<char>, i: int) -> bool {
    0 <= i && i + needle.len() <= s.len() && s.subrange(i, i + needle.len()) == needle
}

/// Whether `needle` stands anywhere in `s`.
pub open spec fn occurs(s: Seq<char>, needle: Seq<char>) -> bool {
    exists|i: int| occurs_at(s, needle, i)
}

/// `s` without the quotation marks at its start.
pub open spec fn unquoted_start(s: Seq<char>) -> Seq<char>
    decreases s.len(),
{
    if s.len() > 0 && s[0] == '"' {
        unquoted_start(s.subrange(1, s.len() as int))
    } else {
        s
    }
}

/// `s` without the quotation marks at its end.
pub open spec fn unquoted_end(s: Seq<char>) -> Seq<char>
    decreases s.len(),
{
    if s.len() > 0 && s.last() == '"' {
        unquoted_end(s.drop_last())
    } else {
        s
    }
}

/// Number of bytes shown of a text of which at most `n` are shown.
pub open spec fn clip_length(s: Seq<char>, n: int) -> int {
    if encode_utf8(s).len() < n {
        encode_utf8(s).len() as int
    } else {
        n
    }
}

/// Whether the first `n` bytes of `s` are whole characters.
pub open spec fn clips(s: Seq<char>, n: int) -> bool {
    is_char_boundary(encode_utf8(s), clip_length(s, n))
}

/// The first `n` bytes of `s`.
pub open spec fn clipped(s: Seq<char>, n: int) -> Seq<char> {
    decode_utf8(encode_utf8(s).subrange(0, clip_length(s, n)))
}

/// The lower case form of a text, as Unicode defines it.
pub uninterp spec fn lowercase(s: Seq<char>) -> Seq<char>;

/// The upper case form of a text, as Unicode defines it.
pub uninterp spec fn uppercase(s: Seq<char>) -> Seq<char>;

/// Whether a character is white space: those that Unicode calls `White_Space`.
pub open spec fn is_white(c: char) -> bool {
    ||| '\u{9}' <= c <= '\u{d}'
    ||| c == ' '
    ||| c == '\u{85}'
    ||| c == '\u{a0}'
    ||| c == '\u{1680}'
    ||| '\u{2000}' <= c <= '\u{200a}'
    ||| c == '\u{2028}'
    ||| c == '\u{2029}'
    ||| c == '\u{202f}'
    ||| c == '\u{205f}'
    ||| c == '\u{3000}'
}

/// `s` without the white space at its start.
pub open spec fn trimmed_start(s: Seq<char>) -> Seq<char>
    decreases s.len(),
{
    if s.len() > 0 && is_white(s[0]) {
        trimmed_start(s.subrange(1, s.len() as int))
    } else {
        s
    }
}

/// `s` without the white space at its end.
pub open spec fn trimmed_end(s: Seq<char>) -> Seq<char>
    decreases s.len(),
{
    if s.len() > 0 && is_white(s.last()) {
        trimmed_end(s.drop_last())
    } else {
        s
    }
}

/// `s` without the white space at either end.
pub open spec fn trimmed(s: Seq<char>) -> Seq<char> {
    trimmed_end(trimmed_start(s))
}

/// `str::to_lowercase`: the result depends on the text alone.
#[verifier::external_body]
pub(crate) fn to_lowercase(s: &str) -> (r: String)
    ensures
        r@ == lowercase(s@),
{
    s.to_lowercase()
}

/// `str::to_uppercase`: the result depends on the text alone.
#[verifier::external_body]
pub(crate) fn to_uppercase(s: &str) -> (r: String)
    ensures
        r@ == uppercase(s@),
{
    s.to_uppercase()
}

/// Whether two texts are equal.
pub fn same(a: &str, b: &str) -> (r: bool)
    ensures
        r == (a@ == b@),
{
    a.to_string() == b.to_string()
}

fn digit_text(d: u64) -> (r: &'static str)
    requires
        d < 10,
    ensures
        r@ == seq![digit(d as int)],
{
    proof {
        reveal_strlit("0");
        reveal_strlit("1");
        reveal_strlit("2");
        reveal_strlit("3");
        reveal_strlit("4");
        reveal_strlit("5");
        reveal_strlit("6");
        reveal_strlit("7");
        reveal_strlit("8");
        reveal_strlit("9");
    }
    if d == 0 {
        "0"
    } else if d == 1 {
        "1"
    } else if d == 2 {
        "2"
    } else if d == 3 {
        "3"
    } else if d == 4 {
        "4"
    } else if d == 5 {
        "5"
    } else if d == 6 {
        "6"
    } else if d == 7 {
        "7"
    } else if d == 8 {
        "8"
    } else {
        "9"
    }
}

/// Appends the digit `d`.
pub(crate) fn push_digit(s: &mut String, d: u64)
    requires
        d < 10,
    ensures
        final(s)@ == old(s)@.push(digit(d as int)),
{
    s.append(digit_text(d));
}

/// The decimal notation of a natural number.
pub fn decimal(n: u64) -> (r: String)
    ensures
        r@ == spec_decimal(n as nat),
    decreases n,
{
    if n < 10 {
        digit_text(n).to_string()
    } else {
        let mut s: String = decimal(n / 10);
        push_digit(&mut s, n % 10);
        s
    }
}

/// The decimal notation of an integer.
pub fn signed_decimal(n: i64) -> (r: String)
    ensures
        r@ == spec_signed_decimal(n as int),
{
    if n < 0 {
        proof {
            reveal_strlit("-");
        }
        let m: u64 = (-(n as i128)) as u64;
        let mut s: String = "-".to_string();
        s.append(decimal(m).as_str());
        proof {
            assert("-"@ =~= seq!['-']);
        }
        s
    } else {
        decimal(n as u64)
    }
}

/// The first `n` characters.
pub fn first_chars(s: &str, n: usize) -> (r: String)
    ensures
        r@ == if s@.len() <= n {
            s@
        } else {
            s@.subrange(0, n as int)
        },
{
    let length: usize = s.unicode_len();
    if length <= n {
        s.to_string()
    } else {
        s.substring_char(0, n).to_string()
    }
}

/// The first `n` bytes.
pub fn clip(s: &str, n: usize) -> (r: String)
    requires
        clips(s@, n as int),
    ensures
        r@ == clipped(s@, n as int),
{
    let length: usize = s.as_bytes().len();
    let k: usize = if length < n { length } else { n };
    let (head, _tail): (&str, &str) = s.split_at(k);
    proof {
        encode_utf8_decode_utf8(head@);
    }
    head.to_string()
}

/// Whether the first `n` bytes of `s` are whole characters.
pub fn can_clip(s: &str, n: usize) -> (r: bool)
    ensures
        r == clips(s@, n as int),
{
    let length: usize = s.as_bytes().len();
    let k: usize = if length < n { length } else { n };
    s.is_char_boundary(k)
}

/// A text of ASCII characters can be cut anywhere, and what is shown are its first characters.
pub proof fn ascii_clips(s: Seq<char>, n: int)
    requires
        is_ascii_chars(s),
        0 <= n,
    ensures
        clips(s, n),
        clipped(s, n) == s.take(if s.len() < n {
            s.len() as int
        } else {
            n
        }),
{
    let bytes = encode_utf8(s);
    let k = clip_length(s, n);
    encode_utf8_valid_utf8(s);
    is_ascii_chars_encode_utf8(s);
    is_char_boundary_start_end_of_seq(bytes);
    if k < bytes.len() {
        is_char_boundary_iff_not_is_continuation_byte(bytes, k);
        let c: char = s[k];
        let b: u8 = bytes[k];
        assert(b == c as u8);
        assert(b < 0x80);
        assert(!is_continuation_byte(b)) by (bit_vector)
            requires
                b < 0x80,
        ;
    }
    let front = s.take(k);
    is_ascii_chars_encode_utf8(front);
    assert forall|i: int| 0 <= i < k implies #[trigger] encode_utf8(front)[i] == bytes[i] by {
        assert(front[i] == s[i]);
    }
    assert(encode_utf8(front) =~= bytes.subrange(0, k));
    encode_utf8_decode_utf8(front);
}

/// Whether `s` starts with `prefix`.
pub fn starts_with(s: &str, prefix: &str) -> (r: bool)
    ensures
        r == occurs_at(s@, prefix@, 0),
{
    let n: usize = prefix.unicode_len();
    if s.unicode_len() < n {
        false
    } else {
        same(s.substring_char(0, n), prefix)
    }
}

/// Whether `needle` stands anywhere in `s`.
pub fn contains(s: &str, needle: &str) -> (r: bool)
    ensures
        r == occurs(s@, needle@),
{
    let n: usize = needle.unicode_len();
    let length: usize = s.unicode_len();
    if length < n {
        return false;
    }
    let mut i: usize = 0;
    while i <= length - n
        invariant
            n == needle@.len(),
            length == s@.len(),
            n <= length,
            i <= length - n + 1,
            forall|j: int| 0 <= j < i ==> !occurs_at(s@, needle@, j),
        decreases length - n + 1 - i,
    {
        if same(s.substring_char(i, i + n), needle) {
            assert(occurs_at(s@, needle@, i as int));
            return true;
        }
        if i == length - n {
            return false;
        }
        i = i + 1;
    }
    false
}

/// `s` without quotation marks at either end.
pub fn unquoted(s: &str) -> (r: String)
    ensures
        r@ == unquoted_end(unquoted_start(s@)),
{
    let length: usize = s.unicode_len();
    let mut from: usize = 0;
    assert(s@.subrange(0, length as int) =~= s@);
    while from < length && s.get_char(from) == '"'
        invariant
            length == s@.len(),
            from <= length,
            unquoted_start(s@) == unquoted_start(s@.subrange(from as int, length as int)),
        decreases length - from,
    {
        proof {
            let rest: Seq<char> = s@.subrange(from as int, length as int);
            assert(rest.subrange(1, rest.len() as int) =~= s@.subrange(
                from + 1,
                length as int,
            ));
        }
        from = from + 1;
    }
    let mut to: usize = length;
    while from < to && s.get_char(to - 1) == '"'
        invariant
            length == s@.len(),
            from <= to <= length,
            unquoted_end(s@.subrange(from as int, length as int)) == unquoted_end(
                s@.subrange(from as int, to as int),
            ),
        decreases to,
    {
        proof {
            let rest: Seq<char> = s@.subrange(from as int, to as int);
            assert(rest.drop_last() =~= s@.subrange(from as int, to - 1));
        }
        to = to - 1;
    }
    s.substring_char(from, to).to_string()
}

fn white(c: char) -> (r: bool)
    ensures
        r == is_white(c),
{
    ('\u{9}' <= c && c <= '\u{d}') || c == ' ' || c == '\u{85}' || c == '\u{a0}' || c
        == '\u{1680}' || ('\u{2000}' <= c && c <= '\u{200a}') || c == '\u{2028}' || c
        == '\u{2029}' || c == '\u{202f}' || c == '\u{205f}' || c == '\u{3000}'
}

/// `s` without white space at either end.
pub fn trim(s: &str) -> (r: String)
    ensures
        r@ == trimmed(s@),
{
    let length: usize = s.unicode_len();
    let mut from: usize = 0;
    assert(s@.subrange(0, length as int) =~= s@);
    while from < length && white(s.get_char(from))
        invariant
            length == s@.len(),
            from <= length,
            trimmed_start(s@) == trimmed_start(s@.subrange(from as int, length as int)),
        decreases length - from,
    {
        proof {
            let rest: Seq<char> = s@.subrange(from as int, length as int);
            assert(rest.subrange(1, rest.len() as int) =~= s@.subrange(from + 1, length as int));
        }
        from = from + 1;
    }
    let mut to: usize = length;
    while from < to && white(s.get_char(to - 1))
        invariant
            length == s@.len(),
            from <= to <= length,
            trimmed_end(s@.subrange(from as int, length as int)) == trimmed_end(
                s@.subrange(from as int, to as int),
            ),
        decreases to,
    {
        proof {
            let rest: Seq<char> = s@.subrange(from as int, to as int);
            assert(rest.drop_last() =~= s@.subrange(from as int, to - 1));
        }
        to = to - 1;
    }
    s.substring_char(from, to).to_string()
}

/// An unsigned number of at most `max`.
pub fn parse_number(s: &str, max: u64) -> (r: Option<u64>)
    requires
        max <= 0xFFFF_FFFF,
    ensures
        r is Some <==> is_number(s@, max as int),
        r matches Some(n) ==> n == digits_value(number_body(s@)),
{
    let length: usize = s.unicode_len();
    if length == 0 {
        return None;
    }
    let from: usize = if s.get_char(0) == '+' { 1 } else { 0 };
    if from == length {
        return None;
    }
    let ghost body: Seq<char> = number_body(s@);
    assert(from == 0 ==> body =~= s@.subrange(0, length as int));
    let mut n: u64 = 0;
    let mut i: usize = from;
    let mut over: bool = false;
    assert(body.subrange(0, 0) =~= Seq::<char>::empty());
    while i < length
        invariant
            length == s@.len(),
            from <= i <= length,
            from <= 1,
            body == s@.subrange(from as int, length as int),
            body == number_body(s@),
            max <= 0xFFFF_FFFF,
            !over ==> n <= max && n == digits_value(body.subrange(0, i - from)),
            over ==> digits_value(body.subrange(0, i - from)) > max,
            forall|j: int| 0 <= j < i - from ==> is_digit(#[trigger] body[j]),
        decreases length - i,
    {
        let c: char = s.get_char(i);
        assert(body[i - from] == c);
        if c < '0' || c > '9' {
            assert(!is_digit(body[i - from]));
            return None;
        }
        proof {
            assert(body.subrange(0, i + 1 - from).drop_last() =~= body.subrange(0, i - from));
        }
        if !over {
            n = n * 10 + (c as u64 - '0' as u64);
            if n > max {
                over = true;
            }
        }
        i = i + 1;
    }
    assert(body.subrange(0, i - from) =~= body);
    if over {
        None
    } else {
        Some(n)
    }
}

/// A list of texts as what they say.
pub open spec fn texts(s: Seq<String>) -> Seq<Seq<char>> {
    s.map_values(|t: String| t@)
}

/// Whether a text stands in a list.
pub fn listed(list: &Vec<String>, t: &String) -> (r: bool)
    ensures
        r == texts(list@).contains(t@),
{
    let mut i: usize = 0;
    while i < list.len()
        invariant
            i <= list@.len(),
            forall|j: int| 0 <= j < i ==> texts(list@)[j] != t@,
        decreases list@.len() - i,
    {
        if same(list[i].as_str(), t.as_str()) {
            assert(texts(list@)[i as int] == t@);
            return true;
        }
        i = i + 1;
    }
    false
}

/// A copy of a list of texts.
pub fn copied(list: &Vec<String>) -> (r: Vec<String>)
    ensures
        texts(r@) == texts(list@),
{
    let mut out: Vec<String> = Vec::new();
    let mut i: usize = 0;
    while i < list.len()
        invariant
            i <= list@.len(),
            texts(out@) =~= texts(list@).subrange(0, i as int),
        decreases list@.len() - i,
    {
        let ghost before: Seq<String> = out@;
        out.push(list[i].clone());
        assert(texts(out@) =~= texts(before).push(list@[i as int]@));
        i = i + 1;
    }
    assert(texts(out@) =~= texts(list@));
    out
}

} // verus!
