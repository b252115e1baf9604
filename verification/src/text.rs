//! Character-level helpers: whitespace trimming, byte-level splicing of UTF-8
//! text, decimal rendering and parsing of numbers.

use vstd::prelude::*;
use vstd::string::*;
use vstd::utf8::*;

verus! {

broadcast use vstd::utf8::encode_utf8_valid_utf8;

/// The Unicode `White_Space` property, which `char::is_whitespace` and the
/// `trim` family of `str` methods go by.
pub open spec fn is_white_space(c: char) -> bool {
    let u: u32 = c as u32;
    ||| 0x09 <= u <= 0x0d
    ||| u == 0x20
    ||| u == 0x85
    ||| u == 0xa0
    ||| u == 0x1680
    ||| 0x2000 <= u <= 0x200a
    ||| u == 0x2028
    ||| u == 0x2029
    ||| u == 0x202f
    ||| u == 0x205f
    ||| u == 0x3000
}

/// `s` with its leading white space removed.
pub open spec fn trim_start_spec(s: Seq<char>) -> Seq<char>
    decreases s.len(),
{
    if s.len() > 0 && is_white_space(s[0]) {
        trim_start_spec(s.drop_first())
    } else {
        s
    }
}

/// `s` with its trailing white space removed.
pub open spec fn trim_end_spec(s: Seq<char>) -> Seq<char>
    decreases s.len(),
{
    if s.len() > 0 && is_white_space(s.last()) {
        trim_end_spec(s.drop_last())
    } else {
        s
    }
}

/// `s` with leading and trailing white space removed.
pub open spec fn trim_spec(s: Seq<char>) -> Seq<char> {
    trim_end_spec(trim_start_spec(s))
}

/// Calls `str::trim`, which returns the slice of `s` without its leading and
/// trailing Unicode `White_Space` characters.
#[verifier::external_body]
pub(crate) fn str_trim(s: &str) -> (r: &str)
    ensures
        r@ == trim_spec(s@),
{
    s.trim()
}

/// Calls `str::trim_end`, which returns the slice of `s` without its trailing
/// Unicode `White_Space` characters.
#[verifier::external_body]
pub(crate) fn str_trim_end(s: &str) -> (r: &str)
    ensures
        r@ == trim_end_spec(s@),
{
    s.trim_end()
}

/// The UTF-8 encoding of a character sequence.
pub open spec fn utf8(s: Seq<char>) -> Seq<u8> {
    encode_utf8(s)
}

/// UTF-8 encoding distributes over concatenation.
pub proof fn lemma_utf8_concat(a: Seq<char>, b: Seq<char>)
    ensures
        utf8(a + b) == utf8(a) + utf8(b),
    decreases a.len(),
{
    if a.len() == 0 {
        assert(a + b =~= b);
        assert(utf8(a) =~= Seq::<u8>::empty());
        assert(utf8(a) + utf8(b) =~= utf8(b));
    } else {
        lemma_utf8_concat(a.drop_first(), b);
        assert((a + b).drop_first() =~= a.drop_first() + b);
        assert((a + b)[0] == a[0]);
        let h = encode_scalar(a[0] as u32);
        assert(h + (utf8(a.drop_first()) + utf8(b)) =~= (h + utf8(a.drop_first())) + utf8(b));
    }
}

/// The bytes of `t` with `t[start..end]` replaced by `ins`.
pub open spec fn splice_spec(t: Seq<u8>, start: int, end: int, ins: Seq<u8>) -> Seq<u8> {
    t.take(start) + ins + t.skip(end)
}

/// Whether `start..end` is a range of whole characters of `s`.
pub open spec fn is_char_range(s: Seq<char>, start: int, end: int) -> bool {
    &&& start <= end
    &&& is_char_boundary(utf8(s), start)
    &&& is_char_boundary(utf8(s), end)
}

/// Replaces the bytes `start..end` of `text` by `ins`.
pub fn splice(text: &str, start: usize, end: usize, ins: &str) -> (r: String)
    requires
        is_char_range(text@, start as int, end as int),
    ensures
        utf8(r@) == splice_spec(utf8(text@), start as int, end as int, utf8(ins@)),
{
    proof {
        lemma_boundary_in_range(text@, start as int);
        lemma_boundary_in_range(text@, end as int);
    }
    let (left, _) = text.split_at(start);
    let (_, right) = text.split_at(end);
    let mut r = left.to_owned();
    r.append(ins);
    r.append(right);
    proof {
        lemma_utf8_concat(left@, ins@);
        lemma_utf8_concat(left@ + ins@, right@);
        let b = utf8(text@);
        assert(utf8(left@) =~= b.take(start as int));
        assert(utf8(right@) =~= b.skip(end as int));
    }
    r
}

/// A character boundary of a UTF-8 encoding lies within it.
pub proof fn lemma_boundary_in_range(s: Seq<char>, i: int)
    requires
        is_char_boundary(utf8(s), i),
    ensures
        0 <= i <= utf8(s).len(),
{
    encode_utf8_valid_utf8(s);
}

/// A character boundary of a text that lies within a range of whole
/// characters is a character boundary of the text of that range.
pub proof fn lemma_slice_boundary(t: Seq<char>, piece: Seq<char>, s: int, e: int, i: int)
    requires
        is_char_range(t, s, e),
        utf8(piece) == utf8(t).subrange(s, e),
        s <= i <= e,
        is_char_boundary(utf8(t), i),
    ensures
        is_char_boundary(utf8(piece), i - s),
{
    let b = utf8(t);
    let c = utf8(piece);
    encode_utf8_valid_utf8(t);
    encode_utf8_valid_utf8(piece);
    lemma_boundary_in_range(t, s);
    lemma_boundary_in_range(t, e);
    if i == e {
        is_char_boundary_start_end_of_seq(c);
    } else if i == s {
        is_char_boundary_start_end_of_seq(c);
    } else {
        assert(c[i - s] == b[i]);
        is_char_boundary_iff_not_is_continuation_byte(b, i);
        is_char_boundary_iff_not_is_continuation_byte(c, i - s);
    }
}

/// The text of the bytes `start..end` of `text`.
pub fn text_slice(text: &str, start: usize, end: usize) -> (r: String)
    requires
        is_char_range(text@, start as int, end as int),
    ensures
        utf8(r@) == utf8(text@).subrange(start as int, end as int),
{
    proof {
        lemma_boundary_in_range(text@, start as int);
        lemma_boundary_in_range(text@, end as int);
    }
    let (left, _) = text.split_at(end);
    proof {
        encode_utf8_valid_utf8(text@);
        is_char_boundary_start_end_of_seq(utf8(text@));
        lemma_slice_boundary(text@, left@, 0, end as int, start as int);
    }
    let (_, mid) = left.split_at(start);
    assert(utf8(mid@) =~= utf8(text@).subrange(start as int, end as int));
    mid.to_owned()
}

// ---------------------------------------------------------------------------
// Decimal numbers
// ---------------------------------------------------------------------------

/// Whether `c` is an ASCII decimal digit.
pub open spec fn is_digit(c: char) -> bool {
    48 <= c as u32 <= 57
}

/// The value of an ASCII decimal digit.
pub open spec fn digit_value(c: char) -> nat {
    (c as u32 - 48) as nat
}

/// The character of a decimal digit.
pub open spec fn digit_char(d: nat) -> char {
    (d + 48) as char
}

/// The number of ASCII digits that `s` starts with.
pub open spec fn digit_run(s: Seq<char>) -> nat
    decreases s.len(),
{
    if s.len() > 0 && is_digit(s[0]) {
        1 + digit_run(s.drop_first())
    } else {
        0
    }
}

/// The value of a sequence of decimal digits, most significant first.
pub open spec fn digits_value(d: Seq<char>) -> nat
    decreases d.len(),
{
    if d.len() == 0 {
        0
    } else {
        digits_value(d.drop_last()) * 10 + digit_value(d.last())
    }
}

/// The number that a list bullet such as `"12. "` or `"3) "` starts with:
/// its leading ASCII digits read as a `u32`, or `None` when there are none
/// or their value does not fit.
pub open spec fn bullet_number_spec(s: Seq<char>) -> Option<u32> {
    let d = s.take(digit_run(s) as int);
    if d.len() == 0 || digits_value(d) > u32::MAX {
        None
    } else {
        Some(digits_value(d) as u32)
    }
}

/// The decimal rendering of `n`, without leading zeros.
pub open spec fn decimal(n: nat) -> Seq<char>
    decreases n,
{
    if n < 10 {
        seq![digit_char(n)]
    } else {
        decimal(n / 10).push(digit_char(n % 10))
    }
}

/// The run of digits a sequence starts with ends at its first non-digit.
pub proof fn lemma_digit_run(s: Seq<char>, i: int)
    requires
        0 <= i <= s.len(),
        forall|j: int| 0 <= j < i ==> is_digit(#[trigger] s[j]),
        i == s.len() || !is_digit(s[i]),
    ensures
        digit_run(s) == i,
    decreases i,
{
    if i > 0 {
        assert forall|j: int| 0 <= j < i - 1 implies is_digit(#[trigger] s.drop_first()[j]) by {
            assert(s.drop_first()[j] == s[j + 1]);
        }
        if i - 1 < s.drop_first().len() {
            assert(s.drop_first()[i - 1] == s[i]);
        }
        lemma_digit_run(s.drop_first(), i - 1);
    }
}

/// Adding a digit never lowers the value.
pub proof fn lemma_digits_value_grows(d: Seq<char>, c: char)
    ensures
        digits_value(d.push(c)) >= digits_value(d),
        digits_value(d.push(c)) == digits_value(d) * 10 + digit_value(c),
{
    assert(d.push(c).drop_last() =~= d);
}

/// Parses the leading ASCII digits of a list bullet such as `"1. "`,
/// `"42. "` or `"3) "`; `None` for bullets without digits (`"- "`, `"+ "`)
/// and for numbers that do not fit a `u32`.
pub fn bullet_number(bullet: &str) -> (r: Option<u32>)
    ensures
        r == bullet_number_spec(bullet@),
{
    let n: usize = bullet.unicode_len();
    let mut i: usize = 0;
    let mut v: u64 = 0;
    let mut over = false;
    loop
        invariant
            i <= n,
            n == bullet@.len(),
            forall|j: int| 0 <= j < i ==> is_digit(#[trigger] bullet@[j]),
            !over ==> v == digits_value(bullet@.take(i as int)) && v <= u32::MAX,
            over ==> digits_value(bullet@.take(i as int)) > u32::MAX,
        ensures
            i <= n,
            forall|j: int| 0 <= j < i ==> is_digit(#[trigger] bullet@[j]),
            i == n || !is_digit(bullet@[i as int]),
            !over ==> v == digits_value(bullet@.take(i as int)) && v <= u32::MAX,
            over ==> digits_value(bullet@.take(i as int)) > u32::MAX,
        decreases n - i,
    {
        if i >= n {
            break;
        }
        let c = bullet.get_char(i);
        let code: u32 = c as u32;
        if code < 48 || code > 57 {
            break;
        }
        let d: u64 = (code - 48) as u64;
        proof {
            assert(bullet@.take(i + 1) =~= bullet@.take(i as int).push(c));
            lemma_digits_value_grows(bullet@.take(i as int), c);
        }
        if !over {
            let nv: u64 = v * 10 + d;
            if nv > 0xffff_ffff {
                over = true;
            } else {
                v = nv;
            }
        }
        i = i + 1;
    }
    proof {
        lemma_digit_run(bullet@, i as int);
    }
    if i == 0 || over {
        None
    } else {
        Some(v as u32)
    }
}

fn digit_str(d: u64) -> (r: &'static str)
    requires
        d < 10,
    ensures
        r@ == seq![digit_char(d as nat)],
{
    proof {
        reveal_strlit("0");
        reveal_strlit("1");
        reveal_strlit("2");
        reveal_strlit("3");
        reveal_strlit("4");
        reveal_strlit("5");
        reveal_strlit("6");
        reveal_strlit("7");
        reveal_strlit("8");
        reveal_strlit("9");
    }
    let r = if d == 0 {
        "0"
    } else if d == 1 {
        "1"
    } else if d == 2 {
        "2"
    } else if d == 3 {
        "3"
    } else if d == 4 {
        "4"
    } else if d == 5 {
        "5"
    } else if d == 6 {
        "6"
    } else if d == 7 {
        "7"
    } else if d == 8 {
        "8"
    } else {
        "9"
    };
    assert(r@ =~= seq![digit_char(d as nat)]);
    r
}

/// The decimal rendering of `n`.
pub fn decimal_string(n: u64) -> (r: String)
    ensures
        r@ == decimal(n as nat),
    decreases n,
{
    if n < 10 {
        digit_str(n).to_owned()
    } else {
        let mut s = decimal_string(n / 10);
        s.append(digit_str(n % 10));
        assert(s@ =~= decimal(n as nat));
        s
    }
}

/// Every character of a decimal rendering is a digit.
pub proof fn lemma_decimal_digits(n: nat)
    ensures
        decimal(n).len() > 0,
        forall|j: int| 0 <= j < decimal(n).len() ==> is_digit(#[trigger] decimal(n)[j]),
        digits_value(decimal(n)) == n,
    decreases n,
{
    if n >= 10 {
        lemma_decimal_digits(n / 10);
        assert(decimal(n).drop_last() =~= decimal(n / 10));
        assert(digit_value(digit_char(n % 10)) == n % 10);
        assert((n / 10) * 10 + n % 10 == n);
        let d = decimal(n);
        assert(d.last() == digit_char(n % 10));
        assert(digits_value(d) == digits_value(d.drop_last()) * 10 + digit_value(d.last()));
        assert(digits_value(d.drop_last()) == n / 10);
    } else {
        assert(digit_value(digit_char(n)) == n);
        let d = decimal(n);
        assert(d.drop_last() =~= Seq::<char>::empty());
        assert(digits_value(d.drop_last()) == 0);
        assert(d.last() == digit_char(n));
    }
}

/// The number that a bullet starts with is read back from its decimal
/// rendering: a bullet written as `n` followed by `". "` reads as `n`.
pub proof fn lemma_bullet_reads_decimal(n: u32, rest: Seq<char>)
    requires
        rest.len() == 0 || !is_digit(rest[0]),
    ensures
        bullet_number_spec(decimal(n as nat) + rest) == Some(n),
{
    let d = decimal(n as nat);
    let s = d + rest;
    lemma_decimal_digits(n as nat);
    assert forall|j: int| 0 <= j < d.len() implies is_digit(#[trigger] s[j]) by {
        assert(s[j] == d[j]);
    }
    if d.len() < s.len() {
        assert(s[d.len() as int] == rest[0]);
    }
    lemma_digit_run(s, d.len() as int);
    assert(s.take(d.len() as int) =~= d);
}

} // verus!
