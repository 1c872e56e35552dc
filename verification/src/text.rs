//! Decimal text of integers, and building strings out of characters.
use vstd::prelude::*;
use vstd::string::StringSliceAdditionalSpecFns;
use vstd::utf8::{decode_utf8, encode_utf8_decode_utf8, valid_utf8};

verus! {

/// `c` is one of `0` to `9`.
pub open spec fn is_digit(c: char) -> bool {
    '0' <= c && c <= '9'
}

/// Every character of `s` is a decimal digit.
pub open spec fn all_digits(s: Seq<char>) -> bool {
    forall|i: int| 0 <= i < s.len() ==> is_digit(#[trigger] s[i])
}

/// The number a decimal digit stands for.
pub open spec fn digit_value(c: char) -> nat {
    ((c as int) - ('0' as int)) as nat
}

/// The digit character of `d`, for `d < 10`.
pub open spec fn digit_char(d: nat) -> char {
    ((d + ('0' as nat)) as u32) as char
}

/// The number that the decimal digits `s` denote (`0` for no digits).
pub open spec fn decimal_value(s: Seq<char>) -> nat
    decreases s.len(),
{
    if s.len() == 0 {
        0
    } else {
        decimal_value(s.drop_last()) * 10 + digit_value(s.last())
    }
}

/// The shortest decimal text of `n`, without sign or leading zeros.
pub open spec fn decimal_text(n: nat) -> Seq<char>
    decreases n,
{
    if n < 10 {
        seq![digit_char(n)]
    } else {
        decimal_text(n / 10).push(digit_char(n % 10))
    }
}

/// The decimal text of a signed number: a minus sign before negative ones.
pub open spec fn signed_decimal_text(n: int) -> Seq<char> {
    if n < 0 {
        seq!['-'] + decimal_text((-n) as nat)
    } else {
        decimal_text(n as nat)
    }
}

pub proof fn lemma_digit_char(d: nat)
    requires
        d < 10,
    ensures
        is_digit(digit_char(d)),
        digit_value(digit_char(d)) == d,
{

}

proof fn lemma_decimal_text_digits(n: nat)
    ensures
        all_digits(decimal_text(n)),
        decimal_text(n).len() >= 1,
    decreases n,
{
    if n < 10 {
        lemma_digit_char(n);
    } else {
        lemma_decimal_text_digits(n / 10);
        lemma_digit_char(n % 10);
        let t = decimal_text(n);
        assert forall|i: int| 0 <= i < t.len() implies is_digit(#[trigger] t[i]) by {
            if i < t.len() - 1 {
                assert(t[i] == decimal_text(n / 10)[i]);
            }
        }
    }
}

/// Reading the decimal text of a number gives the number back.
pub proof fn lemma_decimal_round_trip(n: nat)
    ensures
        decimal_value(decimal_text(n)) == n,
        all_digits(decimal_text(n)),
    decreases n,
{
    lemma_decimal_text_digits(n);
    if n < 10 {
        lemma_digit_char(n);
        assert(decimal_text(n).drop_last() =~= Seq::<char>::empty());
        assert(decimal_value(Seq::<char>::empty()) == 0);
        assert(decimal_text(n).last() == digit_char(n));
    } else {
        lemma_decimal_round_trip(n / 10);
        lemma_digit_char(n % 10);
        let t = decimal_text(n);
        assert(t.drop_last() =~= decimal_text(n / 10));
        assert(t.last() == digit_char(n % 10));
        assert(decimal_value(t) == decimal_value(decimal_text(n / 10)) * 10 + n % 10);
        assert(n == (n / 10) * 10 + n % 10) by (nonlinear_arith);
    }
}

/// The value of the decimal digits `text`, when it fits in `u64`.
fn digits_value(text: &str) -> (r: Option<u64>)
    requires
        all_digits(text@),
    ensures
        r == (if decimal_value(text@) <= u64::MAX {
            Some(decimal_value(text@) as u64)
        } else {
            None::<u64>
        }),
{
    let mut acc: u64 = 0;
    let mut fits = true;
    for c in it: text.chars()
        invariant
            all_digits(text@),
            it.seq() == text@,
            fits ==> acc == decimal_value(text@.subrange(0, it.index() as int)),
            !fits ==> decimal_value(text@.subrange(0, it.index() as int)) > u64::MAX,
    {
        let ghost k = it.index() as int;
        proof {
            assert(text@.subrange(0, k + 1).drop_last() =~= text@.subrange(0, k));
            assert(text@.subrange(0, k + 1).last() == c);
            assert(is_digit(text@[k]));
        }
        let d: u64 = (c as u32 - '0' as u32) as u64;
        if fits {
            if acc <= (u64::MAX - d) / 10 {
                acc = acc * 10 + d;
            } else {
                fits = false;
            }
        } else {
            proof {
                assert(decimal_value(text@.subrange(0, k + 1)) >= decimal_value(text@.subrange(0, k))) by (nonlinear_arith)
                    requires
                        decimal_value(text@.subrange(0, k + 1)) == decimal_value(text@.subrange(0, k)) * 10 + digit_value(c),
                ;
            }
        }
    }
    proof {
        assert(text@.subrange(0, text@.len() as int) =~= text@);
    }
    if fits {
        Some(acc)
    } else {
        None
    }
}

/// Read a `u32` written with decimal digits only, as `str::parse` does.
///
/// # Returns
/// `None` when there is no digit or the number does not fit.
pub fn parse_unsigned(text: &str) -> (r: Option<u32>)
    requires
        all_digits(text@),
    ensures
        r == (if text@.len() > 0 && decimal_value(text@) <= u32::MAX {
            Some(decimal_value(text@) as u32)
        } else {
            None::<u32>
        }),
{
    if text.is_empty() {
        return None;
    }
    match digits_value(text) {
        Some(v) => if v <= u32::MAX as u64 {
            Some(v as u32)
        } else {
            None
        },
        None => None,
    }
}

/// Read an `i32` written as a minus sign then decimal digits, as
/// `str::parse` does.
///
/// # Returns
/// `None` when there is no digit or the number does not fit.
pub fn parse_negative(digits: &str) -> (r: Option<i32>)
    requires
        all_digits(digits@),
    ensures
        r == (if digits@.len() > 0 && decimal_value(digits@) <= 2147483648 {
            Some((-decimal_value(digits@)) as i32)
        } else {
            None::<i32>
        }),
{
    if digits.is_empty() {
        return None;
    }
    match digits_value(digits) {
        Some(v) => if v <= 2147483648 {
            let w: i64 = -(v as i64);
            Some(w as i32)
        } else {
            None
        },
        None => None,
    }
}

/// Appends the character `c` to `s`.
///
/// Calls `String::push`, which adds `c` at the end of the text.
#[verifier::external_body]
fn push_char(s: &mut String, c: char)
    ensures
        final(s)@ == old(s)@.push(c),
{
    s.push(c);
}

/// Builds a string out of the characters `chars`.
pub(crate) fn string_from_chars(chars: &[char]) -> (s: String)
    ensures
        s@ == chars@,
{
    let mut s = String::new();
    let mut i: usize = 0;
    while i < chars.len()
        invariant
            i <= chars@.len(),
            s@ == chars@.subrange(0, i as int),
        decreases chars@.len() - i,
    {
        push_char(&mut s, chars[i]);
        i += 1;
        assert(s@ =~= chars@.subrange(0, i as int));
    }
    assert(chars@.subrange(0, i as int) =~= chars@);
    s
}

fn digit_to_char(d: u32) -> (c: char)
    requires
        d < 10,
    ensures
        c == digit_char(d as nat),
{
    proof {
        lemma_digit_char(d as nat);
    }
    let v: u32 = d + 48;
    assert(v as char == digit_char(d as nat));
    // `char::from_digit` would need a radix check: the code point is built directly.
    match d {
        0 => '0',
        1 => '1',
        2 => '2',
        3 => '3',
        4 => '4',
        5 => '5',
        6 => '6',
        7 => '7',
        8 => '8',
        _ => '9',
    }
}

/// The decimal digits of `n`, most significant first.
pub(crate) fn decimal_chars(n: u64) -> (r: Vec<char>)
    ensures
        r@ == decimal_text(n as nat),
{
    let mut rev: Vec<char> = Vec::new();
    let mut m: u64 = n;
    // `rev` holds the low digits of `n`, least significant first.
    let ghost mut low: Seq<char> = Seq::empty();
    while m >= 10
        invariant
            decimal_text(n as nat) == decimal_text(m as nat) + low,
            rev@ == low.reverse(),
        decreases m,
    {
        let d = digit_to_char((m % 10) as u32);
        proof {
            assert(decimal_text(m as nat) == decimal_text((m / 10) as nat).push(d));
            assert(decimal_text(m as nat) + low =~= decimal_text((m / 10) as nat) + (seq![d] + low));
            assert((seq![d] + low).reverse() =~= low.reverse().push(d));
            low = seq![d] + low;
        }
        rev.push(d);
        m = m / 10;
    }
    let d = digit_to_char(m as u32);
    rev.push(d);
    proof {
        low = seq![d] + low;
        assert(decimal_text(m as nat) =~= seq![d]);
        assert(rev@ =~= low.reverse());
    }
    let mut out: Vec<char> = Vec::new();
    let mut i: usize = rev.len();
    while i > 0
        invariant
            i <= rev.len(),
            rev@ == low.reverse(),
            out@ == low.subrange(0, (rev.len() - i) as int),
            low.len() == rev.len(),
        decreases i,
    {
        i -= 1;
        out.push(rev[i]);
        assert(out@ =~= low.subrange(0, (rev.len() - i) as int));
    }
    assert(out@ =~= low);
    out
}

/// Append the characters of `s` to `out`.
pub(crate) fn push_str(out: &mut Vec<char>, s: &str)
    ensures
        final(out)@ == old(out)@ + s@,
{
    for c in it: s.chars()
        invariant
            it.seq() == s@,
            out@ == old(out)@ + s@.subrange(0, it.index() as int),
    {
        let ghost k = it.index() as int;
        out.push(c);
        assert(out@ =~= old(out)@ + s@.subrange(0, k + 1));
    }
    assert(s@.subrange(0, s@.len() as int) =~= s@);
}

/// Append the decimal digits of `n` to `out`.
pub(crate) fn push_decimal(out: &mut Vec<char>, n: u64)
    ensures
        final(out)@ == old(out)@ + decimal_text(n as nat),
{
    let digits = decimal_chars(n);
    let mut i: usize = 0;
    while i < digits.len()
        invariant
            i <= digits@.len(),
            digits@ == decimal_text(n as nat),
            out@ == old(out)@ + digits@.subrange(0, i as int),
        decreases digits@.len() - i,
    {
        out.push(digits[i]);
        i += 1;
        assert(out@ =~= old(out)@ + digits@.subrange(0, i as int));
    }
    assert(digits@.subrange(0, i as int) =~= digits@);
}

/// Append the decimal text of `n`, with a minus sign when it is negative.
pub(crate) fn push_signed_decimal(out: &mut Vec<char>, n: i32)
    ensures
        final(out)@ == old(out)@ + signed_decimal_text(n as int),
{
    if n < 0 {
        let ghost before = out@;
        out.push('-');
        let m: i64 = -(n as i64);
        push_decimal(out, m as u64);
        assert(out@ =~= before + (seq!['-'] + decimal_text(m as nat)));
    } else {
        push_decimal(out, n as u64);
    }
}

/// Reads `bytes` as UTF-8 text.
///
/// Calls `std::str::from_utf8`, which accepts exactly the valid UTF-8
/// sequences and gives a text made of those very bytes.
#[verifier::external_body]
pub(crate) fn utf8_str(bytes: &[u8]) -> (r: Option<&str>)
    ensures
        r is Some <==> valid_utf8(bytes@),
        r matches Some(s) ==> s.spec_bytes() == bytes@,
{
    match std::str::from_utf8(bytes) {
        Ok(s) => Some(s),
        Err(_) => None,
    }
}

/// The text that the valid UTF-8 sequence `bytes` encodes.
pub(crate) proof fn lemma_utf8_text(s: &str, bytes: Seq<u8>)
    requires
        s.spec_bytes() == bytes,
    ensures
        s@ == decode_utf8(bytes),
{
    encode_utf8_decode_utf8(s@);
}

/// Whether `a` and `b` hold the same text.
pub(crate) fn same_text(a: &str, b: &str) -> (r: bool)
    ensures
        r == (a@ == b@),
{
    let mut x: Vec<char> = Vec::new();
    push_str(&mut x, a);
    let mut y: Vec<char> = Vec::new();
    push_str(&mut y, b);
    assert(x@ =~= a@);
    assert(y@ =~= b@);
    if x.len() != y.len() {
        return false;
    }
    let mut i: usize = 0;
    while i < x.len()
        invariant
            x@ == a@,
            y@ == b@,
            x@.len() == y@.len(),
            i <= x@.len(),
            forall|j: int| 0 <= j < i ==> x@[j] == y@[j],
        decreases x@.len() - i,
    {
        if x[i] != y[i] {
            return false;
        }
        i += 1;
    }
    assert(x@ =~= y@);
    true
}

} // verus!
