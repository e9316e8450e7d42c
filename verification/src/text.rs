//! Conversions between strings and sequences of characters.

use vstd::prelude::*;

verus! {

/// The characters of `s`, in order.
pub fn chars_of(s: &str) -> (r: Vec<char>)
    ensures
        r@ == s@,
{
    let mut out: Vec<char> = Vec::new();
    for c in it: s.chars()
        invariant
            it.seq() == s@,
            out@ == s@.take(it.index()),
    {
        out.push(c);
        assert(out@ =~= s@.take(it.index() + 1));
    }
    assert(out@ =~= s@);
    out
}

/// Appends one character, by `String::push` of the standard library.
/// Claims that the string afterwards is the old one followed by `c`.
#[verifier::external_body]
pub(crate) fn push_char(s: &mut String, c: char)
    ensures
        final(s)@ == old(s)@.push(c),
{
    s.push(c)
}

/// The string made of `chars`, in order.
pub fn string_of(chars: &Vec<char>) -> (r: String)
    ensures
        r@ == chars@,
{
    let mut out = String::new();
    let mut i: usize = 0;
    while i < chars.len()
        invariant
            i <= chars.len(),
            out@ == chars@.take(i as int),
        decreases chars.len() - i,
    {
        push_char(&mut out, chars[i]);
        i = i + 1;
        assert(out@ =~= chars@.take(i as int));
    }
    assert(out@ =~= chars@);
    out
}

/// Whether `s` is one or more decimal digits in ASCII.
pub open spec fn is_decimal(s: Seq<u8>) -> bool {
    &&& s.len() > 0
    &&& forall|i: int| 0 <= i < s.len() ==> 0x30 <= #[trigger] s[i] <= 0x39
}

/// The number that the decimal digits `s` denote.
pub open spec fn decimal_value(s: Seq<u8>) -> nat
    decreases s.len(),
{
    if s.len() == 0 {
        0
    } else {
        decimal_value(s.drop_last()) * 10 + (s.last() - 0x30) as nat
    }
}

/// `s` without a plus sign at its front.
pub open spec fn unsigned_text(s: Seq<u8>) -> Seq<u8> {
    if s.len() > 0 && s[0] == 0x2B {
        s.drop_first()
    } else {
        s
    }
}

/// The number that `s` denotes: decimal digits, with or without a plus sign
/// in front, whose value is at most `max`. Nothing for any other text.
pub open spec fn parse_number(s: Seq<u8>, max: nat) -> Option<nat> {
    let digits = unsigned_text(s);
    if is_decimal(digits) && decimal_value(digits) <= max {
        Some(decimal_value(digits))
    } else {
        None
    }
}

/// More digits never denote less.
proof fn lemma_decimal_grows(s: Seq<u8>, k: int)
    requires
        0 <= k <= s.len(),
    ensures
        decimal_value(s.take(k)) <= decimal_value(s),
    decreases s.len() - k,
{
    if k < s.len() {
        lemma_decimal_grows(s, k + 1);
        assert(s.take(k + 1).drop_last() =~= s.take(k));
        let v = decimal_value(s.take(k));
        assert(v <= v * 10 + (s[k] - 0x30) as nat) by (nonlinear_arith);
    } else {
        assert(s.take(k) =~= s);
    }
}

/// Reads a number of at most `max` from ASCII text, as `parse_number` states.
pub fn parse_decimal(text: &Vec<u8>, max: u64) -> (r: Option<u64>)
    ensures
        match r {
            Some(v) => parse_number(text@, max as nat) == Some(v as nat),
            None => parse_number(text@, max as nat) is None,
        },
{
    let start: usize = if text.len() > 0 && text[0] == 0x2B {
        1
    } else {
        0
    };
    let ghost digits = unsigned_text(text@);
    assert(digits =~= text@.skip(start as int));
    if start == text.len() {
        return None;
    }
    let mut acc: u64 = 0;
    let mut i: usize = start;
    while i < text.len()
        invariant
            start <= i <= text.len(),
            digits == unsigned_text(text@),
            digits == text@.skip(start as int),
            forall|j: int| 0 <= j < i - start ==> 0x30 <= #[trigger] digits[j] <= 0x39,
            acc == decimal_value(digits.take(i - start)),
            acc <= max,
        decreases text.len() - i,
    {
        let b = text[i];
        assert(digits[i - start] == b);
        if b < 0x30 || b > 0x39 {
            assert(!is_decimal(digits)) by {
                assert(!(0x30 <= digits[i - start] <= 0x39));
            }
            return None;
        }
        let d: u64 = (b - 0x30) as u64;
        proof {
            assert(digits.take(i - start + 1).drop_last() =~= digits.take(i - start));
            lemma_decimal_grows(digits, i - start + 1);
        }
        if d > max || acc > (max - d) / 10 {
            assert(acc * 10 + d > max) by (nonlinear_arith)
                requires
                    d > max || (d <= max && acc > (max - d) / 10),
            ;
            assert(decimal_value(digits.take(i - start + 1)) == acc * 10 + d);
            return None;
        }
        assert(acc * 10 + d <= max) by (nonlinear_arith)
            requires
                acc <= (max - d) / 10,
                d <= max,
        ;
        acc = acc * 10 + d;
        i = i + 1;
    }
    assert(digits.take(i - start) =~= digits);
    Some(acc)
}

/// The ten decimal digits, by rising value.
pub open spec fn digit_chars() -> Seq<char> {
    seq!['0', '1', '2', '3', '4', '5', '6', '7', '8', '9']
}

/// `n` written in decimal, without leading zeros; zero is "0".
pub open spec fn decimal_digits(n: nat) -> Seq<char>
    decreases n,
{
    if n < 10 {
        seq![digit_chars()[n as int]]
    } else {
        decimal_digits(n / 10).push(digit_chars()[(n % 10) as int])
    }
}

/// Writes `n` in decimal.
pub fn decimal_text(n: usize) -> (r: Vec<char>)
    ensures
        r@ == decimal_digits(n as nat),
{
    let digits = vec!['0', '1', '2', '3', '4', '5', '6', '7', '8', '9'];
    assert(digits@ =~= digit_chars());
    let mut out: Vec<char> = Vec::new();
    let mut rest: usize = n;
    while rest >= 10
        invariant
            digits@ == digit_chars(),
            decimal_digits(n as nat) == decimal_digits(rest as nat) + out@,
        decreases rest,
    {
        let ghost before = out@;
        let c = digits[rest % 10];
        out.insert(0, c);
        proof {
            assert(out@ =~= seq![c] + before);
            assert(decimal_digits((rest / 10) as nat).push(c) + before =~= decimal_digits(
                (rest / 10) as nat,
            ) + out@);
        }
        rest = rest / 10;
    }
    let ghost before = out@;
    out.insert(0, digits[rest]);
    assert(out@ =~= decimal_digits(rest as nat) + before);
    out
}

} // verus!
