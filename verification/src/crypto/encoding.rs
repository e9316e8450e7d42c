//! The product-key codec: a number written in base 24 over a fixed alphabet,
//! zero-filled to 35 characters and grouped in fives by dashes.

use crate::bignat::{big_add, big_div, big_mul, big_rem, BigNat};
use crate::error::KeyError;
use crate::text::{chars_of, string_of};
use vstd::prelude::*;

verus! {

/// The 24 digits of the codec, by rising value.
pub const KCHARS: &'static str = "BCDFGHJKMPQRTVWXY2346789";

/// The digits as a sequence: entry `d` is the character for the value `d`.
pub open spec fn alphabet() -> Seq<char> {
    seq![
        'B', 'C', 'D', 'F', 'G', 'H', 'J', 'K', 'M', 'P', 'Q', 'R',
        'T', 'V', 'W', 'X', 'Y', '2', '3', '4', '6', '7', '8', '9',
    ]
}

/// The base-24 digits of `n`, most significant first; none for zero.
pub open spec fn digits24(n: nat) -> Seq<char>
    decreases n,
{
    if n == 0 {
        Seq::empty()
    } else {
        digits24(n / 24).push(alphabet()[(n % 24) as int])
    }
}

/// `d` with zero digits in front until it has 35 characters.
pub open spec fn padded(d: Seq<char>) -> Seq<char> {
    if d.len() < 35 {
        Seq::new((35 - d.len()) as nat, |i: int| 'B') + d
    } else {
        d
    }
}

/// `s` with a dash before every character whose place is a multiple of 5,
/// the first place excepted.
pub open spec fn dashed(s: Seq<char>) -> Seq<char>
    decreases s.len(),
{
    if s.len() == 0 {
        s
    } else {
        let i = s.len() - 1;
        let head = dashed(s.drop_last());
        if i > 0 && i % 5 == 0 {
            head.push('-').push(s.last())
        } else {
            head.push(s.last())
        }
    }
}

/// The key string of `n`. Zero has the empty string.
pub open spec fn encode_spec(n: nat) -> Seq<char> {
    if n == 0 {
        Seq::empty()
    } else {
        dashed(padded(digits24(n)))
    }
}

/// `s` without its dashes.
pub open spec fn strip_dashes(s: Seq<char>) -> Seq<char> {
    s.filter(|c: char| c != '-')
}

/// The number of bytes that `c` takes in UTF-8.
pub open spec fn utf8_width(c: char) -> nat {
    if (c as u32) < 0x80 {
        1
    } else if (c as u32) < 0x800 {
        2
    } else if (c as u32) < 0x10000 {
        3
    } else {
        4
    }
}

/// The number of bytes that `s` takes in UTF-8.
pub open spec fn byte_length(s: Seq<char>) -> nat
    decreases s.len(),
{
    if s.len() == 0 {
        0
    } else {
        byte_length(s.drop_last()) + utf8_width(s.last())
    }
}

/// The first character of `s` that is no digit of the alphabet.
pub open spec fn first_invalid(s: Seq<char>) -> Option<char>
    decreases s.len(),
{
    if s.len() == 0 {
        None
    } else if !alphabet().contains(s[0]) {
        Some(s[0])
    } else {
        first_invalid(s.drop_first())
    }
}

/// The number that the digits `s` denote, most significant first.
pub open spec fn base24_value(s: Seq<char>) -> nat
    decreases s.len(),
{
    if s.len() == 0 {
        0
    } else {
        base24_value(s.drop_last()) * 24 + alphabet().index_of(s.last()) as nat
    }
}

/// The number that a key string denotes, or why it denotes none: the length
/// in bytes, dashes removed, is tested first, then the characters in order.
pub open spec fn decode_spec(key: Seq<char>) -> Result<nat, KeyError> {
    let digits = strip_dashes(key);
    if byte_length(digits) % 5 != 0 {
        Err(KeyError::BadKeyLength)
    } else {
        match first_invalid(digits) {
            Some(c) => Err(KeyError::InvalidCharacter(c)),
            None => Ok(base24_value(digits)),
        }
    }
}

/// No character stands twice in the alphabet, and none is a dash.
pub proof fn lemma_alphabet()
    ensures
        alphabet().len() == 24,
        alphabet().no_duplicates(),
        forall|i: int| 0 <= i < 24 ==> alphabet()[i] != '-' && (alphabet()[i] as u32) < 0x80,
        forall|i: int| 0 <= i < 24 ==> alphabet().index_of(#[trigger] alphabet()[i]) == i,
        alphabet()[0] == 'B',
{
    let a = alphabet();
    assert(a.no_duplicates());
    assert forall|i: int| 0 <= i < 24 implies a.index_of(#[trigger] a[i]) == i by {
        let j = a.index_of(a[i]);
        assert(0 <= j < 24 && a[j] == a[i]);
    }
}

/// Removing the dashes after one more character.
proof fn lemma_strip_push(s: Seq<char>, c: char)
    ensures
        strip_dashes(s.push(c)) == if c != '-' {
            strip_dashes(s).push(c)
        } else {
            strip_dashes(s)
        },
{
    reveal(Seq::filter);
    assert(s.push(c).drop_last() =~= s);
}

/// The alphabet as a vector.
fn alphabet_vec() -> (r: Vec<char>)
    ensures
        r@ == alphabet(),
{
    let v = vec![
        'B', 'C', 'D', 'F', 'G', 'H', 'J', 'K', 'M', 'P', 'Q', 'R',
        'T', 'V', 'W', 'X', 'Y', '2', '3', '4', '6', '7', '8', '9',
    ];
    assert(v@ =~= alphabet());
    v
}

/// The value of the digit `c`, or nothing where it is none.
fn digit_of(alpha: &Vec<char>, c: char) -> (r: Option<u8>)
    requires
        alpha@ == alphabet(),
    ensures
        match r {
            Some(d) => alphabet().contains(c) && d as int == alphabet().index_of(c) && d < 24,
            None => !alphabet().contains(c),
        },
{
    proof {
        lemma_alphabet();
    }
    let mut i: u8 = 0;
    while i < 24
        invariant
            i <= 24,
            alpha@ == alphabet(),
            forall|j: int| 0 <= j < i ==> alphabet()[j] != c,
        decreases 24 - i,
    {
        if alpha[i as usize] == c {
            proof {
                lemma_alphabet();
                assert(alphabet()[i as int] == c);
            }
            return Some(i);
        }
        i = i + 1;
    }
    None
}

/// The number of bytes of `c` in UTF-8.
fn width_of(c: char) -> (r: usize)
    ensures
        r == utf8_width(c),
{
    let u: u32 = c as u32;
    if u < 0x80 {
        1
    } else if u < 0x800 {
        2
    } else if u < 0x10000 {
        3
    } else {
        4
    }
}

/// Writes `n` as a key string: base-24 digits, zero-filled to 35 characters,
/// in groups of five with a dash between them. Zero gives the empty string.
pub fn encode_pkey(n: &BigNat) -> (r: String)
    ensures
        r@ == encode_spec(n@),
{
    if n.is_zero() {
        return String::new();
    }
    let alpha = alphabet_vec();
    let base = BigNat::from_u64(24);
    let mut out: Vec<char> = Vec::new();
    let mut num = n.clone();
    while !num.is_zero()
        invariant
            base@ == 24,
            alpha@ == alphabet(),
            digits24(n@) == digits24(num@) + out@,
        decreases num@,
    {
        let idx = big_rem(&num, &base).low_byte();
        let ghost before = out@;
        out.insert(0, alpha[idx as usize]);
        proof {
            let c = alphabet()[(num@ % 24) as int];
            assert(out@ =~= seq![c] + before);
            assert(digits24(num@) == digits24(num@ / 24).push(c));
            assert(digits24(num@ / 24).push(c) + before =~= digits24(num@ / 24) + out@);
        }
        num = big_div(&num, &base);
    }
    assert(out@ =~= digits24(n@));
    let ghost digits = out@;
    while out.len() < 35
        invariant
            out@.len() <= 35 || out@.len() == digits.len(),
            out@.len() >= digits.len(),
            out@ == Seq::new((out@.len() - digits.len()) as nat, |i: int| 'B') + digits,
        decreases 35 - out.len(),
    {
        out.insert(0, 'B');
        assert(out@ =~= Seq::new((out@.len() - digits.len()) as nat, |i: int| 'B') + digits);
    }
    assert(out@ =~= padded(digits));
    let mut result: Vec<char> = Vec::new();
    let mut i: usize = 0;
    while i < out.len()
        invariant
            i <= out.len(),
            result@ == dashed(out@.take(i as int)),
        decreases out.len() - i,
    {
        if i > 0 && i % 5 == 0 {
            result.push('-');
        }
        result.push(out[i]);
        proof {
            assert(out@.take(i + 1).drop_last() =~= out@.take(i as int));
        }
        i = i + 1;
    }
    assert(out@.take(i as int) =~= out@);
    string_of(&result)
}

/// Reads a key string back into its number. Dashes are ignored wherever
/// they stand.
pub fn decode_pkey(key: &str) -> (r: Result<BigNat, KeyError>)
    ensures
        match r {
            Ok(n) => decode_spec(key@) == Ok::<nat, KeyError>(n@),
            Err(e) => decode_spec(key@) == Err::<nat, KeyError>(e),
        },
{
    let chars = chars_of(key);
    let mut digits: Vec<char> = Vec::new();
    let mut rest: usize = 0;
    let mut i: usize = 0;
    while i < chars.len()
        invariant
            i <= chars.len(),
            digits@ == strip_dashes(chars@.take(i as int)),
            rest == byte_length(digits@) % 5,
        decreases chars.len() - i,
    {
        let c = chars[i];
        proof {
            lemma_strip_push(chars@.take(i as int), c);
            assert(chars@.take(i + 1) =~= chars@.take(i as int).push(c));
        }
        if c != '-' {
            let ghost before = digits@;
            digits.push(c);
            rest = (rest + width_of(c)) % 5;
            proof {
                assert(digits@.drop_last() =~= before);
                vstd::arithmetic::div_mod::lemma_add_mod_noop(
                    byte_length(before) as int,
                    utf8_width(c) as int,
                    5,
                );
                vstd::arithmetic::div_mod::lemma_small_mod(utf8_width(c), 5);
            }
        }
        i = i + 1;
    }
    assert(chars@.take(i as int) =~= chars@);
    if rest != 0 {
        return Err(KeyError::BadKeyLength);
    }
    let alpha = alphabet_vec();
    let base = BigNat::from_u64(24);
    let mut out = BigNat::zero();
    let mut k: usize = 0;
    assert(digits@.skip(0) =~= digits@);
    while k < digits.len()
        invariant
            k <= digits.len(),
            base@ == 24,
            alpha@ == alphabet(),
            digits@ == strip_dashes(key@),
            byte_length(digits@) % 5 == 0,
            first_invalid(digits@.take(k as int)) is None,
            first_invalid(digits@) == first_invalid(digits@.skip(k as int)),
            out@ == base24_value(digits@.take(k as int)),
        decreases digits.len() - k,
    {
        let c = digits[k];
        proof {
            assert(digits@.skip(k as int)[0] == c);
            assert(digits@.skip(k as int).drop_first() =~= digits@.skip(k + 1));
            assert(digits@.take(k + 1).drop_last() =~= digits@.take(k as int));
        }
        match digit_of(&alpha, c) {
            Some(d) => {
                out = big_add(&big_mul(&out, &base), &BigNat::from_u64(d as u64));
                proof {
                    lemma_first_invalid_push(digits@.take(k as int), c);
                    assert(digits@.take(k + 1) =~= digits@.take(k as int).push(c));
                }
            },
            None => {
                assert(first_invalid(digits@.skip(k as int)) == Some(c));
                return Err(KeyError::InvalidCharacter(c));
            },
        }
        k = k + 1;
    }
    assert(digits@.take(k as int) =~= digits@);
    Ok(out)
}

/// A sequence of digits stays one when a digit is put behind it.
proof fn lemma_first_invalid_push(s: Seq<char>, c: char)
    requires
        first_invalid(s) is None,
        alphabet().contains(c),
    ensures
        first_invalid(s.push(c)) is None,
    decreases s.len(),
{
    if s.len() == 0 {
        assert(s.push(c).drop_first() =~= s);
    } else {
        lemma_first_invalid_push(s.drop_first(), c);
        assert(s.push(c).drop_first() =~= s.drop_first().push(c));
    }
}

/// Whether every character of `s` is a digit of the alphabet.
pub open spec fn all_digits(s: Seq<char>) -> bool {
    forall|i: int| 0 <= i < s.len() ==> alphabet().contains(#[trigger] s[i])
}

/// The digits of a number are digits of the alphabet.
proof fn lemma_digits24_digits(n: nat)
    ensures
        all_digits(digits24(n)),
    decreases n,
{
    if n > 0 {
        lemma_digits24_digits(n / 24);
        lemma_alphabet();
        let c = alphabet()[(n % 24) as int];
        assert(alphabet().contains(c));
        let d = digits24(n);
        assert forall|i: int| 0 <= i < d.len() implies alphabet().contains(#[trigger] d[i]) by {
            if i < d.len() - 1 {
                assert(d[i] == digits24(n / 24)[i]);
            }
        }
    }
}

/// The digits of a number denote that number.
proof fn lemma_value_of_digits24(n: nat)
    ensures
        base24_value(digits24(n)) == n,
    decreases n,
{
    if n > 0 {
        lemma_value_of_digits24(n / 24);
        lemma_alphabet();
        let d = digits24(n);
        assert(d.drop_last() =~= digits24(n / 24));
        assert(d.last() == alphabet()[(n % 24) as int]);
        assert(n == (n / 24) * 24 + n % 24) by (nonlinear_arith);
    }
}

/// Zero digits in front do not change what the digits denote.
proof fn lemma_value_of_padding(k: nat, d: Seq<char>)
    ensures
        base24_value(Seq::new(k, |i: int| 'B') + d) == base24_value(d),
    decreases d.len(), k,
{
    let zeros = Seq::new(k, |i: int| 'B');
    let s = zeros + d;
    lemma_alphabet();
    if d.len() > 0 {
        lemma_value_of_padding(k, d.drop_last());
        assert(s.drop_last() =~= zeros + d.drop_last());
    } else if k > 0 {
        let fewer = Seq::new((k - 1) as nat, |i: int| 'B');
        lemma_value_of_padding((k - 1) as nat, d);
        assert(s.drop_last() =~= fewer + d);
        assert(s.last() == alphabet()[0]);
    } else {
        assert(s =~= d);
    }
}

/// Grouping by dashes and removing the dashes gives the characters back,
/// where none of them is a dash.
proof fn lemma_strip_dashed(s: Seq<char>)
    requires
        forall|i: int| 0 <= i < s.len() ==> s[i] != '-',
    ensures
        strip_dashes(dashed(s)) == s,
    decreases s.len(),
{
    if s.len() == 0 {
        reveal(Seq::filter);
    } else {
        let head = dashed(s.drop_last());
        lemma_strip_dashed(s.drop_last());
        lemma_strip_push(head, '-');
        lemma_strip_push(head, s.last());
        lemma_strip_push(head.push('-'), s.last());
        assert(s.drop_last().push(s.last()) =~= s);
    }
}

/// Digits of the alphabet take one byte each and none of them is invalid.
proof fn lemma_digits_shape(s: Seq<char>)
    requires
        all_digits(s),
    ensures
        byte_length(s) == s.len(),
        first_invalid(s) is None,
        forall|i: int| 0 <= i < s.len() ==> s[i] != '-',
    decreases s.len(),
{
    lemma_alphabet();
    if s.len() > 0 {
        assert(all_digits(s.drop_last())) by {
            assert forall|i: int| 0 <= i < s.drop_last().len() implies alphabet().contains(
                #[trigger] s.drop_last()[i],
            ) by {
                assert(s.drop_last()[i] == s[i]);
            }
        }
        lemma_digits_shape(s.drop_last());
        assert(alphabet().contains(s.last()));
        lemma_first_invalid_push(s.drop_last(), s.last());
        assert(s.drop_last().push(s.last()) =~= s);
        assert forall|i: int| 0 <= i < s.len() implies s[i] != '-' by {
            assert(alphabet().contains(s[i]));
        }
    }
}

/// 24 to the power `k`.
pub open spec fn pow24(k: nat) -> nat
    decreases k,
{
    if k == 0 {
        1
    } else {
        24 * pow24((k - 1) as nat)
    }
}

/// 24 to the power 35: the numbers below it have at most 35 digits.
pub open spec fn codec_limit() -> nat {
    2029520581602966642312774964747922070981914394624nat
}

/// A number below 24 to the power `k` has at most `k` digits.
proof fn lemma_digit_count(n: nat, k: nat)
    requires
        n < pow24(k),
    ensures
        digits24(n).len() <= k,
    decreases k,
{
    if n > 0 {
        assert(k > 0);
        assert(n / 24 < pow24((k - 1) as nat)) by (nonlinear_arith)
            requires
                n < 24 * pow24((k - 1) as nat),
        ;
        lemma_digit_count(n / 24, (k - 1) as nat);
    }
}

/// Decoding the key string of a number gives the number back, for every
/// number that has at most 35 digits in base 24.
pub proof fn lemma_round_trip(n: nat)
    requires
        n < codec_limit(),
    ensures
        decode_spec(encode_spec(n)) == Ok::<nat, KeyError>(n),
{
    assert(pow24(35) == codec_limit()) by {
        reveal_with_fuel(pow24, 36);
    }
    lemma_digit_count(n, 35);
    if n == 0 {
        reveal(Seq::filter);
        assert(strip_dashes(Seq::<char>::empty()) =~= Seq::<char>::empty());
    } else {
        let d = digits24(n);
        let p = padded(d);
        lemma_alphabet();
        lemma_digits24_digits(n);
        assert(all_digits(p)) by {
            assert(alphabet().contains(alphabet()[0]));
            assert forall|i: int| 0 <= i < p.len() implies alphabet().contains(#[trigger] p[i]) by {
                if d.len() < 35 && i >= 35 - d.len() {
                    assert(p[i] == d[i - (35 - d.len())]);
                }
            }
        }
        lemma_digits_shape(p);
        lemma_strip_dashed(p);
        assert(p.len() == 35);
        if d.len() < 35 {
            lemma_value_of_padding((35 - d.len()) as nat, d);
        }
        lemma_value_of_digits24(n);
    }
}

/// Whether some character of `key` is neither a dash nor a digit of the
/// alphabet.
pub open spec fn has_foreign_char(key: Seq<char>) -> bool {
    exists|i: int| 0 <= i < key.len() && key[i] != '-' && !alphabet().contains(key[i])
}

/// A sequence with a character outside the alphabet has a first such one.
proof fn lemma_first_invalid_found(s: Seq<char>, i: int)
    requires
        0 <= i < s.len(),
        !alphabet().contains(s[i]),
    ensures
        first_invalid(s) is Some,
    decreases s.len(),
{
    if alphabet().contains(s[0]) {
        assert(i > 0);
        assert(s.drop_first()[i - 1] == s[i]);
        lemma_first_invalid_found(s.drop_first(), i - 1);
    }
}

/// A key string whose length in bytes, dashes removed, is no multiple of 5,
/// or which holds a character that is neither a dash nor in the alphabet, is
/// rejected as malformed input.
pub proof fn lemma_decode_rejects(key: Seq<char>)
    requires
        byte_length(strip_dashes(key)) % 5 != 0 || has_foreign_char(key),
    ensures
        decode_spec(key) is Err,
        decode_spec(key)->Err_0.spec_kind() == crate::error::ErrorKind::InputFormat,
{
    let digits = strip_dashes(key);
    if byte_length(digits) % 5 == 0 {
        let i = choose|i: int| 0 <= i < key.len() && key[i] != '-' && !alphabet().contains(key[i]);
        let pred = |c: char| c != '-';
        assert(pred(key[i]));
        key.lemma_filter_contains(pred, i);
        assert(digits.contains(key[i]));
        let j = choose|j: int| 0 <= j < digits.len() && digits[j] == key[i];
        lemma_first_invalid_found(digits, j);
    }
}

/// The place in the grouped string of the character at place `j`.
pub open spec fn grouped_index(j: int) -> int {
    j + j / 5
}

/// Grouping keeps every character, at the place that `grouped_index` gives,
/// and puts a dash after every full group that another character follows.
pub proof fn lemma_dashed_shape(s: Seq<char>)
    ensures
        s.len() == 0 ==> dashed(s).len() == 0,
        s.len() > 0 ==> dashed(s).len() == grouped_index(s.len() - 1) + 1,
        forall|j: int| 0 <= j < s.len() ==> dashed(s)[#[trigger] grouped_index(j)] == s[j],
        forall|j: int|
            0 < j < s.len() && j % 5 == 0 ==> dashed(s)[#[trigger] grouped_index(j) - 1] == '-',
    decreases s.len(),
{
    if s.len() > 0 {
        let head = s.drop_last();
        let i = s.len() - 1;
        lemma_dashed_shape(head);
        let d = dashed(s);
        let dh = dashed(head);
        if i > 0 {
            assert(dh.len() == grouped_index(i - 1) + 1);
            assert(grouped_index(i) == grouped_index(i - 1) + 1 + (if i % 5 == 0 {
                1int
            } else {
                0int
            }));
        }
        assert forall|j: int| 0 <= j < s.len() implies d[#[trigger] grouped_index(j)] == s[j] by {
            if j < i {
                assert(dh[grouped_index(j)] == head[j]);
                assert(grouped_index(j) <= grouped_index(i - 1));
            }
        }
        assert forall|j: int| 0 < j < s.len() && j % 5 == 0 implies d[#[trigger] grouped_index(j)
            - 1] == '-' by {
            if j < i {
                assert(dh[grouped_index(j) - 1] == '-');
                assert(grouped_index(j) <= grouped_index(i - 1));
            }
        }
    }
}

/// The key string of a number between 1 and the limit has 41 characters:
/// seven groups of five digits of the alphabet, with a dash between them.
pub proof fn lemma_key_shape(n: nat)
    requires
        0 < n < codec_limit(),
    ensures
        encode_spec(n).len() == 41,
        forall|i: int|
            0 <= i < 41 ==> (#[trigger] encode_spec(n)[i] == '-' <==> i % 6 == 5),
        forall|i: int|
            0 <= i < 41 && i % 6 != 5 ==> alphabet().contains(#[trigger] encode_spec(n)[i]),
{
    assert(pow24(35) == codec_limit()) by {
        reveal_with_fuel(pow24, 36);
    }
    lemma_digit_count(n, 35);
    let d = digits24(n);
    let p = padded(d);
    lemma_alphabet();
    lemma_digits24_digits(n);
    assert(all_digits(p)) by {
        assert(alphabet().contains(alphabet()[0]));
        assert forall|i: int| 0 <= i < p.len() implies alphabet().contains(#[trigger] p[i]) by {
            if d.len() < 35 && i >= 35 - d.len() {
                assert(p[i] == d[i - (35 - d.len())]);
            }
        }
    }
    lemma_digits_shape(p);
    lemma_dashed_shape(p);
    let key = encode_spec(n);
    assert(key == dashed(p));
    assert(p.len() == 35);
    assert forall|i: int| 0 <= i < 41 implies (#[trigger] key[i] == '-' <==> i % 6 == 5) && (i % 6
        != 5 ==> alphabet().contains(key[i])) by {
        if i % 6 == 5 {
            let j = (i + 1) / 6 * 5;
            assert(0 < j < 35 && j % 5 == 0);
            assert(grouped_index(j) - 1 == i);
        } else {
            let j = i - i / 6;
            assert(0 <= j < 35);
            assert(grouped_index(j) == i);
            assert(key[i] == p[j]);
            assert(alphabet().contains(p[j]));
        }
    }
}

} // verus!
