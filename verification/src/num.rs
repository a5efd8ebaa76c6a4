//! Decimal text for 64-bit integers: rendering an `i64` as its canonical
//! decimal spelling, and converting a run of digit characters into an `i64`
//! with an exact account of when the conversion fails.

use vstd::prelude::*;
use vstd::string::StringExecFns;

use crate::text::push_char;

verus! {

/// Whether `c` is an ASCII decimal digit.
pub open spec fn is_digit_char(c: char) -> bool {
    48 <= (c as u32) && (c as u32) <= 57
}

/// The numeric value of a digit character; zero for anything else, so that
/// `digits_val` is total and non-negative.
pub open spec fn digit_val(c: char) -> nat {
    if is_digit_char(c) {
        ((c as u32) - 48) as nat
    } else {
        0
    }
}

/// Every character of `s` is an ASCII decimal digit.
pub open spec fn all_digits(s: Seq<char>) -> bool {
    forall|i: int| 0 <= i < s.len() ==> is_digit_char(#[trigger] s[i])
}

/// The digit character for a value below ten.
pub open spec fn digit_char(d: nat) -> char {
    if d == 0 { '0' }
    else if d == 1 { '1' }
    else if d == 2 { '2' }
    else if d == 3 { '3' }
    else if d == 4 { '4' }
    else if d == 5 { '5' }
    else if d == 6 { '6' }
    else if d == 7 { '7' }
    else if d == 8 { '8' }
    else { '9' }
}

/// The decimal spelling of a natural number, most significant digit first,
/// without leading zeros (except for zero itself).
pub open spec fn spec_u64_dec(n: nat) -> Seq<char>
    decreases n,
{
    if n < 10 {
        seq![digit_char(n)]
    } else {
        spec_u64_dec(n / 10).push(digit_char(n % 10))
    }
}

/// The decimal spelling of an integer: a minus sign before the magnitude
/// for negative values.
pub open spec fn spec_i64_dec(v: int) -> Seq<char> {
    if v < 0 {
        seq!['-'] + spec_u64_dec((-v) as nat)
    } else {
        spec_u64_dec(v as nat)
    }
}

/// The value of a digit run read most significant digit first.
pub open spec fn digits_val(s: Seq<char>) -> nat
    decreases s.len(),
{
    if s.len() == 0 {
        0
    } else {
        digits_val(s.drop_last()) * 10 + digit_val(s.last())
    }
}

fn digit_to_char(d: u64) -> (c: char)
    requires
        d < 10,
    ensures
        c == digit_char(d as nat),
{
    match d {
        0 => '0',
        1 => '1',
        2 => '2',
        3 => '3',
        4 => '4',
        5 => '5',
        6 => '6',
        7 => '7',
        8 => '8',
        _ => '9',
    }
}

/// Renders a natural number in decimal.
pub fn u64_to_string(n: u64) -> (r: String)
    ensures
        r@ == spec_u64_dec(n as nat),
    decreases n,
{
    if n < 10 {
        let mut s = String::new();
        push_char(&mut s, digit_to_char(n));
        proof {
            assert(s@ =~= spec_u64_dec(n as nat));
        }
        s
    } else {
        let mut s = u64_to_string(n / 10);
        push_char(&mut s, digit_to_char(n % 10));
        s
    }
}

/// Renders a signed 64-bit integer in decimal.
pub fn i64_to_string(n: i64) -> (r: String)
    ensures
        r@ == spec_i64_dec(n as int),
{
    if n >= 0 {
        u64_to_string(n as u64)
    } else {
        let mag: u64 = ((-(n + 1)) as u64) + 1;
        assert(mag as int == -(n as int));
        let mut s = String::new();
        push_char(&mut s, '-');
        let digits = u64_to_string(mag);
        s.append(digits.as_str());
        proof {
            assert(s@ =~= spec_i64_dec(n as int));
        }
        s
    }
}

/// A digit prefix never values more than the whole run.
proof fn lemma_digits_val_prefix_le(s: Seq<char>, k: int)
    requires
        0 <= k <= s.len(),
    ensures
        digits_val(s.subrange(0, k)) <= digits_val(s),
    decreases s.len() - k,
{
    if k == s.len() {
        assert(s.subrange(0, k) =~= s);
    } else {
        lemma_digits_val_prefix_le(s, k + 1);
        let p = s.subrange(0, k + 1);
        assert(p.drop_last() =~= s.subrange(0, k));
        assert(digits_val(p) == digits_val(s.subrange(0, k)) * 10 + digit_val(s[k]));
    }
}

/// Converts a run of characters into an `i64`. Succeeds exactly on a
/// non-empty run of ASCII digits whose value fits; the value is then the
/// decimal reading of the run.
pub fn digits_to_i64(v: &Vec<char>) -> (r: Option<i64>)
    ensures
        r is Some <==> (v@.len() > 0 && all_digits(v@) && digits_val(v@) <= i64::MAX),
        r is Some ==> r->0 == digits_val(v@),
{
    if v.len() == 0 {
        return None;
    }
    let mut acc: u64 = 0;
    let mut i: usize = 0;
    while i < v.len()
        invariant
            0 < v@.len(),
            i <= v@.len(),
            all_digits(v@.subrange(0, i as int)),
            acc == digits_val(v@.subrange(0, i as int)),
            acc <= i64::MAX,
        decreases v@.len() - i,
    {
        let c = v[i];
        let u = c as u32;
        if u < 48 || u > 57 {
            return None;
        }
        let d: u64 = (u - 48) as u64;
        if acc > (9223372036854775807u64 - d) / 10 {
            proof {
                let p = v@.subrange(0, i as int + 1);
                assert(p.drop_last() =~= v@.subrange(0, i as int));
                assert(digits_val(p) == acc * 10 + d);
                assert(acc * 10 + d > i64::MAX) by {
                    assert(acc >= (9223372036854775807u64 - d) / 10 + 1);
                    assert(acc * 10 >= ((9223372036854775807u64 - d) / 10 + 1) * 10) by (nonlinear_arith)
                        requires acc >= (9223372036854775807u64 - d) / 10 + 1;
                    assert(((9223372036854775807 - d) / 10 + 1) * 10 > 9223372036854775807 - d);
                }
                lemma_digits_val_prefix_le(v@, i as int + 1);
            }
            return None;
        }
        proof {
            assert(acc * 10 + d <= i64::MAX) by {
                assert(acc <= (9223372036854775807u64 - d) / 10);
                assert(acc * 10 <= ((9223372036854775807u64 - d) / 10) * 10) by (nonlinear_arith)
                    requires acc <= (9223372036854775807u64 - d) / 10;
                assert(((9223372036854775807 - d) / 10) * 10 <= 9223372036854775807 - d);
            }
            let p = v@.subrange(0, i as int + 1);
            assert(p.drop_last() =~= v@.subrange(0, i as int));
            assert(p.last() == v@[i as int]);
        }
        acc = acc * 10 + d;
        i = i + 1;
    }
    proof {
        assert(v@.subrange(0, v@.len() as int) =~= v@);
    }
    Some(acc as i64)
}

/// A rendered decimal spelling is a non-empty run of digits, and reading
/// it back as a decimal number yields the value it was rendered from.
/// This is the lexical core of the re-parse fixed point for integer
/// literals: the canonical text of an integer tokenizes to one integer
/// token whose value is unchanged.
pub proof fn lemma_u64_dec_roundtrip(n: nat)
    ensures
        spec_u64_dec(n).len() >= 1,
        all_digits(spec_u64_dec(n)),
        digits_val(spec_u64_dec(n)) == n,
    decreases n,
{
    if n < 10 {
        let s = seq![digit_char(n)];
        assert(s.len() == 1);
        assert(s.last() == digit_char(n));
        assert(s.drop_last() =~= Seq::<char>::empty());
        assert(digits_val(s.drop_last()) == 0);
        assert(digit_val(digit_char(n)) == n);
        assert(digits_val(s) == digits_val(s.drop_last()) * 10 + digit_val(s.last()));
    } else {
        lemma_u64_dec_roundtrip(n / 10);
        let pre = spec_u64_dec(n / 10);
        let s = spec_u64_dec(n);
        assert(s == pre.push(digit_char(n % 10)));
        assert(s.drop_last() =~= pre);
        assert(s.last() == digit_char(n % 10));
        assert(digit_val(digit_char(n % 10)) == n % 10);
        assert(digits_val(s) == (n / 10) * 10 + n % 10);
        assert forall|i: int| 0 <= i < s.len() implies is_digit_char(#[trigger] s[i]) by {
            if i < s.len() - 1 {
                assert(s[i] == pre[i]);
            } else {
                assert(s[i] == digit_char(n % 10));
            }
        }
    }
}

} // verus!
