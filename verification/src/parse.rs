//! The decimal control-file format.
//!
//! A control file holds one non-negative decimal integer, possibly
//! surrounded by whitespace (typically a trailing newline).  Reading
//! trims the text and parses the digits; writing produces the bare
//! digits.  Both directions are verified against the spec functions
//! here, and [`lemma_format_parse_round_trip`] ties them together.

use vstd::arithmetic::div_mod::lemma_fundamental_div_mod;
use vstd::prelude::*;

use crate::Error;

verus! {

/// ASCII whitespace, as trimming removes it from a control file's text.
pub open spec fn is_space(b: u8) -> bool {
    b == 32 || (9 <= b && b <= 13)
}

/// An ASCII decimal digit.
pub open spec fn is_digit(b: u8) -> bool {
    48 <= b && b <= 57
}

/// The numeric value of one digit byte.
pub open spec fn digit_val(b: u8) -> int {
    b - 48
}

/// Every byte of `s` is a decimal digit.
pub open spec fn all_digits(s: Seq<u8>) -> bool {
    forall|i: int| 0 <= i < s.len() ==> is_digit(s[i])
}

/// The number written by a string of digit bytes, most significant first.
pub open spec fn digits_value(s: Seq<u8>) -> int
    decreases s.len(),
{
    if s.len() == 0 {
        0
    } else {
        digits_value(s.drop_last()) * 10 + digit_val(s.last())
    }
}

/// `s` without leading whitespace.
pub open spec fn trim_front(s: Seq<u8>) -> Seq<u8>
    decreases s.len(),
{
    if s.len() > 0 && is_space(s[0]) {
        trim_front(s.skip(1))
    } else {
        s
    }
}

/// `s` without trailing whitespace.
pub open spec fn trim_back(s: Seq<u8>) -> Seq<u8>
    decreases s.len(),
{
    if s.len() > 0 && is_space(s.last()) {
        trim_back(s.drop_last())
    } else {
        s
    }
}

/// `s` without leading and trailing whitespace.
pub open spec fn trimmed(s: Seq<u8>) -> Seq<u8> {
    trim_back(trim_front(s))
}

/// What parsing a bare digit string yields: its value, provided the
/// string is non-empty, all digits, and the value fits in an `i128`.
pub open spec fn parse_digits_spec(s: Seq<u8>) -> Option<int> {
    if s.len() > 0 && all_digits(s) && digits_value(s) <= i128::MAX {
        Some(digits_value(s))
    } else {
        None
    }
}

/// What reading a control file yields: the file's text, trimmed, read
/// as a bare digit string.
pub open spec fn parse_field_spec(s: Seq<u8>) -> Option<int> {
    parse_digits_spec(trimmed(s))
}

/// The value of a digit string is non-negative.
pub proof fn lemma_digits_value_nonneg(s: Seq<u8>)
    requires
        all_digits(s),
    ensures
        digits_value(s) >= 0,
    decreases s.len(),
{
    if s.len() > 0 {
        assert forall|i: int| 0 <= i < s.drop_last().len() implies is_digit(
            s.drop_last()[i],
        ) by {
            assert(s.drop_last()[i] == s[i]);
        }
        lemma_digits_value_nonneg(s.drop_last());
    }
}

/// Extending a digit string can only grow its value.
pub proof fn lemma_digits_value_prefix_le(s: Seq<u8>, k: int)
    requires
        all_digits(s),
        0 <= k <= s.len(),
    ensures
        digits_value(s.take(k)) <= digits_value(s),
    decreases s.len() - k,
{
    if k == s.len() {
        assert(s.take(k) =~= s);
    } else {
        assert forall|i: int| 0 <= i < s.take(k).len() implies is_digit(s.take(k)[i]) by {
            assert(s.take(k)[i] == s[i]);
        }
        lemma_digits_value_nonneg(s.take(k));
        assert(s.take(k + 1).drop_last() =~= s.take(k));
        assert(s.take(k + 1).last() == s[k]);
        lemma_digits_value_prefix_le(s, k + 1);
    }
}

/// Whether a byte is ASCII whitespace.
fn space_byte(b: u8) -> (r: bool)
    ensures
        r == is_space(b),
{
    b == 32 || (9 <= b && b <= 13)
}

/// Parses a bare digit string as a non-negative integer.
///
/// Succeeds exactly when the string is non-empty, all digits, and the
/// value fits in an `i128`; no sign and no surrounding whitespace is
/// accepted.
pub fn parse_digits(s: &[u8]) -> (r: Result<i128, Error>)
    ensures
        match parse_digits_spec(s@) {
            Some(v) => 0 <= v && r == Ok::<i128, Error>(v as i128),
            None => r == Err::<i128, Error>(Error::Parse),
        },
        r is Ok ==> 0 <= r->Ok_0,
{
    let n: usize = s.len();
    if n == 0 {
        return Err(Error::Parse);
    }
    let mut acc: i128 = 0;
    let mut k: usize = 0;
    while k < n
        invariant
            n == s@.len(),
            0 <= k <= n,
            all_digits(s@.take(k as int)),
            0 <= acc,
            acc as int == digits_value(s@.take(k as int)),
        decreases n - k,
    {
        let b: u8 = s[k];
        if b < 48 || b > 57 {
            assert(!is_digit(s@[k as int]));
            return Err(Error::Parse);
        }
        let d: i128 = (b - 48) as i128;
        proof {
            let t = s@.take(k as int + 1);
            assert(t.drop_last() =~= s@.take(k as int));
            assert(t.last() == s@[k as int]);
            assert forall|i: int| 0 <= i < t.len() implies is_digit(t[i]) by {
                assert(t[i] == s@[i]);
                if i < k as int {
                    assert(is_digit(s@.take(k as int)[i]));
                }
            }
        }
        let shifted: Option<i128> = acc.checked_mul(10);
        let next: Option<i128> = match shifted {
            Some(a) => a.checked_add(d),
            None => None,
        };
        match next {
            Some(a) => {
                acc = a;
            },
            None => {
                proof {
                    assert(digits_value(s@.take(k as int + 1)) > i128::MAX);
                    if all_digits(s@) {
                        lemma_digits_value_prefix_le(s@, k as int + 1);
                    }
                }
                return Err(Error::Parse);
            },
        }
        k = k + 1;
    }
    proof {
        assert(s@.take(n as int) =~= s@);
    }
    Ok(acc)
}

/// Reads a control file's text: trims ASCII whitespace off both ends and
/// parses the remainder as a non-negative decimal integer.
pub fn parse_int_field(s: &[u8]) -> (r: Result<i128, Error>)
    ensures
        match parse_field_spec(s@) {
            Some(v) => 0 <= v && r == Ok::<i128, Error>(v as i128),
            None => r == Err::<i128, Error>(Error::Parse),
        },
        r is Ok ==> 0 <= r->Ok_0,
{
    let n: usize = s.len();
    let mut i: usize = 0;
    proof {
        assert(s@.skip(0) =~= s@);
    }
    while i < n && space_byte(s[i])
        invariant
            n == s@.len(),
            0 <= i <= n,
            trim_front(s@) == trim_front(s@.skip(i as int)),
        decreases n - i,
    {
        proof {
            assert(s@.skip(i as int)[0] == s@[i as int]);
            assert(s@.skip(i as int).skip(1) =~= s@.skip(i as int + 1));
        }
        i = i + 1;
    }
    proof {
        if i == n {
            assert(s@.skip(i as int) =~= Seq::<u8>::empty());
        }
        assert(trim_front(s@) =~= s@.subrange(i as int, n as int));
    }
    let mut j: usize = n;
    while j > i && space_byte(s[j - 1])
        invariant
            n == s@.len(),
            i <= j <= n,
            trim_back(s@.subrange(i as int, n as int)) == trim_back(
                s@.subrange(i as int, j as int),
            ),
        decreases j,
    {
        proof {
            assert(s@.subrange(i as int, j as int).last() == s@[j - 1]);
            assert(s@.subrange(i as int, j as int).drop_last() =~= s@.subrange(
                i as int,
                j as int - 1,
            ));
        }
        j = j - 1;
    }
    proof {
        assert(trimmed(s@) == s@.subrange(i as int, j as int));
    }
    let t: &[u8] = vstd::slice::slice_subrange(s, i, j);
    parse_digits(t)
}

/// The decimal digits of a non-negative number, most significant first.
pub open spec fn dec_digits(n: int) -> Seq<u8>
    decreases n,
{
    if n < 10 {
        seq![(n + 48) as u8]
    } else {
        dec_digits(n / 10).push((n % 10 + 48) as u8)
    }
}

/// Recursive digit producer over an unsigned accumulator.
fn format_digits(v: u128) -> (r: Vec<u8>)
    ensures
        r@ == dec_digits(v as int),
    decreases v,
{
    if v < 10 {
        let mut out: Vec<u8> = Vec::new();
        out.push((v as u8) + 48);
        proof {
            assert(out@ =~= dec_digits(v as int));
        }
        out
    } else {
        let mut out = format_digits(v / 10);
        out.push(((v % 10) as u8) + 48);
        out
    }
}

/// Writes a non-negative value in the control-file format: its bare
/// decimal digits, most significant first, no sign and no padding.
pub fn format_int(v: i128) -> (r: Vec<u8>)
    requires
        0 <= v,
    ensures
        r@ == dec_digits(v as int),
{
    format_digits(v as u128)
}

/// Formatted output is one or more digit bytes.
pub proof fn lemma_dec_digits_wf(n: int)
    requires
        0 <= n,
    ensures
        dec_digits(n).len() >= 1,
        all_digits(dec_digits(n)),
    decreases n,
{
    if n < 10 {
        assert(dec_digits(n)[0] == (n + 48) as u8);
        assert(all_digits(dec_digits(n)));
    } else {
        lemma_dec_digits_wf(n / 10);
        let s = dec_digits(n);
        assert forall|i: int| 0 <= i < s.len() implies is_digit(s[i]) by {
            if i < s.len() - 1 {
                assert(s[i] == dec_digits(n / 10)[i]);
            } else {
                assert(s[i] == (n % 10 + 48) as u8);
            }
        }
    }
}

/// Formatting writes exactly the number's decimal representation: parsing
/// the digit string back recovers the number.
pub proof fn lemma_dec_digits_value(n: int)
    requires
        0 <= n,
    ensures
        digits_value(dec_digits(n)) == n,
    decreases n,
{
    let s = dec_digits(n);
    if n < 10 {
        assert(s.drop_last() =~= Seq::<u8>::empty());
        assert(digits_value(Seq::<u8>::empty()) == 0);
        assert(s.last() == (n + 48) as u8);
        assert(digit_val((n + 48) as u8) == n);
    } else {
        lemma_dec_digits_value(n / 10);
        assert(s.drop_last() =~= dec_digits(n / 10));
        assert(s.last() == (n % 10 + 48) as u8);
        assert(n / 10 * 10 + n % 10 == n) by {
            lemma_fundamental_div_mod(n, 10);
        }
    }
}

/// Law: a value written to a control file and immediately read back
/// parses to exactly that value.
pub proof fn lemma_format_parse_round_trip(n: int)
    requires
        0 <= n <= i128::MAX,
    ensures
        parse_field_spec(dec_digits(n)) == Some(n),
{
    lemma_dec_digits_wf(n);
    lemma_dec_digits_value(n);
    let s = dec_digits(n);
    assert(is_digit(s[0]));
    assert(!is_space(s[0]));
    assert(trim_front(s) == s);
    assert(is_digit(s.last()));
    assert(!is_space(s.last()));
    assert(trim_back(s) == s);
}

} // verus!
