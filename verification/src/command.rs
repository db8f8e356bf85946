//! The command layer: turning process input into device operations.
//!
//! Everything here is pure logic on plain values.  The unverified shell
//! around the library gathers the raw material (argument bytes, the
//! names under the backlight root, input lines) and performs the file
//! traffic; this module decides what those bytes mean and what to do.

use vstd::prelude::*;

use crate::backlight::{clamp, Backlight, Ops};
use crate::parse::{parse_digits, parse_digits_spec, parse_field_spec, parse_int_field};
use crate::Error;

verus! {

/// A `+` or `-` byte: an operation prefix on a command argument.
pub open spec fn is_sign(b: u8) -> bool {
    b == 43 || b == 45
}

/// The argument's bytes with every `+` and `-` removed, as stripping the
/// operation prefix does before the numeric parse.
pub open spec fn strip_signs_spec(s: Seq<u8>) -> Seq<u8>
    decreases s.len(),
{
    if s.len() == 0 {
        Seq::empty()
    } else if is_sign(s.last()) {
        strip_signs_spec(s.drop_last())
    } else {
        strip_signs_spec(s.drop_last()).push(s.last())
    }
}

/// The operation selected by the argument's first byte.
pub open spec fn op_of_first(b: u8) -> Ops {
    if b == 43 {
        Ops::Increase
    } else if b == 45 {
        Ops::Decrease
    } else {
        Ops::Assign
    }
}

/// Removes every `+` and `-` byte from the argument.
fn strip_signs(s: &[u8]) -> (out: Vec<u8>)
    ensures
        out@ == strip_signs_spec(s@),
{
    let mut out: Vec<u8> = Vec::new();
    let mut k: usize = 0;
    proof {
        assert(s@.take(0) =~= Seq::<u8>::empty());
    }
    while k < s.len()
        invariant
            0 <= k <= s@.len(),
            out@ == strip_signs_spec(s@.take(k as int)),
        decreases s@.len() - k,
    {
        let b: u8 = s[k];
        proof {
            let t = s@.take(k as int + 1);
            assert(t.drop_last() =~= s@.take(k as int));
            assert(t.last() == s@[k as int]);
        }
        if !(b == 43 || b == 45) {
            out.push(b);
        }
        k = k + 1;
    }
    proof {
        assert(s@.take(s@.len() as int) =~= s@);
    }
    out
}

/// Parses one command argument into an operation and a value.
///
/// A leading `+` selects Increase and a leading `-` selects Decrease;
/// any other first byte means Assign.  Every `+` and `-` byte is then
/// stripped and the remainder read as a bare decimal value.  An empty
/// or otherwise unreadable argument is fatal.
pub fn parse_command(arg: &[u8]) -> (r: Result<(Ops, i128), Error>)
    ensures
        arg@.len() == 0 ==> r == Err::<(Ops, i128), Error>(Error::Argument),
        arg@.len() > 0 ==> match parse_digits_spec(strip_signs_spec(arg@)) {
            Some(v) => 0 <= v && r == Ok::<(Ops, i128), Error>((op_of_first(arg@[0]), v as i128)),
            None => r == Err::<(Ops, i128), Error>(Error::Argument),
        },
        r is Ok ==> 0 <= r->Ok_0.1,
{
    if arg.len() == 0 {
        return Err(Error::Argument);
    }
    let b0: u8 = arg[0];
    let op: Ops = if b0 == 43 {
        Ops::Increase
    } else if b0 == 45 {
        Ops::Decrease
    } else {
        Ops::Assign
    };
    let digits = strip_signs(arg);
    match parse_digits(digits.as_slice()) {
        Ok(v) => Ok((op, v)),
        Err(_) => Err(Error::Argument),
    }
}

/// Byte-wise lexicographic order on names.
pub open spec fn lex_le(a: Seq<u8>, b: Seq<u8>) -> bool
    decreases a.len(),
{
    if a.len() == 0 {
        true
    } else if b.len() == 0 {
        false
    } else if a[0] < b[0] {
        true
    } else if a[0] > b[0] {
        false
    } else {
        lex_le(a.skip(1), b.skip(1))
    }
}

/// The lexicographic order is reflexive.
pub proof fn lemma_lex_le_reflexive(a: Seq<u8>)
    ensures
        lex_le(a, a),
    decreases a.len(),
{
    if a.len() > 0 {
        lemma_lex_le_reflexive(a.skip(1));
    }
}

/// The lexicographic order is total.
pub proof fn lemma_lex_le_total(a: Seq<u8>, b: Seq<u8>)
    ensures
        lex_le(a, b) || lex_le(b, a),
    decreases a.len(),
{
    if a.len() > 0 && b.len() > 0 && a[0] == b[0] {
        lemma_lex_le_total(a.skip(1), b.skip(1));
    }
}

/// Names below each other in the lexicographic order are equal.
pub proof fn lemma_lex_le_antisymmetric(a: Seq<u8>, b: Seq<u8>)
    requires
        lex_le(a, b),
        lex_le(b, a),
    ensures
        a == b,
    decreases a.len(),
{
    if a.len() == 0 {
        assert(b.len() == 0);
        assert(a =~= b);
    } else {
        assert(a[0] == b[0]);
        lemma_lex_le_antisymmetric(a.skip(1), b.skip(1));
        assert forall|i: int| 0 <= i < a.len() implies a[i] == b[i] by {
            if i > 0 {
                assert(a.skip(1)[i - 1] == a[i]);
                assert(b.skip(1)[i - 1] == b[i]);
            }
        }
        assert(a =~= b);
    }
}

/// The contract of [`first_device`] pins the chosen name: any two
/// indices that are both lexicographic minima of the same list hold
/// equal names, so ties change at most the index, never the device.
pub proof fn lemma_minimum_name_unique(names: Seq<Seq<u8>>, i: int, j: int)
    requires
        0 <= i < names.len(),
        0 <= j < names.len(),
        forall|k: int| 0 <= k < names.len() ==> lex_le(names[i], names[k]),
        forall|k: int| 0 <= k < names.len() ==> lex_le(names[j], names[k]),
    ensures
        names[i] == names[j],
{
    lemma_lex_le_antisymmetric(names[i], names[j]);
}

/// The lexicographic order is transitive.
pub proof fn lemma_lex_le_transitive(a: Seq<u8>, b: Seq<u8>, c: Seq<u8>)
    requires
        lex_le(a, b),
        lex_le(b, c),
    ensures
        lex_le(a, c),
    decreases a.len(),
{
    if a.len() > 0 && b.len() > 0 && c.len() > 0 && a[0] == b[0] && b[0] == c[0] {
        lemma_lex_le_transitive(a.skip(1), b.skip(1), c.skip(1));
    }
}

/// Compares two names in byte-wise lexicographic order.
pub fn lex_le_bytes(a: &Vec<u8>, b: &Vec<u8>) -> (r: bool)
    ensures
        r == lex_le(a@, b@),
{
    let alen: usize = a.len();
    let blen: usize = b.len();
    let mut k: usize = 0;
    proof {
        assert(a@.skip(0) =~= a@);
        assert(b@.skip(0) =~= b@);
    }
    while k < alen && k < blen
        invariant
            alen == a@.len(),
            blen == b@.len(),
            0 <= k <= alen,
            k <= blen,
            lex_le(a@, b@) == lex_le(a@.skip(k as int), b@.skip(k as int)),
        decreases alen - k,
    {
        let x: u8 = a[k];
        let y: u8 = b[k];
        proof {
            assert(a@.skip(k as int)[0] == a@[k as int]);
            assert(b@.skip(k as int)[0] == b@[k as int]);
            assert(a@.skip(k as int).skip(1) =~= a@.skip(k as int + 1));
            assert(b@.skip(k as int).skip(1) =~= b@.skip(k as int + 1));
        }
        if x < y {
            return true;
        }
        if x > y {
            return false;
        }
        k = k + 1;
    }
    proof {
        if k == alen {
            assert(a@.skip(k as int).len() == 0);
        } else {
            assert(b@.skip(k as int).len() == 0);
            assert(a@.skip(k as int).len() > 0);
        }
    }
    alen <= blen
}

/// Picks the device to bind to when none is named: the index of the
/// lexicographically first name, as sorting the entries under the
/// backlight root and taking the head does.  An empty root is fatal.
pub fn first_device(names: &Vec<Vec<u8>>) -> (r: Result<usize, Error>)
    ensures
        names@.len() == 0 ==> r == Err::<usize, Error>(Error::DeviceNotFound),
        names@.len() > 0 ==> {
            &&& r is Ok
            &&& (r->Ok_0 as int) < names@.len()
            &&& forall|j: int|
                0 <= j < names@.len() ==> lex_le(names@[r->Ok_0 as int]@, names@[j]@)
        },
{
    if names.len() == 0 {
        return Err(Error::DeviceNotFound);
    }
    let mut best: usize = 0;
    let mut k: usize = 1;
    proof {
        lemma_lex_le_reflexive(names@[0]@);
    }
    while k < names.len()
        invariant
            1 <= k <= names@.len(),
            (best as int) < k,
            forall|j: int| 0 <= j < k ==> lex_le(names@[best as int]@, names@[j]@),
        decreases names@.len() - k,
    {
        if lex_le_bytes(&names[k], &names[best]) {
            proof {
                assert forall|j: int| 0 <= j < k implies lex_le(
                    names@[k as int]@,
                    names@[j]@,
                ) by {
                    lemma_lex_le_transitive(names@[k as int]@, names@[best as int]@, names@[j]@);
                }
                lemma_lex_le_reflexive(names@[k as int]@);
            }
            best = k;
        } else {
            proof {
                lemma_lex_le_total(names@[k as int]@, names@[best as int]@);
            }
        }
        k = k + 1;
    }
    Ok(best)
}

/// Streaming mode: applies one batch of input lines to the device, in
/// order.  Each line is read as an absolute brightness and applied as
/// `Ops::Assign` against the bounds held by `bl`; the returned vector
/// holds the stored value for each line.  A malformed line aborts the
/// whole run right there, per the fatal-error policy; lines already
/// processed stay applied.
pub fn apply_stream(bl: &mut Backlight, lines: &Vec<Vec<u8>>) -> (r: Result<Vec<i128>, Error>)
    requires
        old(bl).wf(),
    ensures
        final(bl).wf(),
        final(bl).device@ == old(bl).device@,
        final(bl).max_bright == old(bl).max_bright,
        final(bl).min_bright == old(bl).min_bright,
        match r {
            Ok(outs) => {
                &&& outs@.len() == lines@.len()
                &&& forall|i: int| 0 <= i < lines@.len() ==> parse_field_spec(lines@[i]@) is Some
                &&& forall|i: int|
                    0 <= i < lines@.len() ==> outs@[i] as int == clamp(
                        parse_field_spec(lines@[i]@)->Some_0,
                        0,
                        old(bl).max_bright as int,
                    )
                &&& final(bl).cur_bright as int == if lines@.len() > 0 {
                    outs@.last() as int
                } else {
                    old(bl).cur_bright as int
                }
            },
            Err(e) => {
                &&& e == Error::Parse
                &&& exists|i: int|
                    0 <= i < lines@.len() && parse_field_spec(lines@[i]@) is None && (forall|
                        j: int,
                    |
                        0 <= j < i ==> parse_field_spec(lines@[j]@) is Some)
            },
        },
{
    let mut outs: Vec<i128> = Vec::new();
    let mut k: usize = 0;
    while k < lines.len()
        invariant
            0 <= k <= lines@.len(),
            bl.wf(),
            bl.device@ == old(bl).device@,
            bl.max_bright == old(bl).max_bright,
            bl.min_bright == old(bl).min_bright,
            outs@.len() == k,
            forall|i: int| 0 <= i < k ==> parse_field_spec(lines@[i]@) is Some,
            forall|i: int|
                0 <= i < k ==> outs@[i] as int == clamp(
                    parse_field_spec(lines@[i]@)->Some_0,
                    0,
                    old(bl).max_bright as int,
                ),
            bl.cur_bright as int == if k > 0 {
                outs@.last() as int
            } else {
                old(bl).cur_bright as int
            },
        decreases lines@.len() - k,
    {
        let line: &Vec<u8> = &lines[k];
        match parse_int_field(line.as_slice()) {
            Ok(v) => {
                let ghost prev = outs@;
                let t = bl.set_brightness(Ops::Assign, v);
                outs.push(t);
                proof {
                    assert forall|i: int| 0 <= i < k as int + 1 implies outs@[i] as int == clamp(
                        parse_field_spec(lines@[i]@)->Some_0,
                        0,
                        old(bl).max_bright as int,
                    ) by {
                        if i < k as int {
                            assert(outs@[i] == prev[i]);
                        } else {
                            assert(outs@[i] == t);
                        }
                    }
                }
            },
            Err(_) => {
                return Err(Error::Parse);
            },
        }
        k = k + 1;
    }
    Ok(outs)
}

} // verus!
