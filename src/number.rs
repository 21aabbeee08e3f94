//! The value of a JSON number literal, read as an unsigned 64-bit integer.
use vstd::prelude::*;

verus! {

pub open spec fn is_digit(b: u8) -> bool {
    48 <= b <= 57
}

/// A non-empty run of decimal digits.
pub open spec fn all_digits(s: Seq<u8>) -> bool {
    s.len() > 0 && forall|i: int| 0 <= i < s.len() ==> is_digit(#[trigger] s[i])
}

/// The number that a run of decimal digits denotes.
pub open spec fn decimal(s: Seq<u8>) -> int
    decreases s.len(),
{
    if s.len() == 0 {
        0
    } else {
        decimal(s.drop_last()) * 10 + (s.last() - 48)
    }
}

/// The integer that a number literal denotes: digits, or a minus sign and
/// digits. A literal with a fraction or an exponent denotes none.
pub open spec fn integer_literal(lit: Seq<u8>) -> Option<int> {
    if all_digits(lit) {
        Some(decimal(lit))
    } else if lit.len() > 0 && lit[0] == 45 && all_digits(lit.drop_first()) {
        Some(-decimal(lit.drop_first()))
    } else {
        None
    }
}

/// What a number literal gives as an unsigned 64-bit integer.
#[derive(Debug, Clone, Copy, PartialEq, Eq)]
pub enum Unsigned {
    Value(u64),
    /// An integer below zero or above `u64::MAX`.
    OutOfRange,
    /// A number with a fraction or an exponent.
    NotAnInteger,
}

pub open spec fn unsigned_spec(lit: Seq<u8>) -> Unsigned {
    match integer_literal(lit) {
        Some(k) => if 0 <= k <= u64::MAX {
            Unsigned::Value(k as u64)
        } else {
            Unsigned::OutOfRange
        },
        None => Unsigned::NotAnInteger,
    }
}

proof fn lemma_decimal_prefix(s: Seq<u8>, i: int)
    requires
        0 <= i <= s.len(),
        forall|j: int| 0 <= j < s.len() ==> is_digit(#[trigger] s[j]),
    ensures
        0 <= decimal(s.subrange(0, i)) <= decimal(s),
    decreases s.len(),
{
    if s.len() > 0 {
        if i < s.len() {
            assert(s.drop_last().subrange(0, i) =~= s.subrange(0, i));
            lemma_decimal_prefix(s.drop_last(), i);
        } else {
            assert(s.subrange(0, i) =~= s);
            lemma_decimal_prefix(s.drop_last(), i - 1);
        }
        let d = decimal(s.drop_last());
        assert(d * 10 >= d) by (nonlinear_arith)
            requires d >= 0;
    } else {
        assert(s.subrange(0, i) =~= s);
    }
}

/// The number that the digits denote, where it is at most `u64::MAX`.
fn decimal_u64(d: &[u8]) -> (r: Option<u64>)
    requires
        forall|j: int| 0 <= j < d@.len() ==> is_digit(#[trigger] d@[j]),
    ensures
        r matches Some(v) ==> v == decimal(d@),
        r is None <==> decimal(d@) > u64::MAX,
{
    let mut acc: u64 = 0;
    let mut i: usize = 0;
    while i < d.len()
        invariant
            i <= d@.len(),
            forall|j: int| 0 <= j < d@.len() ==> is_digit(#[trigger] d@[j]),
            acc == decimal(d@.subrange(0, i as int)),
        decreases d@.len() - i,
    {
        let digit = (d[i] - 48) as u64;
        assert(d@.subrange(0, i + 1).drop_last() =~= d@.subrange(0, i as int));
        proof {
            lemma_decimal_prefix(d@, i + 1);
        }
        if acc > (u64::MAX - digit) / 10 {
            assert(acc * 10 + digit > u64::MAX) by (nonlinear_arith)
                requires acc > (u64::MAX - digit) / 10, digit <= 9;
            return None;
        }
        assert(acc * 10 + digit <= u64::MAX) by (nonlinear_arith)
            requires acc <= (u64::MAX - digit) / 10, digit <= 9;
        acc = acc * 10 + digit;
        i = i + 1;
    }
    assert(d@.subrange(0, i as int) =~= d@);
    Some(acc)
}

fn all_digits_from(lit: &[u8], start: usize) -> (r: bool)
    requires
        start <= lit@.len(),
    ensures
        r == all_digits(lit@.subrange(start as int, lit@.len() as int)),
{
    if start >= lit.len() {
        return false;
    }
    let mut i: usize = start;
    while i < lit.len()
        invariant
            start <= i <= lit@.len(),
            forall|j: int| start <= j < i ==> is_digit(#[trigger] lit@[j]),
        decreases lit@.len() - i,
    {
        if lit[i] < 48 || lit[i] > 57 {
            assert(!is_digit(lit@.subrange(start as int, lit@.len() as int)[i - start]));
            return false;
        }
        i = i + 1;
    }
    assert(forall|j: int| 0 <= j < lit@.len() - start
        ==> lit@.subrange(start as int, lit@.len() as int)[j] == lit@[j + start]);
    true
}

/// Reads a number literal as an unsigned 64-bit integer: its exact value
/// where it is an integer from 0 to `u64::MAX` (`-0` included).
pub fn parse_unsigned(lit: &[u8]) -> (r: Unsigned)
    ensures
        r == unsigned_spec(lit@),
{
    if all_digits_from(lit, 0) {
        assert(lit@.subrange(0, lit@.len() as int) =~= lit@);
        match decimal_u64(lit) {
            Some(v) => Unsigned::Value(v),
            None => Unsigned::OutOfRange,
        }
    } else if lit.len() > 0 && lit[0] == 45 && all_digits_from(lit, 1) {
        assert(lit@.subrange(1, lit@.len() as int) =~= lit@.drop_first());
        let tail = slice_tail(lit);
        proof {
            lemma_decimal_prefix(lit@.drop_first(), 0);
            assert(lit@.drop_first().subrange(0, 0) =~= Seq::<u8>::empty());
        }
        match decimal_u64(tail) {
            Some(0) => Unsigned::Value(0),
            _ => Unsigned::OutOfRange,
        }
    } else {
        Unsigned::NotAnInteger
    }
}

fn slice_tail(lit: &[u8]) -> (r: &[u8])
    requires
        lit@.len() > 0,
    ensures
        r@ == lit@.drop_first(),
{
    let r = vstd::slice::slice_subrange(lit, 1, lit.len());
    assert(r@ =~= lit@.drop_first());
    r
}

} // verus!
