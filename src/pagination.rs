//! Reading a result-set cardinality out of a response's total-count header.
use vstd::prelude::*;

verus! {

/// The ASCII code of `'0'`.
pub const ASCII_ZERO: u8 = 48;

/// The ASCII code of `'+'`.
pub const ASCII_PLUS: u8 = 43;

pub open spec fn is_digit(b: u8) -> bool {
    48 <= b <= 57
}

pub open spec fn all_digits(s: Seq<u8>) -> bool {
    forall|i: int| 0 <= i < s.len() ==> is_digit(#[trigger] s[i])
}

/// The number written by a string of decimal digits, most significant first.
pub open spec fn digits_value(s: Seq<u8>) -> nat
    decreases s.len(),
{
    if s.len() == 0 {
        0
    } else {
        digits_value(s.drop_last()) * 10 + (s.last() - ASCII_ZERO) as nat
    }
}

/// The digits of an unsigned decimal, after its optional leading `+`.
pub open spec fn unsigned_body(s: Seq<u8>) -> Seq<u8> {
    if s.len() > 0 && s[0] == ASCII_PLUS {
        s.drop_first()
    } else {
        s
    }
}

/// The count that a header value spells as an unsigned 32-bit decimal
/// (an optional `+`, then one or more digits, not above `u32::MAX`), if any.
pub open spec fn count_of(s: Seq<u8>) -> Option<nat> {
    let d = unsigned_body(s);
    if d.len() > 0 && all_digits(d) && digits_value(d) <= u32::MAX {
        Some(digits_value(d))
    } else {
        None
    }
}

/// The total that a response reports: the header's count, or 0 where the
/// header is absent or does not hold a count.
pub open spec fn total_of(header: Option<Seq<u8>>) -> nat {
    match header {
        Some(s) => match count_of(s) {
            Some(n) => n,
            None => 0,
        },
        None => 0,
    }
}

/// A header of one or more decimal digits whose value fits a `u32` resolves
/// to exactly that value; an absent header resolves to 0.
pub proof fn lemma_numeric_total_is_exact(s: Seq<u8>)
    requires
        s.len() > 0,
        all_digits(s),
        digits_value(s) <= u32::MAX,
    ensures
        total_of(Some(s)) == digits_value(s),
        total_of(None) == 0,
{
    assert(is_digit(s[0]));
}

/// Parses a header value as an unsigned 32-bit decimal count.
pub fn parse_count(value: &[u8]) -> (r: Option<u32>)
    ensures
        match count_of(value@) {
            Some(n) => r == Some(n as u32),
            None => r is None,
        },
{
    let n = value.len();
    let mut start: usize = 0;
    if n > 0 && value[0] == ASCII_PLUS {
        start = 1;
    }
    let ghost body = unsigned_body(value@);
    assert(body =~= value@.subrange(start as int, n as int));
    if start == n {
        return None;
    }
    let mut acc: u64 = 0;
    let mut overflow = false;
    let mut i = start;
    while i < n
        invariant
            start <= i <= n,
            n == value@.len(),
            body =~= value@.subrange(start as int, n as int),
            body == unsigned_body(value@),
            all_digits(value@.subrange(start as int, i as int)),
            !overflow ==> acc == digits_value(value@.subrange(start as int, i as int)),
            !overflow ==> acc <= u32::MAX,
            overflow ==> digits_value(value@.subrange(start as int, i as int)) > u32::MAX,
        decreases n - i,
    {
        let b = value[i];
        let ghost prev = value@.subrange(start as int, i as int);
        let ghost next = value@.subrange(start as int, i + 1);
        assert(next.drop_last() =~= prev);
        if b < 48 || b > 57 {
            assert(body[i - start] == b);
            assert(!is_digit(body[i - start]));
            assert(!all_digits(body));
            return None;
        }
        assert(digits_value(next) == digits_value(prev) * 10 + (b - ASCII_ZERO) as nat);
        if !overflow {
            let v = acc * 10 + (b - ASCII_ZERO) as u64;
            if v > 0xFFFF_FFFF {
                overflow = true;
            } else {
                acc = v;
            }
        }
        i = i + 1;
    }
    if overflow {
        None
    } else {
        Some(acc as u32)
    }
}

/// Resolves the total count of a response from its total-count header:
/// the count it holds, or 0 where it is absent or unparsable.
pub fn resolve_total(header: Option<&[u8]>) -> (r: u32)
    ensures
        r as nat == total_of(
            match header {
                Some(v) => Some(v@),
                None => None,
            },
        ),
{
    match header {
        Some(v) => match parse_count(v) {
            Some(n) => n,
            None => 0,
        },
        None => 0,
    }
}

} // verus!
