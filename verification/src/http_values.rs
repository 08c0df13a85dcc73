//! The byte-level values the downloader exchanges with an HTTP server:
//! decimal numbers, `Range` request headers and the `Content-Length` answer.
use vstd::prelude::*;

verus! {

/// `b` is an ASCII decimal digit.
pub open spec fn is_digit(b: u8) -> bool {
    48 <= b <= 57
}

pub open spec fn all_digits(s: Seq<u8>) -> bool {
    forall|i: int| 0 <= i < s.len() ==> is_digit(#[trigger] s[i])
}

/// The ASCII decimal notation of `n`, without sign or leading zeros.
pub open spec fn decimal(n: nat) -> Seq<u8>
    decreases n,
{
    if n < 10 {
        seq![(n + 48) as u8]
    } else {
        decimal(n / 10).push((n % 10 + 48) as u8)
    }
}

/// The number that a string of decimal digits denotes.
pub open spec fn digits_value(s: Seq<u8>) -> nat
    decreases s.len(),
{
    if s.len() == 0 {
        0
    } else {
        digits_value(s.drop_last()) * 10 + (s.last() - 48) as nat
    }
}

/// What parsing a header value as an unsigned 64-bit integer gives: an
/// optional `+`, then one or more decimal digits whose value fits in `u64`.
pub open spec fn spec_parse_u64(s: Seq<u8>) -> Option<u64> {
    let d = if s.len() > 0 && s[0] == 43u8 {
        s.drop_first()
    } else {
        s
    };
    if d.len() > 0 && all_digits(d) && digits_value(d) <= u64::MAX {
        Some(digits_value(d) as u64)
    } else {
        None
    }
}

/// The bytes `bytes=` that open a `Range` header value.
pub open spec fn range_unit() -> Seq<u8> {
    seq![98u8, 121u8, 116u8, 101u8, 115u8, 61u8]
}

/// `bytes=START-END`
pub open spec fn spec_closed_range(start: u64, end: u64) -> Seq<u8> {
    range_unit() + decimal(start as nat) + seq![45u8] + decimal(end as nat)
}

/// `bytes=START-`
pub open spec fn spec_open_range(start: u64) -> Seq<u8> {
    range_unit() + decimal(start as nat) + seq![45u8]
}

proof fn lemma_decimal_digits(n: nat)
    ensures
        decimal(n).len() > 0,
        all_digits(decimal(n)),
        digits_value(decimal(n)) == n,
        decimal(n)[0] == 48u8 ==> n == 0,
        decimal(n).last() == (48 + n % 10) as u8,
    decreases n,
{
    if n < 10 {
        assert(decimal(n).drop_last() =~= Seq::<u8>::empty());
        assert(digits_value(Seq::<u8>::empty()) == 0);
    } else {
        lemma_decimal_digits(n / 10);
        let s = decimal(n);
        assert(s.drop_last() =~= decimal(n / 10));
        assert(n / 10 * 10 + n % 10 == n);
        assert(s.last() == (n % 10 + 48) as u8);
        assert(s.last() - 48 == n % 10);
        assert(digits_value(s) == digits_value(s.drop_last()) * 10 + (s.last() - 48) as nat);
        assert forall|i: int| 0 <= i < s.len() implies is_digit(#[trigger] s[i]) by {
            if i < s.len() - 1 {
                assert(s[i] == decimal(n / 10)[i]);
            }
        }
        assert(s[0] == decimal(n / 10)[0]);
    }
}

proof fn lemma_digits_value_prefix(s: Seq<u8>, k: int)
    requires
        0 <= k <= s.len(),
        all_digits(s),
    ensures
        digits_value(s.take(k)) <= digits_value(s),
    decreases s.len(),
{
    if k < s.len() {
        let t = s.drop_last();
        assert(all_digits(t)) by {
            assert forall|i: int| 0 <= i < t.len() implies is_digit(#[trigger] t[i]) by {
                assert(t[i] == s[i]);
            }
        }
        assert(t.take(k) =~= s.take(k));
        lemma_digits_value_prefix(t, k);
    } else {
        assert(s.take(k) =~= s);
    }
}

/// The decimal notation of a number is a non-empty string of ASCII digits
/// without leading zero whose last digit is the number modulo 10, and reading
/// it back gives the number.
pub proof fn lemma_parse_decimal_roundtrip(n: u64)
    ensures
        spec_parse_u64(decimal(n as nat)) == Some(n),
        decimal(n as nat).len() > 0,
        forall|i: int| 0 <= i < decimal(n as nat).len() ==> 48 <= #[trigger] decimal(n as nat)[i] <= 57,
        decimal(n as nat)[0] == 48u8 ==> n == 0,
        decimal(n as nat).last() == (48 + n % 10) as u8,
{
    lemma_decimal_digits(n as nat);
    let s = decimal(n as nat);
    assert(is_digit(s[0]));
    assert forall|i: int| 0 <= i < s.len() implies 48 <= #[trigger] s[i] <= 57 by {
        assert(is_digit(s[i]));
    }
}

/// A header value is read as a number only when it is one or more ASCII
/// digits, optionally after a single leading `+`; its last digit is then the
/// number modulo 10.
pub proof fn lemma_parse_accepts_only_digits(s: Seq<u8>)
    requires
        spec_parse_u64(s) is Some,
    ensures
        s.len() > 0,
        forall|i: int| 0 <= i < s.len() ==> (48 <= #[trigger] s[i] <= 57 || (i == 0 && s[i] == 43u8)),
        s.len() >= 2 || s[0] != 43u8,
        s.last() == (48 + spec_parse_u64(s).unwrap() % 10) as u8,
{
    let d = if s.len() > 0 && s[0] == 43u8 {
        s.drop_first()
    } else {
        s
    };
    assert forall|i: int| 0 <= i < s.len() implies (48 <= #[trigger] s[i] <= 57 || (i == 0 && s[i] == 43u8)) by {
        if s[0] == 43u8 {
            if i > 0 {
                assert(s[i] == d[i - 1]);
                assert(is_digit(d[i - 1]));
            }
        } else {
            assert(is_digit(d[i]));
        }
    }
    assert(d.last() == s.last());
    assert(is_digit(d.last()));
    assert(digits_value(d) == digits_value(d.drop_last()) * 10 + (d.last() - 48) as nat);
    assert((digits_value(d.drop_last()) * 10 + (d.last() - 48) as nat) % 10 == (d.last() - 48) as nat);
}

/// Appends the decimal notation of `n` to `out`.
pub fn push_decimal(out: &mut Vec<u8>, n: u64)
    ensures
        final(out)@ == old(out)@ + decimal(n as nat),
    decreases n,
{
    if n >= 10 {
        push_decimal(out, n / 10);
    }
    let d: u8 = (n % 10) as u8;
    out.push(d + 48);
    assert(final(out)@ =~= old(out)@ + decimal(n as nat));
}

fn push_range_unit(out: &mut Vec<u8>)
    ensures
        final(out)@ == old(out)@ + range_unit(),
{
    out.push(98);
    out.push(121);
    out.push(116);
    out.push(101);
    out.push(115);
    out.push(61);
    assert(final(out)@ =~= old(out)@ + range_unit());
}

/// The `Range` header value `bytes=START-END` that asks for bytes `start..=end`.
pub fn closed_range_header(start: u64, end: u64) -> (r: Vec<u8>)
    ensures
        r@ == spec_closed_range(start, end),
{
    let mut out: Vec<u8> = Vec::new();
    push_range_unit(&mut out);
    push_decimal(&mut out, start);
    out.push(45);
    push_decimal(&mut out, end);
    assert(out@ =~= spec_closed_range(start, end));
    out
}

/// The `Range` header value `bytes=START-` that asks for everything from `start` on.
pub fn open_range_header(start: u64) -> (r: Vec<u8>)
    ensures
        r@ == spec_open_range(start),
{
    let mut out: Vec<u8> = Vec::new();
    push_range_unit(&mut out);
    push_decimal(&mut out, start);
    out.push(45);
    assert(out@ =~= spec_open_range(start));
    out
}

/// Parses a header value as an unsigned 64-bit integer: an optional `+`
/// followed by decimal digits, `None` when malformed or out of range.
pub fn parse_u64(s: &[u8]) -> (r: Option<u64>)
    ensures
        r == spec_parse_u64(s@),
{
    let n: usize = s.len();
    let mut start: usize = 0;
    if n > 0 && s[0] == 43 {
        start = 1;
    }
    let ghost d = if s@.len() > 0 && s@[0] == 43u8 {
        s@.drop_first()
    } else {
        s@
    };
    assert(d =~= s@.subrange(start as int, n as int));
    if start == n {
        return None;
    }
    let mut i: usize = start;
    let mut acc: u64 = 0;
    while i < n
        invariant
            n == s@.len(),
            start < n,
            start <= i <= n,
            d =~= s@.subrange(start as int, n as int),
            d == (if s@.len() > 0 && s@[0] == 43u8 {
                s@.drop_first()
            } else {
                s@
            }),
            all_digits(s@.subrange(start as int, i as int)),
            acc == digits_value(s@.subrange(start as int, i as int)),
        decreases n - i,
    {
        let b: u8 = s[i];
        let ghost prev = s@.subrange(start as int, i as int);
        let ghost next = s@.subrange(start as int, i + 1);
        assert(next.drop_last() =~= prev);
        assert(next.last() == b);
        assert(d[i - start] == b);
        if b < 48 || b > 57 {
            assert(!is_digit(d[i - start]));
            return None;
        }
        assert(all_digits(next)) by {
            assert forall|k: int| 0 <= k < next.len() implies is_digit(#[trigger] next[k]) by {
                if k < prev.len() {
                    assert(next[k] == prev[k]);
                }
            }
        }
        let digit: u64 = (b - 48) as u64;
        assert(digits_value(next) == acc * 10 + digit);
        match acc.checked_mul(10) {
            Some(m) => match m.checked_add(digit) {
                Some(v) => {
                    acc = v;
                },
                None => {
                    proof {
                        if all_digits(d) {
                            assert(d.take(i + 1 - start) =~= next);
                            lemma_digits_value_prefix(d, i + 1 - start);
                        }
                    }
                    return None;
                },
            },
            None => {
                proof {
                    if all_digits(d) {
                        assert(d.take(i + 1 - start) =~= next);
                        lemma_digits_value_prefix(d, i + 1 - start);
                    }
                }
                return None;
            },
        }
        i = i + 1;
    }
    Some(acc)
}

} // verus!
