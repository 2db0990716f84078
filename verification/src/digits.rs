//! Unsigned integers as ASCII decimal text, both ways.

use vstd::prelude::*;

verus! {

/// Whether `b` is one of the ASCII digits `0` to `9`.
pub open spec fn is_digit(b: u8) -> bool {
    48 <= b <= 57
}

/// Whether every byte of `s` is an ASCII digit.
pub open spec fn all_digits(s: Seq<u8>) -> bool {
    forall|i: int| 0 <= i < s.len() ==> is_digit(#[trigger] s[i])
}

/// The decimal text of `n`: its digits, most significant first, with no
/// leading zero (the text of zero is `0`).
pub open spec fn decimal(n: nat) -> Seq<u8>
    decreases n,
{
    if n < 10 {
        seq![(48 + n) as u8]
    } else {
        decimal(n / 10).push((48 + n % 10) as u8)
    }
}

/// The number that a run of digits denotes, read most significant first.
/// Leading zeros count for nothing; the empty run denotes zero.
pub open spec fn digits_value(s: Seq<u8>) -> nat
    decreases s.len(),
{
    if s.len() == 0 {
        0
    } else {
        (digits_value(s.drop_last()) * 10 + (s.last() - 48)) as nat
    }
}

/// The text of an unsigned integer without the one `+` that may lead it.
pub open spec fn unsigned_body(s: Seq<u8>) -> Seq<u8> {
    if s.len() > 0 && s[0] == 43 {
        s.subrange(1, s.len() as int)
    } else {
        s
    }
}

/// The `u64` that `s` denotes: an optional `+`, then one or more digits whose
/// value fits; `None` for any other text.
pub open spec fn parsed_u64(s: Seq<u8>) -> Option<u64> {
    let body = unsigned_body(s);
    if body.len() > 0 && all_digits(body) && digits_value(body) <= u64::MAX {
        Some(digits_value(body) as u64)
    } else {
        None
    }
}

/// The decimal text of a number is a non-empty run of digits.
pub proof fn lemma_decimal_is_digits(n: nat)
    ensures
        decimal(n).len() >= 1,
        all_digits(decimal(n)),
    decreases n,
{
    if n >= 10 {
        lemma_decimal_is_digits(n / 10);
    }
}

/// Reading the decimal text of a number gives the number back.
pub proof fn lemma_decimal_round_trip(n: nat)
    ensures
        digits_value(decimal(n)) == n,
    decreases n,
{
    if n < 10 {
        let s = decimal(n);
        assert(s.drop_last() =~= Seq::<u8>::empty());
        assert(digits_value(s.drop_last()) == 0);
    } else {
        lemma_decimal_round_trip(n / 10);
        let s = decimal(n);
        assert(s.drop_last() =~= decimal(n / 10));
    }
}

/// The decimal text of a `u64` is read back as that number.
pub proof fn lemma_parse_reads_decimal(n: u64)
    ensures
        parsed_u64(decimal(n as nat)) == Some(n),
{
    lemma_decimal_is_digits(n as nat);
    lemma_decimal_round_trip(n as nat);
    let text = decimal(n as nat);
    assert(is_digit(text[0]));
    assert(unsigned_body(text) == text);
}

/// A longer run of digits denotes no less than any of its prefixes.
pub proof fn lemma_digits_value_prefix(s: Seq<u8>, k: int)
    requires
        0 <= k <= s.len(),
        all_digits(s),
    ensures
        digits_value(s.take(k)) <= digits_value(s),
    decreases s.len() - k,
{
    if k == s.len() {
        assert(s.take(k) =~= s);
    } else {
        lemma_digits_value_prefix(s.drop_last(), k);
        assert(s.drop_last().take(k) =~= s.take(k));
        assert(is_digit(s[s.len() - 1]));
    }
}

/// Appends the decimal text of `n` to `out`.
pub fn push_decimal(out: &mut Vec<u8>, n: u128)
    ensures
        final(out)@ == old(out)@ + decimal(n as nat),
    decreases n,
{
    if n >= 10 {
        push_decimal(out, n / 10);
    }
    let digit: u8 = (n % 10) as u8;
    out.push(48 + digit);
    proof {
        if n >= 10 {
            assert(old(out)@ + decimal(n as nat) =~= (old(out)@ + decimal((n / 10) as nat)).push(
                (48 + n % 10) as u8,
            ));
        } else {
            assert(old(out)@ + decimal(n as nat) =~= old(out)@.push((48 + n) as u8));
        }
    }
}

/// Reads `text` as a `u64` in decimal: an optional `+` and then digits only.
/// Empty text, a sign alone, any other byte and a value above `u64::MAX`
/// all give `None`.
pub fn parse_u64(text: &[u8]) -> (value: Option<u64>)
    ensures
        value == parsed_u64(text@),
{
    let len: usize = text.len();
    let start: usize = if len > 0 && text[0] == 43 {
        1
    } else {
        0
    };
    let ghost body = unsigned_body(text@);
    if start == len {
        return None;
    }
    let mut acc: u64 = 0;
    let mut i: usize = start;
    while i < len
        invariant
            start <= i <= len,
            len == text@.len(),
            body == unsigned_body(text@),
            body == text@.subrange(start as int, len as int),
            all_digits(body.take(i - start)),
            acc == digits_value(body.take(i - start)),
        decreases len - i,
    {
        let b: u8 = text[i];
        let ghost next = body.take(i - start + 1);
        proof {
            assert(next.drop_last() =~= body.take(i - start));
            assert(next.last() == b);
        }
        if b < 48 || b > 57 {
            proof {
                assert(body[i - start] == b);
                assert(!all_digits(body));
            }
            return None;
        }
        let digit: u64 = (b - 48) as u64;
        if acc > (u64::MAX - digit) / 10 {
            proof {
                assert(digits_value(next) > u64::MAX);
                if all_digits(body) {
                    lemma_digits_value_prefix(body, i - start + 1);
                }
            }
            return None;
        }
        acc = acc * 10 + digit;
        i = i + 1;
        proof {
            assert forall|j: int| 0 <= j < next.len() implies is_digit(#[trigger] next[j]) by {
                if j < next.len() - 1 {
                    assert(next[j] == body.take(i - 1 - start)[j]);
                }
            }
        }
    }
    proof {
        assert(body.take(i - start) =~= body);
    }
    Some(acc)
}

} // verus!
