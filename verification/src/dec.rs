//! Decimal encoding and strict parsing of the unsigned sizes that stand in
//! a manifest's middle field.

use vstd::prelude::*;
use vstd::arithmetic::div_mod::lemma_fundamental_div_mod;

verus! {

/// Every byte is an ASCII decimal digit.
pub open spec fn is_digits(s: Seq<u8>) -> bool {
    forall|i: int| 0 <= i < s.len() ==> 48 <= #[trigger] s[i] <= 57
}

/// The numeric value of a digit string (most significant digit first).
pub open spec fn dec_value(s: Seq<u8>) -> int
    decreases s.len(),
{
    if s.len() == 0 {
        0
    } else {
        dec_value(s.drop_last()) * 10 + (s.last() - 48)
    }
}

/// A field is a well-formed size: nonempty, all digits, and within `u64`.
pub open spec fn is_dec_u64(s: Seq<u8>) -> bool {
    s.len() >= 1 && is_digits(s) && dec_value(s) <= u64::MAX
}

/// The canonical decimal digits of `n`, without leading zeros.
pub open spec fn dec_of(n: int) -> Seq<u8>
    recommends
        n >= 0,
    decreases n,
{
    if n < 10 {
        seq![(48 + if n >= 0 { n } else { 0 }) as u8]
    } else {
        dec_of(n / 10).push((48 + n % 10) as u8)
    }
}

/// The canonical digits really are digits, and encode the number they came
/// from.
pub proof fn lemma_dec_of_value(n: int)
    requires
        n >= 0,
    ensures
        dec_of(n).len() >= 1,
        is_digits(dec_of(n)),
        dec_value(dec_of(n)) == n,
    decreases n,
{
    if n < 10 {
        assert(dec_value(dec_of(n)) == dec_value(Seq::<u8>::empty()) * 10 + n) by {
            assert(dec_of(n).drop_last() =~= Seq::<u8>::empty());
        }
    } else {
        lemma_dec_of_value(n / 10);
        lemma_fundamental_div_mod(n, 10);
        let s = dec_of(n);
        assert(s.drop_last() =~= dec_of(n / 10));
        assert(is_digits(s)) by {
            assert(forall|i: int|
                0 <= i < s.len() - 1 ==> s[i] == #[trigger] dec_of(n / 10)[i]);
        }
    }
}

/// `dec_value` only grows as more digits follow.
pub proof fn lemma_dec_value_monotone(s: Seq<u8>, i: int)
    requires
        is_digits(s),
        0 <= i <= s.len(),
    ensures
        dec_value(s.take(i)) >= 0,
        dec_value(s) >= dec_value(s.take(i)),
    decreases s.len(),
{
    lemma_dec_value_nonneg(s.take(i));
    if i < s.len() {
        assert(s.drop_last() =~= s.take(s.len() - 1));
        assert(is_digits(s.drop_last()));
        lemma_dec_value_monotone(s.drop_last(), i);
        assert(s.drop_last().take(i) =~= s.take(i));
        lemma_dec_value_nonneg(s.drop_last());
        assert(dec_value(s) == dec_value(s.drop_last()) * 10 + (s.last() - 48));
        assert(dec_value(s.drop_last()) * 10 >= dec_value(s.drop_last()));
    } else {
        assert(s.take(i) =~= s);
    }
}

pub proof fn lemma_dec_value_nonneg(s: Seq<u8>)
    requires
        is_digits(s),
    ensures
        dec_value(s) >= 0,
    decreases s.len(),
{
    if s.len() > 0 {
        assert(s.drop_last() =~= s.take(s.len() - 1));
        lemma_dec_value_nonneg(s.drop_last());
    }
}

/// Encode `n` as decimal digits.
pub fn u64_to_dec(n: u64) -> (res: Vec<u8>)
    ensures
        res@ == dec_of(n as int),
    decreases n,
{
    if n < 10 {
        let mut v: Vec<u8> = Vec::new();
        v.push(48 + (n as u8));
        proof {
            assert(v@ =~= dec_of(n as int));
        }
        v
    } else {
        let mut v = u64_to_dec(n / 10);
        v.push(48 + ((n % 10) as u8));
        v
    }
}

/// Strict decimal parse: `Some` exactly on nonempty all-digit strings
/// whose value fits in a `u64`.
pub fn parse_dec_u64(s: &[u8]) -> (res: Option<u64>)
    ensures
        match res {
            Some(v) => is_dec_u64(s@) && v == dec_value(s@),
            None => !is_dec_u64(s@),
        },
{
    if s.len() == 0 {
        return None;
    }
    let mut v: u64 = 0;
    let mut i: usize = 0;
    proof {
        assert(s@.take(0) =~= Seq::<u8>::empty());
    }
    while i < s.len()
        invariant
            i <= s@.len(),
            is_digits(s@.take(i as int)),
            v == dec_value(s@.take(i as int)),
        decreases s@.len() - i,
    {
        let c = s[i];
        if c < 48 || c > 57 {
            return None;
        }
        let d = (c - 48) as u64;
        proof {
            assert(s@.take(i as int + 1).drop_last() =~= s@.take(i as int));
            assert(s@.take(i as int + 1).last() == s@[i as int]);
            assert(is_digits(s@.take(i as int + 1)));
        }
        if v > (u64::MAX - d) / 10 {
            proof {
                lemma_fundamental_div_mod(u64::MAX - d, 10);
                assert(v * 10 + d > u64::MAX) by {
                    assert(v >= (u64::MAX - d) / 10 + 1);
                    assert(v * 10 >= ((u64::MAX - d) / 10 + 1) * 10) by (nonlinear_arith)
                        requires
                            v >= (u64::MAX - d) / 10 + 1,
                    ;
                }
                if is_digits(s@) {
                    lemma_dec_value_monotone(s@, i as int + 1);
                    assert(dec_value(s@) >= dec_value(s@.take(i as int + 1)));
                    assert(dec_value(s@.take(i as int + 1)) == v * 10 + d);
                }
            }
            return None;
        }
        proof {
            lemma_fundamental_div_mod(u64::MAX - d, 10);
            assert(v * 10 + d <= u64::MAX) by {
                assert(v <= (u64::MAX - d) / 10);
                assert(v * 10 <= ((u64::MAX - d) / 10) * 10) by (nonlinear_arith)
                    requires
                        v <= (u64::MAX - d) / 10,
                ;
            }
        }
        v = v * 10 + d;
        i = i + 1;
    }
    proof {
        assert(s@.take(s@.len() as int) =~= s@);
    }
    Some(v)
}

} // verus!
