//! Lower-case hexadecimal encoding of byte strings.

use vstd::prelude::*;

verus! {

/// The lower-case hex digit for a nibble value below 16.
pub open spec fn hex_digit(v: int) -> u8
    recommends
        0 <= v < 16,
{
    if v < 10 {
        (48 + v) as u8
    } else {
        (87 + v) as u8
    }
}

/// Lower-case hex encoding of a byte string: two digits per byte,
/// high nibble first.
pub open spec fn hex_of(data: Seq<u8>) -> Seq<u8> {
    Seq::new(
        data.len() * 2,
        |i: int|
            if i % 2 == 0 {
                hex_digit(data[i / 2] as int / 16)
            } else {
                hex_digit(data[i / 2] as int % 16)
            },
    )
}

/// Every byte of a hex encoding is a decimal digit or a letter `a`..`f`.
pub proof fn lemma_hex_of_is_hex_bytes(data: Seq<u8>)
    ensures
        forall|i: int|
            0 <= i < hex_of(data).len() ==> (48 <= #[trigger] hex_of(data)[i] <= 57 || 97
                <= hex_of(data)[i] <= 102),
{
}

pub fn hex_encode(data: &[u8]) -> (res: Vec<u8>)
    ensures
        res@ == hex_of(data@),
{
    let mut res: Vec<u8> = Vec::new();
    let mut i: usize = 0;
    while i < data.len()
        invariant
            i <= data@.len(),
            res@ =~= hex_of(data@.take(i as int)),
        decreases data@.len() - i,
    {
        let b = data[i];
        let hi = b / 16;
        let lo = b % 16;
        res.push(if hi < 10 {
            48 + hi
        } else {
            87 + hi
        });
        res.push(if lo < 10 {
            48 + lo
        } else {
            87 + lo
        });
        i += 1;
        proof {
            assert(res@ =~= hex_of(data@.take(i as int)));
        }
    }
    proof {
        assert(data@.take(data@.len() as int) =~= data@);
    }
    res
}

} // verus!
