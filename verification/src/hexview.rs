//! Uppercase hexadecimal rendering of a byte string: two digits per byte,
//! no separator. This is what a reader other than a file's owner is shown
//! in place of the plaintext.

use vstd::prelude::*;

verus! {

/// The uppercase hexadecimal digit (as an ASCII byte) for a value below 16.
pub open spec fn hex_digit_of(v: u8) -> u8
    recommends
        v < 16,
{
    if v < 10 {
        (v + 48) as u8
    } else {
        (v + 55) as u8
    }
}

/// The uppercase hexadecimal rendering of a byte string: byte `i` becomes
/// the digits of its high and low nibble at positions `2i` and `2i + 1`.
pub open spec fn hex_of(s: Seq<u8>) -> Seq<u8> {
    Seq::new(
        2 * s.len(),
        |i: int|
            if i % 2 == 0 {
                hex_digit_of((s[i / 2] / 16) as u8)
            } else {
                hex_digit_of((s[i / 2] % 16) as u8)
            },
    )
}

/// Render a byte string as uppercase hexadecimal.
pub fn to_hex_upper(bytes: &[u8]) -> (r: Vec<u8>)
    ensures
        r@ == hex_of(bytes@),
{
    let mut out: Vec<u8> = Vec::new();
    let mut i: usize = 0;
    while i < bytes.len()
        invariant
            i <= bytes@.len(),
            out@.len() == 2 * i,
            forall|j: int| 0 <= j < out@.len() ==> out@[j] == hex_of(bytes@)[j],
        decreases bytes@.len() - i,
    {
        let b = bytes[i];
        let hi = b / 16;
        let lo = b % 16;
        out.push(if hi < 10 { hi + 48 } else { hi + 55 });
        out.push(if lo < 10 { lo + 48 } else { lo + 55 });
        assert(out@[2 * i as int] == hex_of(bytes@)[2 * i as int]);
        assert(out@[2 * i as int + 1] == hex_of(bytes@)[2 * i as int + 1]);
        i = i + 1;
    }
    assert(out@ =~= hex_of(bytes@));
    out
}

} // verus!
