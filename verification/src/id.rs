//! SHA-1 object identifiers at the engine's edge: a borrowed 20-byte
//! identifier and its 40-digit lowercase hexadecimal encoding.

use vstd::prelude::*;

verus! {

/// The number of bytes in a SHA-1 identifier.
pub const SHA1_SIZE: usize = 20;

/// The ASCII bytes `0`, `9`, `a` and `f`, bounding the digit alphabets.
pub const DIGIT_0: u8 = 48;
pub const DIGIT_9: u8 = 57;
pub const LOWER_A: u8 = 97;
pub const LOWER_F: u8 = 102;

/// A decimal digit or a lowercase hexadecimal letter.
pub open spec fn spec_is_hex_digit_lc(b: u8) -> bool {
    (DIGIT_0 <= b && b <= DIGIT_9) || (LOWER_A <= b && b <= LOWER_F)
}

/// Whether `b` is a lowercase hexadecimal digit: `0`..`9` or `a`..`f`.
pub fn is_hex_digit_lc(b: u8) -> (r: bool)
    ensures
        r == spec_is_hex_digit_lc(b),
{
    (DIGIT_0 <= b && b <= DIGIT_9) || (LOWER_A <= b && b <= LOWER_F)
}

/// The lowercase hexadecimal digit for a value below 16.
pub open spec fn spec_hex_digit_lc(n: u8) -> u8
    recommends
        n < 16,
{
    if n < 10 {
        (DIGIT_0 + n) as u8
    } else {
        (LOWER_A + (n - 10)) as u8
    }
}

/// The lowercase hexadecimal encoding of a byte sequence: two digits per byte,
/// high nibble first.
pub open spec fn spec_hex_encode(s: Seq<u8>) -> Seq<u8> {
    Seq::new(
        (2 * s.len()) as nat,
        |i: int|
            if i % 2 == 0 {
                spec_hex_digit_lc((s[i / 2] / 16) as u8)
            } else {
                spec_hex_digit_lc((s[i / 2] % 16) as u8)
            },
    )
}

fn hex_digit_lc(n: u8) -> (r: u8)
    requires
        n < 16,
    ensures
        r == spec_hex_digit_lc(n),
{
    if n < 10 {
        DIGIT_0 + n
    } else {
        LOWER_A + (n - 10)
    }
}

/// A reference to a SHA-1 identifying objects.
#[derive(PartialEq, Eq, Debug, Hash, Ord, PartialOrd, Clone, Copy)]
pub struct Id<'a>(pub &'a [u8; SHA1_SIZE]);

/// Encoding an identifier failed: the output buffer did not hold exactly
/// twice as many bytes as the identifier.
#[derive(Clone, Copy, PartialEq, Eq, Structural, Debug)]
pub enum EncodeError {
    InvalidLength,
}

impl<'a> Id<'a> {
    /// Writes the identifier as 40 lowercase hexadecimal digits into `out`.
    /// Fails exactly when `out` is not 40 bytes long, leaving it unchanged.
    pub fn encode_to_40_bytes_slice(&self, out: &mut Vec<u8>) -> (r: Result<(), EncodeError>)
        ensures
            r is Ok <==> old(out)@.len() == 2 * SHA1_SIZE,
            r is Ok ==> final(out)@ == spec_hex_encode(self.0@),
            r is Err ==> final(out)@ == old(out)@,
    {
        if out.len() != 2 * SHA1_SIZE {
            return Err(EncodeError::InvalidLength);
        }
        let mut buf: Vec<u8> = Vec::new();
        let mut i: usize = 0;
        while i < SHA1_SIZE
            invariant
                i <= SHA1_SIZE,
                buf@.len() == 2 * i,
                forall|j: int| 0 <= j < 2 * i ==> buf@[j] == spec_hex_encode(self.0@)[j],
            decreases SHA1_SIZE - i,
        {
            let b = self.0[i];
            buf.push(hex_digit_lc(b / 16));
            buf.push(hex_digit_lc(b % 16));
            i = i + 1;
        }
        *out = buf;
        proof {
            assert(out@ =~= spec_hex_encode(self.0@));
        }
        Ok(())
    }
}

impl<'a> From<&'a [u8; SHA1_SIZE]> for Id<'a> {
    fn from(v: &'a [u8; SHA1_SIZE]) -> (r: Self) {
        Id(v)
    }
}

impl<'a> vstd::std_specs::convert::FromSpecImpl<&'a [u8; SHA1_SIZE]> for Id<'a> {
    open spec fn obeys_from_spec() -> bool {
        true
    }

    open spec fn from_spec(v: &'a [u8; SHA1_SIZE]) -> Self {
        Id(v)
    }
}

} // verus!
