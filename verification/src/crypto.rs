//! Symmetric keys, and comparing secrets.

use vstd::prelude::*;

verus! {

/// How long a symmetric key is, in octets.
pub const SYMMETRIC_KEY_LENGTH_BYTES: usize = 16;

/// A symmetric key.
#[derive(Clone, Copy)]
pub struct SymmetricKey {
    bytes: [u8; 16],
}

impl View for SymmetricKey {
    type V = Seq<u8>;

    closed spec fn view(&self) -> Seq<u8> {
        self.bytes@
    }
}

impl SymmetricKey {
    /// The key that 16 octets are.
    pub fn new(bytes: [u8; 16]) -> (key: Self)
        ensures
            key@ == bytes@,
    {
        SymmetricKey { bytes }
    }

    /// The key that octets are, where there are 16 of them.
    pub fn from_slice(bytes: &[u8]) -> (key: Option<Self>)
        ensures
            (key is Some) == (bytes@.len() == SYMMETRIC_KEY_LENGTH_BYTES),
            key matches Some(k) ==> k@ == bytes@,
    {
        if bytes.len() != SYMMETRIC_KEY_LENGTH_BYTES {
            return None;
        }
        let copy: [u8; 16] = [
            bytes[0],
            bytes[1],
            bytes[2],
            bytes[3],
            bytes[4],
            bytes[5],
            bytes[6],
            bytes[7],
            bytes[8],
            bytes[9],
            bytes[10],
            bytes[11],
            bytes[12],
            bytes[13],
            bytes[14],
            bytes[15],
        ];
        proof {
            assert(copy@ =~= bytes@);
        }
        Some(SymmetricKey { bytes: copy })
    }

    /// The octets.
    pub fn as_bytes(&self) -> (bytes: &[u8])
        ensures
            bytes@ == self@,
            bytes@.len() == 16,
    {
        self.bytes.as_slice()
    }
}

/// Whether two octet strings are the same, found out by looking at all of them.
pub fn ct_eq(a: &[u8], b: &[u8]) -> (r: bool)
    ensures
        r == (a@ == b@),
{
    if a.len() != b.len() {
        return false;
    }
    let mut difference: u8 = 0;
    let mut i: usize = 0;
    proof {
        assert(a@.take(0) =~= b@.take(0));
    }
    while i < a.len()
        invariant
            i <= a@.len() == b@.len(),
            (difference == 0) == (a@.take(i as int) == b@.take(i as int)),
        decreases a.len() - i,
    {
        let x: u8 = a[i];
        let y: u8 = b[i];
        let before: u8 = difference;
        difference = before | (x ^ y);
        proof {
            assert((before | (x ^ y)) == 0 <==> before == 0 && x == y) by (bit_vector);
            assert(a@.take(i + 1) =~= a@.take(i as int).push(x));
            assert(b@.take(i + 1) =~= b@.take(i as int).push(y));
            if a@.take(i + 1) == b@.take(i + 1) {
                assert(a@.take(i as int) =~= a@.take(i + 1).drop_last());
                assert(b@.take(i as int) =~= b@.take(i + 1).drop_last());
                assert(a@.take(i + 1)[i as int] == b@.take(i + 1)[i as int]);
            }
        }
        i = i + 1;
    }
    proof {
        assert(a@.take(i as int) =~= a@);
        assert(b@.take(i as int) =~= b@);
    }
    difference == 0
}

} // verus!
