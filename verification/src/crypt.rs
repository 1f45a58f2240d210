//! The keyless, reversible byte transform applied to traffic on the tunnel.
//!
//! It hides nothing from anyone who knows it: it only keeps DNS bytes from
//! being recognised as such on the wire.
use vstd::prelude::*;

verus! {

/// The constant every rotated byte is combined with.
pub const MASK: u8 = 0xB7;

/// One byte after encoding: rotated left by two bits, then combined with the mask.
pub open spec fn encode_byte(b: u8) -> u8 {
    ((b << 2) | (b >> 6)) ^ MASK
}

/// One byte after decoding: combined with the mask, then rotated right by two bits.
pub open spec fn decode_byte(b: u8) -> u8 {
    ((b ^ MASK) >> 2) | ((b ^ MASK) << 6)
}

/// A buffer after encoding: the bytes in reverse order, each one encoded.
pub open spec fn encoded(s: Seq<u8>) -> Seq<u8> {
    Seq::new(s.len(), |i: int| encode_byte(s[s.len() - 1 - i]))
}

/// A buffer after decoding: the bytes in reverse order, each one decoded.
pub open spec fn decoded(s: Seq<u8>) -> Seq<u8> {
    Seq::new(s.len(), |i: int| decode_byte(s[s.len() - 1 - i]))
}

/// Decoding a byte undoes encoding it, and the other way round.
pub proof fn lemma_byte_round_trip(b: u8)
    ensures
        decode_byte(encode_byte(b)) == b,
        encode_byte(decode_byte(b)) == b,
{
    assert(((((b << 2) | (b >> 6)) ^ 0xB7u8) ^ 0xB7u8) >> 2 | ((((b << 2) | (b >> 6)) ^ 0xB7u8)
        ^ 0xB7u8) << 6 == b) by (bit_vector);
    assert((((((b ^ 0xB7u8) >> 2) | ((b ^ 0xB7u8) << 6)) << 2) | ((((b ^ 0xB7u8) >> 2) | ((b
        ^ 0xB7u8) << 6)) >> 6)) ^ 0xB7u8 == b) by (bit_vector);
}

/// Decoding what was encoded gives the buffer back, whatever it holds.
pub proof fn lemma_decode_encode(s: Seq<u8>)
    ensures
        decoded(encoded(s)) == s,
{
    assert forall|i: int| 0 <= i < s.len() implies decoded(encoded(s))[i] == s[i] by {
        lemma_byte_round_trip(s[i]);
    }
    assert(decoded(encoded(s)) =~= s);
}

/// Encoding what was decoded gives the buffer back, whatever it holds.
pub proof fn lemma_encode_decode(s: Seq<u8>)
    ensures
        encoded(decoded(s)) == s,
{
    assert forall|i: int| 0 <= i < s.len() implies encoded(decoded(s))[i] == s[i] by {
        lemma_byte_round_trip(s[i]);
    }
    assert(encoded(decoded(s)) =~= s);
}

/// Reverses the buffer in place.
fn reverse(data: &mut [u8])
    ensures
        final(data)@.len() == old(data)@.len(),
        forall|i: int| 0 <= i < old(data)@.len() ==> final(data)@[i] == old(data)@[old(data)@.len() - 1 - i],
{
    let n: usize = data.len();
    let mut i: usize = 0;
    while i < n / 2
        invariant
            data@.len() == n,
            n == old(data)@.len(),
            i <= n / 2,
            forall|k: int| 0 <= k < i ==> data@[k] == old(data)@[n - 1 - k],
            forall|k: int| 0 <= k < i ==> data@[n - 1 - k] == old(data)@[k],
            forall|k: int| i <= k < n - i ==> data@[k] == old(data)@[k],
        decreases n / 2 - i,
    {
        let a: u8 = data[i];
        let b: u8 = data[n - 1 - i];
        data[i] = b;
        data[n - 1 - i] = a;
        i += 1;
    }
}

/// Encodes the buffer in place and hands it back: the order of the bytes is
/// reversed, and each byte is rotated left by two bits and combined with
/// the mask.
pub fn encrypt(data: &mut [u8]) -> (out: &mut [u8])
    ensures
        out@ == encoded(old(data)@),
        final(data)@ == final(out)@,
{
    reverse(data);
    let n: usize = data.len();
    let mut i: usize = 0;
    while i < n
        invariant
            data@.len() == n,
            n == old(data)@.len(),
            i <= n,
            forall|k: int| 0 <= k < i ==> data@[k] == encode_byte(old(data)@[n - 1 - k]),
            forall|k: int| i <= k < n ==> data@[k] == old(data)@[n - 1 - k],
        decreases n - i,
    {
        let b: u8 = data[i];
        let flag: u8 = b & 0b1100_0000;
        data[i] = ((b << 2) | (flag >> 6)) ^ MASK;
        assert(((b << 2) | ((b & 0b1100_0000u8) >> 6)) ^ 0xB7u8 == ((b << 2) | (b >> 6)) ^ 0xB7u8)
            by (bit_vector);
        i += 1;
    }
    assert(data@ =~= encoded(old(data)@));
    data
}

/// Decodes the buffer in place and hands it back: the exact inverse of
/// `encrypt`.
pub fn decrypt(data: &mut [u8]) -> (out: &mut [u8])
    ensures
        out@ == decoded(old(data)@),
        final(data)@ == final(out)@,
{
    reverse(data);
    let n: usize = data.len();
    let mut i: usize = 0;
    while i < n
        invariant
            data@.len() == n,
            n == old(data)@.len(),
            i <= n,
            forall|k: int| 0 <= k < i ==> data@[k] == decode_byte(old(data)@[n - 1 - k]),
            forall|k: int| i <= k < n ==> data@[k] == old(data)@[n - 1 - k],
        decreases n - i,
    {
        let b: u8 = data[i] ^ MASK;
        let flag: u8 = b & 0b0000_0011;
        data[i] = (b >> 2) | (flag << 6);
        assert(((b >> 2) | ((b & 0b0000_0011u8) << 6)) == ((b >> 2) | (b << 6))) by (bit_vector);
        i += 1;
    }
    assert(data@ =~= decoded(old(data)@));
    data
}

/// An encoded copy of the bytes.
pub fn encode(bytes: &[u8]) -> (out: Vec<u8>)
    ensures
        out@ == encoded(bytes@),
{
    let mut out: Vec<u8> = copy(bytes);
    encrypt(out.as_mut_slice());
    out
}

/// A decoded copy of the bytes.
pub fn decode(bytes: &[u8]) -> (out: Vec<u8>)
    ensures
        out@ == decoded(bytes@),
{
    let mut out: Vec<u8> = copy(bytes);
    decrypt(out.as_mut_slice());
    out
}

/// A copy of the bytes.
fn copy(bytes: &[u8]) -> (out: Vec<u8>)
    ensures
        out@ == bytes@,
{
    let mut out: Vec<u8> = Vec::new();
    out.extend_from_slice(bytes);
    assert(out@ =~= bytes@);
    out
}

} // verus!
