//! The signed envelope of the compact discovery topic: three byte arrays,
//! the sender's public key, the payload and the signature over it, each
//! preceded by its length as an LEB128 varint.
use vstd::prelude::*;
use crate::crypto::{self, ed25519_public_key, ed25519_signature};

verus! {

/// LEB128: seven bits per byte, least significant first, high bit set on
/// every byte but the last.
pub open spec fn varint(n: nat) -> Seq<u8>
    decreases n,
{
    if n < 128 {
        seq![n as u8]
    } else {
        seq![(n % 128 + 128) as u8] + varint(n / 128)
    }
}

/// A byte array with its length in front.
pub open spec fn framed(bytes: Seq<u8>) -> Seq<u8> {
    varint(bytes.len()) + bytes
}

pub open spec fn envelope_bytes(from: Seq<u8>, data: Seq<u8>, signature: Seq<u8>) -> Seq<u8> {
    framed(from) + framed(data) + framed(signature)
}

fn push_varint(out: &mut Vec<u8>, n: u64)
    ensures
        final(out)@ == old(out)@ + varint(n as nat),
{
    let mut m: u64 = n;
    while m >= 128
        invariant
            out@ + varint(m as nat) == old(out)@ + varint(n as nat),
        decreases m,
    {
        let ghost before = out@;
        out.push((m % 128 + 128) as u8);
        assert(before + varint(m as nat) =~= out@ + varint((m / 128) as nat));
        m = m / 128;
    }
    let ghost before = out@;
    out.push(m as u8);
    assert(before + varint(m as nat) =~= out@);
}

fn push_framed(out: &mut Vec<u8>, bytes: &[u8])
    ensures
        final(out)@ == old(out)@ + framed(bytes@),
{
    push_varint(out, bytes.len() as u64);
    let ghost start = out@;
    let n = bytes.len();
    let mut i: usize = 0;
    while i < n
        invariant
            n == bytes@.len(),
            i <= n,
            out@ == start + bytes@.subrange(0, i as int),
        decreases n - i,
    {
        out.push(bytes[i]);
        assert(out@ =~= start + bytes@.subrange(0, i + 1));
        i += 1;
    }
    assert(bytes@.subrange(0, n as int) =~= bytes@);
    assert(start + bytes@ =~= old(out)@ + framed(bytes@));
}

/// Encode an envelope from its three parts.
pub fn encode_signed_discovery(from: &[u8], data: &[u8], signature: &[u8]) -> (r: Vec<u8>)
    ensures
        r@ == envelope_bytes(from@, data@, signature@),
{
    let mut out: Vec<u8> = Vec::new();
    push_framed(&mut out, from);
    push_framed(&mut out, data);
    push_framed(&mut out, signature);
    assert(out@ =~= envelope_bytes(from@, data@, signature@));
    out
}

/// Sign a payload and wrap it: the sender is the secret's public key.
pub fn sign_discovery_data(secret: &[u8; 32], data: &[u8]) -> (r: Vec<u8>)
    ensures
        r@ == envelope_bytes(ed25519_public_key(secret@), data@, ed25519_signature(secret@, data@)),
{
    let from = crypto::ed25519_public(secret);
    let signature = crypto::ed25519_sign(secret, data);
    encode_signed_discovery(from.as_slice(), data, signature.as_slice())
}

} // verus!
