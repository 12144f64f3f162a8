//! Checksum support for crate blobs: SHA-256 through an outside
//! implementation, and a verified lowercase-hex rendering of the digest.

use vstd::prelude::*;

use crate::codec::spec_hex_digit;

verus! {

/// The SHA-256 digest of a byte sequence. The digest depends on the bytes
/// alone; what it is on given bytes is not stated here.
pub uninterp spec fn sha256_of(b: Seq<u8>) -> Seq<u8>;

/// Relies on `sha2::Sha256::digest`: the digest depends on the input bytes
/// alone, and is 32 bytes long.
#[verifier::external_body]
fn sha256_digest(data: &Vec<u8>) -> (r: Vec<u8>)
    ensures
        r@ == sha256_of(data@),
        r@.len() == 32,
{
    let d = <sha2::Sha256 as sha2::Digest>::digest(data.as_slice());
    d.as_slice().to_vec()
}

/// The lowercase hex spelling of a byte sequence, two digits per byte.
pub open spec fn hex_of(b: Seq<u8>) -> Seq<u8>
    decreases b.len(),
{
    if b.len() == 0 {
        Seq::empty()
    } else {
        seq![spec_hex_digit(b[0] / 16), spec_hex_digit(b[0] % 16)] + hex_of(b.skip(1))
    }
}

/// Two hex digits per byte.
pub proof fn lemma_hex_of_len(b: Seq<u8>)
    ensures
        hex_of(b).len() == 2 * b.len(),
    decreases b.len(),
{
    if b.len() > 0 {
        lemma_hex_of_len(b.skip(1));
    }
}

/// Render a byte string in lowercase hex.
pub fn to_hex_lower(data: &Vec<u8>) -> (out: Vec<u8>)
    ensures
        out@ == hex_of(data@),
{
    let mut out: Vec<u8> = Vec::new();
    let mut i: usize = 0;
    proof {
        assert(data@.skip(0) =~= data@);
    }
    while i < data.len()
        invariant
            i <= data@.len(),
            out@ + hex_of(data@.skip(i as int)) =~= hex_of(data@),
        decreases data@.len() - i,
    {
        let b = data[i];
        proof {
            assert(data@.skip(i as int)[0] == b);
            assert(data@.skip(i as int).skip(1) =~= data@.skip(i + 1));
        }
        out.push(crate::codec::hex_digit(b / 16));
        out.push(crate::codec::hex_digit(b % 16));
        i = i + 1;
    }
    proof {
        assert(hex_of(data@.skip(data@.len() as int)) =~= Seq::<u8>::empty());
        assert(out@ =~= hex_of(data@));
    }
    out
}

/// The lowercase hex SHA-256 checksum of a crate blob, as stored in the
/// `cksum` field of an index entry.
pub fn sha256_hex(data: &Vec<u8>) -> (out: Vec<u8>)
    ensures
        out@ == hex_of(sha256_of(data@)),
        out@.len() == 64,
{
    let d = sha256_digest(data);
    proof {
        lemma_hex_of_len(d@);
    }
    to_hex_lower(&d)
}

} // verus!
