use vstd::prelude::*;
use vstd::utf8::encode_utf8;

verus! {

/// The Keccak-256 digest of a byte string.
pub uninterp spec fn keccak_of(data: Seq<u8>) -> Seq<u8>;

/// Relies on `tiny_keccak::keccak256`: the 32-byte Keccak-256 digest of `data`,
/// which depends on the bytes alone.
#[verifier::external_body]
fn keccak256(data: &[u8]) -> (r: [u8; 32])
    ensures
        r@ == keccak_of(data@),
{
    tiny_keccak::keccak256(data)
}

/// The 32-byte topic of an event signature: the digest of its UTF-8 bytes.
pub open spec fn topic_of(signature: Seq<char>) -> Seq<u8> {
    keccak_of(encode_utf8(signature))
}

/// The 4-byte method id of a function signature: the first four bytes of its digest.
pub open spec fn method_id_of(signature: Seq<char>) -> Seq<u8> {
    keccak_of(encode_utf8(signature)).subrange(0, 4)
}

/// Hashes an event signature string into the topic that logs of that event carry first.
pub fn event_topic(signature: &str) -> (r: [u8; 32])
    ensures
        r@ == topic_of(signature@),
{
    keccak256(signature.as_bytes())
}

/// The method id of a function signature string.
pub fn method_id(signature: &str) -> (r: [u8; 4])
    ensures
        r@ == method_id_of(signature@),
{
    let h = keccak256(signature.as_bytes());
    proof {
        vstd::array::array_len_matches_n(&h);
    }
    let r: [u8; 4] = [h[0], h[1], h[2], h[3]];
    proof {
        vstd::array::array_len_matches_n(&r);
        assert(r@ =~= h@.subrange(0, 4));
    }
    r
}

} // verus!
