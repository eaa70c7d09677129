//! Cache keys: the SHA-256 digest of a directory's identity pair, rendered as
//! lowercase hex, so persisted keys have a bounded, predictable length.

use crate::text::{ascii_to_string, spec_dec_digits, u64_to_dec_bytes};
use sha2::Digest;
use vstd::prelude::*;
use vstd::utf8::is_ascii_chars;

verus! {

/// The SHA-256 digest of a byte sequence.  The digest is a fixed function of
/// the input bytes alone; its value is not modelled here.
pub uninterp spec fn sha256_of(bytes: Seq<u8>) -> Seq<u8>;

/// Relies on `sha2::Sha256` (through `Digest::digest`): the digest depends on
/// the input bytes alone and is exactly 32 bytes long.
#[verifier::external_body]
fn sha256_digest(data: &Vec<u8>) -> (r: Vec<u8>)
    ensures
        r@ == sha256_of(data@),
        r@.len() == 32,
{
    sha2::Sha256::digest(data.as_slice()).as_slice().to_vec()
}

/// The lowercase hex digit for a value below 16, as an ASCII byte.
pub open spec fn spec_hex_digit(v: u8) -> u8
    recommends
        v < 16,
{
    if v < 10 {
        (48 + v) as u8
    } else {
        (87 + v) as u8
    }
}

/// Lowercase hex rendering of a byte sequence, two digits per byte.
pub open spec fn spec_hex_bytes(s: Seq<u8>) -> Seq<u8>
    decreases s.len(),
{
    if s.len() == 0 {
        Seq::empty()
    } else {
        seq![spec_hex_digit(s[0] / 16), spec_hex_digit(s[0] % 16)] + spec_hex_bytes(
            s.drop_first(),
        )
    }
}

pub proof fn lemma_hex_bytes_props(s: Seq<u8>)
    ensures
        spec_hex_bytes(s).len() == 2 * s.len(),
        forall|i: int| 0 <= i < spec_hex_bytes(s).len() ==> #[trigger] spec_hex_bytes(s)[i] < 0x80,
    decreases s.len(),
{
    if s.len() > 0 {
        lemma_hex_bytes_props(s.drop_first());
    }
}

proof fn lemma_hex_bytes_snoc(s: Seq<u8>, x: u8)
    ensures
        spec_hex_bytes(s.push(x)) == spec_hex_bytes(s) + seq![
            spec_hex_digit(x / 16),
            spec_hex_digit(x % 16),
        ],
    decreases s.len(),
{
    if s.len() == 0 {
        assert(s.push(x).drop_first() =~= s);
        assert(spec_hex_bytes(s.push(x)) =~= spec_hex_bytes(s) + seq![
            spec_hex_digit(x / 16),
            spec_hex_digit(x % 16),
        ]);
    } else {
        assert(s.push(x).drop_first() =~= s.drop_first().push(x));
        lemma_hex_bytes_snoc(s.drop_first(), x);
        assert(spec_hex_bytes(s.push(x)) =~= spec_hex_bytes(s) + seq![
            spec_hex_digit(x / 16),
            spec_hex_digit(x % 16),
        ]);
    }
}

/// Lowercase hex rendering of `s`, two ASCII digits per input byte.
pub fn hex_bytes(s: &Vec<u8>) -> (r: Vec<u8>)
    ensures
        r@ == spec_hex_bytes(s@),
{
    let mut out: Vec<u8> = Vec::new();
    assert(out@ =~= spec_hex_bytes(s@.take(0)));
    for i in 0..s.len()
        invariant
            out@ == spec_hex_bytes(s@.take(i as int)),
    {
        let b = s[i];
        let hi = b / 16;
        let lo = b % 16;
        out.push(if hi < 10 {
            48 + hi
        } else {
            87 + hi
        });
        out.push(if lo < 10 {
            48 + lo
        } else {
            87 + lo
        });
        proof {
            lemma_hex_bytes_snoc(s@.take(i as int), b);
            assert(s@.take(i as int).push(b) =~= s@.take(i + 1));
        }
    }
    assert(s@.take(s@.len() as int) =~= s@);
    out
}

/// The persisted cache key for the identity pair `(node_id, volume_id)`:
/// lowercase hex of the SHA-256 digest of the two decimal renderings,
/// node id first.
pub open spec fn spec_cache_key(node_id: u64, volume_id: u64) -> Seq<char> {
    spec_hex_bytes(
        sha256_of(spec_dec_digits(node_id as nat) + spec_dec_digits(volume_id as nat)),
    ).map_values(|b: u8| b as char)
}

/// Derives the cache key string for an identity pair; always 64 ASCII
/// characters.
pub fn cache_key_for(node_id: u64, volume_id: u64) -> (r: String)
    ensures
        r@ == spec_cache_key(node_id, volume_id),
        r@.len() == 64,
        is_ascii_chars(r@),
{
    let mut data = u64_to_dec_bytes(node_id);
    let mut vol = u64_to_dec_bytes(volume_id);
    data.append(&mut vol);
    let digest = sha256_digest(&data);
    let hex = hex_bytes(&digest);
    proof {
        lemma_hex_bytes_props(digest@);
    }
    ascii_to_string(hex)
}

} // verus!
