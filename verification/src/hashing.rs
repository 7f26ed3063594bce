use vstd::prelude::*;
use crate::codec::{is_hex_run, is_lower_hex};

verus! {

/// The lowercase hexadecimal digest that the MD5 hash assigns to a string's
/// bytes; a fixed function of the characters alone, the same on every run.
pub uninterp spec fn md5_hex_of(s: Seq<char>) -> Seq<char>;

/// Relies on md5::compute and the LowerHex formatting of md5::Digest: a
/// 16-byte digest printed as exactly 32 lowercase hexadecimal characters,
/// a deterministic function of the input bytes.
#[verifier::external_body]
fn md5_hex(content: &str) -> (r: String)
    ensures
        r@ == md5_hex_of(content@),
        r@.len() == 32,
        is_hex_run(r@),
{
    format!("{:x}", md5::compute(content.as_bytes()))
}

/// Effective fingerprint width for a configured hash length: a length
/// outside the digest's range means the full 32-character digest.
pub open spec fn eff_width(hash_length: nat) -> nat {
    if 0 < hash_length && hash_length < 32 {
        hash_length
    } else {
        32
    }
}

/// The content fingerprint: the digest truncated to the effective width.
pub open spec fn fingerprint_of(content: Seq<char>, hash_length: nat) -> Seq<char> {
    md5_hex_of(content).take(eff_width(hash_length) as int)
}

pub fn eff_width_exec(hash_length: usize) -> (w: usize)
    ensures
        w == eff_width(hash_length as nat),
        1 <= w <= 32,
{
    if 0 < hash_length && hash_length < 32 {
        hash_length
    } else {
        32
    }
}

/// Fingerprint of a content string: its digest, truncated to the
/// configured length when that length is shorter than the digest.
pub fn content_fingerprint(content: &str, hash_length: usize) -> (r: String)
    ensures
        r@ == fingerprint_of(content@, hash_length as nat),
        r@.len() == eff_width(hash_length as nat),
        is_hex_run(r@),
{
    let h = md5_hex(content);
    if hash_length > 0 && hash_length < 32 {
        let t = h.as_str().substring_char(0, hash_length);
        let r = t.to_owned();
        proof {
            assert(r@ =~= fingerprint_of(content@, hash_length as nat));
            assert forall|i: int| 0 <= i < r@.len() implies is_lower_hex(#[trigger] r@[i]) by {
                assert(r@[i] == h@[i]);
            }
        }
        r
    } else {
        proof {
            assert(h@ =~= fingerprint_of(content@, hash_length as nat));
        }
        h
    }
}

} // verus!
