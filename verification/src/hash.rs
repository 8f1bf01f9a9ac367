//! Content fingerprinting: the SHA-256 digest of a file's bytes, rendered as
//! an uppercase hexadecimal string. The digest itself comes from the `sha2`
//! crate and the rendering from `data_encoding`; everything downstream speaks
//! of the digest only through the names given here.

use sha2::Digest;
use vstd::prelude::*;

verus! {

/// The uppercase hexadecimal digit for a value in 0..16.
pub open spec fn hex_digit_upper(n: int) -> char {
    if n == 0 {
        '0'
    } else if n == 1 {
        '1'
    } else if n == 2 {
        '2'
    } else if n == 3 {
        '3'
    } else if n == 4 {
        '4'
    } else if n == 5 {
        '5'
    } else if n == 6 {
        '6'
    } else if n == 7 {
        '7'
    } else if n == 8 {
        '8'
    } else if n == 9 {
        '9'
    } else if n == 10 {
        'A'
    } else if n == 11 {
        'B'
    } else if n == 12 {
        'C'
    } else if n == 13 {
        'D'
    } else if n == 14 {
        'E'
    } else {
        'F'
    }
}

/// Uppercase hexadecimal rendering of a byte sequence: two digits per byte,
/// high nibble first.
pub open spec fn hex_upper_of(bs: Seq<u8>) -> Seq<char>
    decreases bs.len(),
{
    if bs.len() == 0 {
        Seq::<char>::empty()
    } else {
        seq![
            hex_digit_upper(bs.first() as int / 16),
            hex_digit_upper(bs.first() as int % 16),
        ] + hex_upper_of(bs.drop_first())
    }
}

/// The SHA-256 digest of a byte sequence, named but not written out: it is a
/// function of the input bytes alone.
pub uninterp spec fn sha256_of(data: Seq<u8>) -> Seq<u8>;

/// Relies on sha2's `Sha256` through the `Digest` trait: a deterministic
/// digest of the input bytes alone, 32 bytes long.
#[verifier::external_body]
fn sha256_digest(data: &[u8]) -> (r: Vec<u8>)
    ensures
        r@ == sha256_of(data@),
        r@.len() == 32,
{
    sha2::Sha256::digest(data).to_vec()
}

/// Relies on `data_encoding::HEXUPPER.encode`: RFC 4648 base16 with the
/// symbol set "0123456789ABCDEF", two digits per input byte, high nibble
/// first.
#[verifier::external_body]
fn hex_upper_encode(data: &[u8]) -> (r: String)
    ensures
        r@ == hex_upper_of(data@),
{
    data_encoding::HEXUPPER.encode(data)
}

/// The content fingerprint recorded in manifests: uppercase hexadecimal
/// SHA-256 of the file's bytes.
pub open spec fn file_hash_spec(data: Seq<u8>) -> Seq<char> {
    hex_upper_of(sha256_of(data))
}

/// Computes the content fingerprint of a file given its full byte content.
pub fn calculate_file_hash(content: &Vec<u8>) -> (r: String)
    ensures
        r@ == file_hash_spec(content@),
        r@.len() == 64,
{
    let digest = sha256_digest(content.as_slice());
    proof {
        lemma_hex_upper_len(digest@);
    }
    hex_upper_encode(digest.as_slice())
}

/// A hexadecimal rendering is twice as long as its input.
pub proof fn lemma_hex_upper_len(bs: Seq<u8>)
    ensures
        hex_upper_of(bs).len() == 2 * bs.len(),
    decreases bs.len(),
{
    if bs.len() > 0 {
        lemma_hex_upper_len(bs.drop_first());
    }
}

} // verus!
