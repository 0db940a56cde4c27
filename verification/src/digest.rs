//! The digest by which the content of a file is recorded: MD5, written in
//! hexadecimal.

use vstd::prelude::*;
use md5::{Digest, Md5};

verus! {

/// The MD5 digest of `data`.
pub uninterp spec fn md5_digest(data: Seq<u8>) -> Seq<u8>;

/// The hexadecimal digit for a number from 0 to 15, in lower case.
pub open spec fn hex_digit(n: int) -> char {
    "0123456789abcdef"@[n]
}

/// The bytes of `data` written in hexadecimal: two digits for each byte, the
/// higher half first.
pub open spec fn hex_text(data: Seq<u8>) -> Seq<char>
    decreases data.len(),
{
    if data.len() == 0 {
        Seq::empty()
    } else {
        hex_text(data.drop_last()).push(hex_digit(data.last() as int / 16)).push(
            hex_digit(data.last() as int % 16),
        )
    }
}

/// Computes an MD5 digest with `Md5::digest` of the md-5 crate. Trusted: the
/// result is the MD5 digest of `data`, which depends on `data` alone.
#[verifier::external_body]
pub(crate) fn md5_of(data: &[u8]) -> (r: Vec<u8>)
    ensures
        r@ == md5_digest(data@),
{
    Md5::digest(data).to_vec()
}

/// Writes bytes in hexadecimal with `encode` of the hex crate. Trusted: the
/// result holds two digits for each byte, in lower case, in the order of the bytes.
#[verifier::external_body]
pub(crate) fn hex_of(data: &Vec<u8>) -> (r: String)
    ensures
        r@ == hex_text(data@),
{
    hex::encode(data)
}

/// A digest as it is recorded: its bytes in hexadecimal.
pub fn digest_text(digest: &Vec<u8>) -> (r: String)
    ensures
        r@ == hex_text(digest@),
{
    hex_of(digest)
}

/// The MD5 digest of `data`, in hexadecimal.
pub fn get_md5_sum(data: &[u8]) -> (r: String)
    ensures
        r@ == hex_text(md5_digest(data@)),
{
    let digest = md5_of(data);
    digest_text(&digest)
}

} // verus!
