//! The MD5 digest that hash codes are made of.
use vstd::prelude::*;
use md5::{Digest, Md5};

verus! {

/// The MD5 digest of the UTF-8 bytes of `text`, as lower-case hexadecimal.
pub uninterp spec fn md5_hex(text: Seq<char>) -> Seq<char>;

/// Computes `Md5::digest` of the text's bytes (md-5 crate) and formats it with `{:x}`.
/// Claimed: the result is `md5_hex` of the text; nothing is stated of the digest itself.
#[verifier::external_body]
pub(crate) fn md5_hash(text: &str) -> (r: String)
    ensures
        r@ == md5_hex(text@),
{
    format!("{:x}", Md5::digest(text.as_bytes()))
}

} // verus!
