//! Trusted interface to the compression and serialization crates.
//!
//! Compiled artifacts are serialized with postcard and compressed with
//! miniz_oxide.  Both are deterministic functions of their input, which the
//! names below capture; the round trip through each is lossless.

use vstd::prelude::*;

use crate::table::string_pairs_view;

verus! {

/// What miniz_oxide's deflate produces for the given data and level.
pub uninterp spec fn deflate_of(data: Seq<u8>, level: int) -> Seq<u8>;

/// What miniz_oxide's inflate recovers from the given bytes; `None` when they
/// do not decompress.
pub uninterp spec fn inflate_of(data: Seq<u8>) -> Option<Seq<u8>>;

/// The entry pairs that postcard deserializes from the given bytes; `None`
/// when they do not deserialize.
pub uninterp spec fn decoded_pairs(bytes: Seq<u8>) -> Option<Seq<(Seq<char>, Seq<char>)>>;

/// The string list that postcard deserializes from the given bytes; `None`
/// when they do not deserialize.
pub uninterp spec fn decoded_keys(bytes: Seq<u8>) -> Option<Seq<Seq<char>>>;

/// Relies on miniz_oxide::deflate::compress_to_vec: deterministic, and
/// decompressing its output recovers the input exactly.
#[verifier::external_body]
pub fn compress_bytes(data: &[u8], level: u8) -> (r: Vec<u8>)
    ensures
        r@ == deflate_of(data@, level as int),
        inflate_of(r@) == Some(data@),
{
    miniz_oxide::deflate::compress_to_vec(data, level)
}

/// Relies on miniz_oxide::inflate::decompress_to_vec: deterministic in its
/// input bytes.
#[verifier::external_body]
pub fn decompress_bytes(data: &[u8]) -> (r: Option<Vec<u8>>)
    ensures
        match r {
            Some(v) => inflate_of(data@) == Some(v@),
            None => inflate_of(data@) is None,
        },
{
    miniz_oxide::inflate::decompress_to_vec(data).ok()
}

/// Relies on postcard::to_stdvec for a vector of string pairs: it cannot
/// fail for this type (the output grows as needed and every collection's
/// length is known), and deserializing what it serialized recovers the same
/// pairs in the same order.
#[verifier::external_body]
pub fn encode_pairs(pairs: &Vec<(String, String)>) -> (r: Vec<u8>)
    ensures
        decoded_pairs(r@) == Some(string_pairs_view(pairs@)),
{
    postcard::to_stdvec(pairs).expect("serializing string pairs cannot fail")
}

/// Relies on postcard::from_bytes for a vector of string pairs:
/// deterministic in its input bytes, and total -- the decoded value is plain
/// owned data, so any input either deserializes or returns an error.
#[verifier::external_body]
pub fn decode_pairs(bytes: &[u8]) -> (r: Option<Vec<(String, String)>>)
    ensures
        match r {
            Some(v) => decoded_pairs(bytes@) == Some(string_pairs_view(v@)),
            None => decoded_pairs(bytes@) is None,
        },
{
    postcard::from_bytes(bytes).ok()
}

/// Relies on postcard::to_stdvec for a vector of strings: it cannot fail for
/// this type, and deserializing what it serialized recovers the same strings
/// in the same order.
#[verifier::external_body]
pub fn encode_keys(keys: &Vec<String>) -> (r: Vec<u8>)
    ensures
        decoded_keys(r@) == Some(keys.deep_view()),
{
    postcard::to_stdvec(keys).expect("serializing strings cannot fail")
}

/// Relies on postcard::from_bytes for a vector of strings: deterministic in
/// its input bytes.
#[verifier::external_body]
pub fn decode_keys(bytes: &[u8]) -> (r: Option<Vec<String>>)
    ensures
        match r {
            Some(v) => decoded_keys(bytes@) == Some(v.deep_view()),
            None => decoded_keys(bytes@) is None,
        },
{
    postcard::from_bytes(bytes).ok()
}

} // verus!
