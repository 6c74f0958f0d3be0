//! The text of a snapshot: a rope, seen as the characters it holds.

use vstd::prelude::*;
use vstd::utf8::{decode_utf8, encode_utf8, valid_utf8};

verus! {

/// The rope type, carried as it is.
#[verifier::external_type_specification]
#[verifier::external_body]
pub struct ExRope(ropey::Rope);

/// The error of a stream.
#[verifier::external_type_specification]
#[verifier::external_body]
pub struct ExIoError(std::io::Error);

/// The characters that a rope holds, in order.
pub uninterp spec fn rope_text(rope: ropey::Rope) -> Seq<char>;

/// `ropey::Rope::len_bytes`: the number of bytes of the rope's text in UTF-8.
#[verifier::external_body]
pub(crate) fn rope_len_bytes(rope: &ropey::Rope) -> (r: usize)
    ensures
        r == encode_utf8(rope_text(*rope)).len(),
{
    rope.len_bytes()
}

/// `ropey::Rope::len_chars`: the number of characters of the rope's text.
#[verifier::external_body]
pub(crate) fn rope_len_chars(rope: &ropey::Rope) -> (r: usize)
    ensures
        r == rope_text(*rope).len(),
{
    rope.len_chars()
}

/// `ropey::Rope::clone`: a rope with the same text.
#[verifier::external_body]
pub(crate) fn rope_clone(rope: &ropey::Rope) -> (r: ropey::Rope)
    ensures
        rope_text(r) == rope_text(*rope),
{
    rope.clone()
}

/// `ropey::Rope::from_reader` on bytes in memory, which never fail to be read: it succeeds on
/// valid UTF-8 and only there, and the rope then holds the characters that the bytes encode.
#[verifier::external_body]
pub(crate) fn rope_from_bytes(bytes: &[u8]) -> (r: Result<ropey::Rope, std::io::Error>)
    ensures
        r is Ok <==> valid_utf8(bytes@),
        r matches Ok(rope) ==> rope_text(rope) == decode_utf8(bytes@),
{
    ropey::Rope::from_reader(bytes)
}

/// `ropey::Rope::write_to` into bytes in memory, which never fails: the rope's text in UTF-8
/// stands behind what was there.
#[verifier::external_body]
pub(crate) fn rope_write_to(rope: &ropey::Rope, out: &mut Vec<u8>) -> (r: Result<
    (),
    std::io::Error,
>)
    ensures
        r is Ok,
        final(out)@ == old(out)@ + encode_utf8(rope_text(*rope)),
{
    rope.write_to(out)
}

/// `String::from_utf8`: the text of bytes that are valid UTF-8, and nothing for others.
#[verifier::external_body]
pub(crate) fn utf8_text(bytes: &[u8]) -> (r: Option<String>)
    ensures
        r is Some <==> valid_utf8(bytes@),
        r matches Some(text) ==> text@ == decode_utf8(bytes@),
{
    String::from_utf8(bytes.to_vec()).ok()
}

} // verus!
