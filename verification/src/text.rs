//! Text fields: UTF-8 on the wire, with NUL characters dropped on decoding.

use vstd::prelude::*;
use vstd::utf8::{decode_utf8, valid_utf8};
use crate::error::DecodeError;

verus! {

/// Whether a character of a text field is kept: every character but NUL.
pub open spec fn keeps(c: char) -> bool {
    c != '\0'
}

/// The characters of `chars` that are kept, in their order.
pub open spec fn strip_nul(chars: Seq<char>) -> Seq<char> {
    chars.filter(|c: char| keeps(c))
}

/// The text that the bytes of a text field denote, where they are UTF-8.
pub open spec fn spec_text(bytes: Seq<u8>) -> Seq<char> {
    strip_nul(decode_utf8(bytes))
}

/// Whether a character of a text field is kept.
fn keep_char(c: char) -> (r: bool)
    ensures
        r == keeps(c),
{
    c != '\0'
}

/// `String::from_utf8`, with its error dropped: the string whose UTF-8
/// encoding is `bytes`, or nothing where `bytes` is not UTF-8.
#[verifier::external_body]
fn string_from_utf8(bytes: Vec<u8>) -> (r: Option<String>)
    ensures
        r is Some <==> valid_utf8(bytes@),
        r matches Some(s) ==> s@ == decode_utf8(bytes@),
{
    match String::from_utf8(bytes) {
        Ok(s) => Some(s),
        Err(_) => None,
    }
}

/// `String::retain` with [`keep_char`]: the characters for which it holds
/// stay, in their order, and the others are removed.
#[verifier::external_body]
fn retain_kept(s: &mut String)
    ensures
        final(s)@ == strip_nul(old(s)@),
{
    s.retain(|c| keep_char(c));
}

/// Decodes the bytes of a text field: they must be UTF-8, and NUL characters
/// are dropped.
pub fn decode_text(bytes: &[u8]) -> (r: Result<String, DecodeError>)
    ensures
        valid_utf8(bytes@) ==> r is Ok && r->Ok_0@ == spec_text(bytes@),
        !valid_utf8(bytes@) ==> r == Err::<String, DecodeError>(DecodeError::InvalidText),
{
    let owned = vstd::slice::slice_to_vec(bytes);
    match string_from_utf8(owned) {
        Some(s) => {
            let mut s = s;
            retain_kept(&mut s);
            Ok(s)
        },
        None => Err(DecodeError::InvalidText),
    }
}

/// Dropping NUL characters from a text that has none changes nothing.
pub proof fn lemma_strip_nul_unchanged(chars: Seq<char>)
    requires
        forall|i: int| 0 <= i < chars.len() ==> keeps(#[trigger] chars[i]),
    ensures
        strip_nul(chars) == chars,
    decreases chars.len(),
{
    reveal(Seq::filter);
    if chars.len() > 0 {
        lemma_strip_nul_unchanged(chars.drop_last());
    }
}

} // verus!
