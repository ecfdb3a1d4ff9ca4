//! The two capabilities that the tokenizer asks of a text representation: a borrowed text
//! yields its 16-bit code units, and an owned buffer is built from code units or from text.
//!
//! They are realised twice. Plain code units, `[u16]` and `Vec<u16>`, are the form in which
//! Windows holds its own strings. `str` and the `Wtf8Buf` of the `wtf8` crate are the
//! portable form: a `Wtf8Buf` is a string that may hold unpaired surrogates.

use vstd::prelude::*;
use vstd::slice::slice_to_vec;
use wtf8::Wtf8;
use wtf8::Wtf8Buf;
use crate::utf16::{encode_utf16, well_formed_utf16};

verus! {

/// A borrowed text that can be laid out as 16-bit code units.
pub trait IsWtf8Slice {
    /// The code units that stand for this text.
    spec fn wide(&self) -> Seq<u16>;

    /// Hands out the code units of the text, unpaired surrogates as they are.
    fn encode_wide(&self) -> (wide: Vec<u16>)
        ensures
            wide@ == self.wide(),
    ;
}

/// An owned buffer that can be built from 16-bit code units without loss.
pub trait IsWtf8Buf: Sized {
    /// The code units that this buffer stands for.
    spec fn wide(&self) -> Seq<u16>;

    /// Builds the buffer that stands for exactly the given code units, well formed or not.
    fn from_wide(wide: &[u16]) -> (buf: Self)
        ensures
            buf.wide() == wide@,
    ;

    /// Builds the buffer that stands for a text.
    fn from_str(s: &str) -> (buf: Self)
        ensures
            buf.wide() == encode_utf16(s@),
    ;
}

/// The code units of each buffer of a sequence.
pub open spec fn wide_tokens<S: IsWtf8Buf>(items: Seq<S>) -> Seq<Seq<u16>> {
    Seq::new(items.len(), |i: int| items[i].wide())
}

/// A token added to a sequence of buffers adds its code units to theirs.
pub proof fn lemma_wide_tokens_push<S: IsWtf8Buf>(items: Seq<S>, item: S)
    ensures
        wide_tokens(items.push(item)) == wide_tokens(items).push(item.wide()),
{
}

/// The `Wtf8Buf` of the `wtf8` crate, an owned string that may hold unpaired surrogates.
/// Nothing is known of a value of it but what [`wtf8_units`] names.
#[verifier::external_type_specification]
#[verifier::external_body]
pub struct ExWtf8Buf(Wtf8Buf);

/// What a `Wtf8Buf` holds, as the 16-bit code units that `Wtf8::to_ill_formed_utf16` lays it
/// out in: one unit for each code point below U+10000, surrogates among them, and a surrogate
/// pair for each one above.
pub uninterp spec fn wtf8_units(buf: Wtf8Buf) -> Seq<u16>;

/// `Wtf8Buf::from_ill_formed_utf16`. Trusted: the buffer holds exactly the units it was made
/// from, which the crate documents as the conversion being lossless.
#[verifier::external_body]
fn wtf8_from_wide(wide: &[u16]) -> (buf: Wtf8Buf)
    ensures
        wtf8_units(buf) == wide@,
{
    Wtf8Buf::from_ill_formed_utf16(wide)
}

/// `Wtf8Buf::from_str`. Trusted: the buffer holds the UTF-16 encoding of the text, since it
/// copies the text's UTF-8 bytes and those hold the text's characters as code points.
#[verifier::external_body]
fn wtf8_from_str(s: &str) -> (buf: Wtf8Buf)
    ensures
        wtf8_units(buf) == encode_utf16(s@),
{
    Wtf8Buf::from_str(s)
}

/// `Wtf8::to_ill_formed_utf16` on the text seen as a `Wtf8` slice by `Wtf8::from_str`.
/// Trusted: the units are the UTF-16 encoding of the text, one unit or one surrogate pair
/// for each character.
#[verifier::external_body]
fn wtf8_encode_wide(s: &str) -> (wide: Vec<u16>)
    ensures
        wide@ == encode_utf16(s@),
{
    Wtf8::from_str(s).to_ill_formed_utf16().collect()
}

/// `Wtf8Buf::into_string`. Trusted: it succeeds exactly when the buffer holds no surrogate
/// code point, which is when no surrogate among its units is unpaired; the string then
/// holds the text that those units encode, and on failure the buffer comes back as it was.
#[verifier::external_body]
pub(crate) fn wtf8_into_string(buf: Wtf8Buf) -> (result: Result<String, Wtf8Buf>)
    ensures
        result is Ok <==> well_formed_utf16(wtf8_units(buf)),
        result matches Ok(s) ==> encode_utf16(s@) == wtf8_units(buf),
        result matches Err(b) ==> wtf8_units(b) == wtf8_units(buf),
{
    buf.into_string()
}

impl IsWtf8Slice for [u16] {
    open spec fn wide(&self) -> Seq<u16> {
        self@
    }

    fn encode_wide(&self) -> (wide: Vec<u16>) {
        slice_to_vec(self)
    }
}

impl IsWtf8Buf for Vec<u16> {
    open spec fn wide(&self) -> Seq<u16> {
        self@
    }

    fn from_wide(wide: &[u16]) -> (buf: Self) {
        slice_to_vec(wide)
    }

    fn from_str(s: &str) -> (buf: Self) {
        wtf8_encode_wide(s)
    }
}

impl IsWtf8Slice for str {
    open spec fn wide(&self) -> Seq<u16> {
        encode_utf16(self@)
    }

    fn encode_wide(&self) -> (wide: Vec<u16>) {
        wtf8_encode_wide(self)
    }
}

impl IsWtf8Buf for Wtf8Buf {
    open spec fn wide(&self) -> Seq<u16> {
        wtf8_units(*self)
    }

    fn from_wide(wide: &[u16]) -> (buf: Self) {
        wtf8_from_wide(wide)
    }

    fn from_str(s: &str) -> (buf: Self) {
        wtf8_from_str(s)
    }
}

} // verus!
