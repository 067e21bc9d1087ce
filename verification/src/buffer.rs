//! The output buffer of the formatter: an arena-allocated string.
//!
//! The buffer type belongs to `bumpalo`. Its contents are modelled by
//! [`text_of`]; the two functions below are the only places where the
//! formatter touches it, and their contracts are taken on trust.

use vstd::prelude::*;

verus! {

/// `bumpalo::collections::String`, a string that lives in an arena.
#[verifier::external_type_specification]
#[verifier::external_body]
pub struct ExBumpString<'bump>(bumpalo::collections::String<'bump>);

/// The characters held by a buffer, in order.
pub uninterp spec fn text_of(buf: &bumpalo::collections::String) -> Seq<char>;

/// Appends one character to the buffer.
///
/// Calls `bumpalo::collections::String::push`, which adds the UTF-8 encoding
/// of `ch` after the bytes already present and changes nothing else.
#[verifier::external_body]
pub(crate) fn push_char(buf: &mut bumpalo::collections::String, ch: char)
    ensures
        text_of(final(buf)) == text_of(old(buf)).push(ch),
{
    buf.push(ch)
}

/// Appends a string slice to the buffer.
///
/// Calls `bumpalo::collections::String::push_str`, which copies the bytes of
/// `s` after the bytes already present and changes nothing else.
#[verifier::external_body]
pub(crate) fn push_text(buf: &mut bumpalo::collections::String, s: &str)
    ensures
        text_of(final(buf)) == text_of(old(buf)) + s@,
{
    buf.push_str(s)
}

} // verus!
