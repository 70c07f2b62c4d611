//! Classes of characters: those that Unicode defines, which the standard
//! library knows, and the ASCII classes, which a comparison decides.

use vstd::prelude::*;

verus! {

/// Whether `c` has the Unicode property `White_Space`, as `char::is_whitespace`
/// tells it.
pub uninterp spec fn is_whitespace(c: char) -> bool;

/// Whether `c` has the Unicode property `Alphabetic`, as `char::is_alphabetic`
/// tells it.
pub uninterp spec fn is_alphabetic(c: char) -> bool;

/// Whether `c` is an ASCII punctuation character: one of
/// ``! " # $ % & ' ( ) * + , - . /``, `: ; < = > ? @`, ``[ \ ] ^ _ ` `` and
/// `{ | } ~`.
pub open spec fn is_punctuation(c: char) -> bool {
    '!' <= c <= '/' || ':' <= c <= '@' || '[' <= c <= '`' || '{' <= c <= '~'
}

/// Whether `c` is one of the ASCII capital letters `A` to `Z`.
pub open spec fn is_capital(c: char) -> bool {
    'A' <= c <= 'Z'
}

/// Calls `char::is_whitespace`. The contract claims only that the answer is
/// the one that `is_whitespace` names: the class of a character is fixed.
#[verifier::external_body]
pub(crate) fn char_is_whitespace(c: char) -> (b: bool)
    ensures
        b == is_whitespace(c),
{
    c.is_whitespace()
}

/// Calls `char::is_alphabetic`. The contract claims only that the answer is
/// the one that `is_alphabetic` names: the class of a character is fixed.
#[verifier::external_body]
pub(crate) fn char_is_alphabetic(c: char) -> (b: bool)
    ensures
        b == is_alphabetic(c),
{
    c.is_alphabetic()
}

/// Whether `c` is an ASCII punctuation character.
pub fn char_is_punctuation(c: char) -> (b: bool)
    ensures
        b == is_punctuation(c),
{
    (c >= '!' && c <= '/') || (c >= ':' && c <= '@') || (c >= '[' && c <= '`') || (c >= '{' && c
        <= '~')
}

/// Whether `c` is an ASCII capital letter.
pub fn char_is_capital(c: char) -> (b: bool)
    ensures
        b == is_capital(c),
{
    c >= 'A' && c <= 'Z'
}

} // verus!
