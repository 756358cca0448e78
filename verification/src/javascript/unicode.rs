//! Which characters may stand in an identifier.

use vstd::prelude::*;

verus! {

/// Whether a character has the Unicode property `XID_Start`.
pub uninterp spec fn xid_start(c: char) -> bool;

/// Whether a character has the Unicode property `XID_Continue`.
pub uninterp spec fn xid_continue(c: char) -> bool;

pub open spec fn is_ascii_letter(c: char) -> bool {
    ('a' <= c && c <= 'z') || ('A' <= c && c <= 'Z')
}

pub open spec fn is_ascii_digit(c: char) -> bool {
    '0' <= c && c <= '9'
}

/// Asks `unicode_xid::UnicodeXID::is_xid_start`, which looks the character up
/// in the tables of the Unicode property `XID_Start`.
#[verifier::external_body]
pub(crate) fn is_xid_start(c: char) -> (r: bool)
    ensures
        r == xid_start(c),
{
    unicode_xid::UnicodeXID::is_xid_start(c)
}

/// Asks `unicode_xid::UnicodeXID::is_xid_continue`, which looks the character
/// up in the tables of the Unicode property `XID_Continue`.
#[verifier::external_body]
pub(crate) fn is_xid_continue(c: char) -> (r: bool)
    ensures
        r == xid_continue(c),
{
    unicode_xid::UnicodeXID::is_xid_continue(c)
}

/// Whether a character can begin an identifier: up to U+007F the letters,
/// the dollar sign and the underscore; beyond, the characters with the
/// Unicode property `XID_Start`.
pub open spec fn id_start(c: char) -> bool {
    if c <= '\x7f' {
        is_ascii_letter(c) || c == '$' || c == '_'
    } else {
        xid_start(c)
    }
}

/// Whether a character can stand inside an identifier: up to U+007F the
/// letters, the digits, the dollar sign and the underscore; beyond, the
/// characters with the Unicode property `XID_Continue` and the two
/// zero-width joiners.
pub open spec fn id_continue(c: char) -> bool {
    if c <= '\x7f' {
        is_ascii_letter(c) || is_ascii_digit(c) || c == '$' || c == '_'
    } else {
        xid_continue(c) || c == '\u{200C}' || c == '\u{200D}'
    }
}

pub fn satisfy_id_start(c: char) -> (r: bool)
    ensures
        r == id_start(c),
{
    if c <= '\x7f' {
        ('a' <= c && c <= 'z') || ('A' <= c && c <= 'Z') || c == '$' || c == '_'
    } else {
        is_xid_start(c)
    }
}

pub fn satisfy_id_continue(c: char) -> (r: bool)
    ensures
        r == id_continue(c),
{
    if c <= '\x7f' {
        ('a' <= c && c <= 'z') || ('A' <= c && c <= 'Z') || ('0' <= c && c <= '9') || c == '$'
            || c == '_'
    } else {
        is_xid_continue(c) || c == '\u{200C}' || c == '\u{200D}'
    }
}

} // verus!
