//! Building the compact JSON attribute objects that nodes carry.
//!
//! Member names are fixed by this library; string values are encoded by the
//! JSON writer.

use vstd::prelude::*;
use crate::text::{chars_of, decimal, extend_chars, extend_str, push_decimal};

verus! {

broadcast use vstd::string::group_string_axioms;

/// The JSON string literal that the JSON writer produces for `s`: `s` in
/// double quotes, with the characters JSON requires escaped.
pub uninterp spec fn json_quoted(s: Seq<char>) -> Seq<char>;

/// A lower-case hexadecimal digit, for `d < 16`.
pub open spec fn hex_digit(d: int) -> char {
    seq!['0', '1', '2', '3', '4', '5', '6', '7', '8', '9', 'a', 'b', 'c', 'd', 'e', 'f'][d]
}

/// How the JSON writer writes one character inside a string: quote and
/// backslash escaped, the short escapes for newline, carriage return, tab,
/// backspace and form feed, other characters below U+0020 as `\u00XX` in
/// lower-case hexadecimal, everything else as itself.
pub open spec fn escape_char(c: char) -> Seq<char> {
    let u = c as u32;
    if c == '"' {
        seq!['\\', '"']
    } else if c == '\\' {
        seq!['\\', '\\']
    } else if c == '\n' {
        seq!['\\', 'n']
    } else if c == '\r' {
        seq!['\\', 'r']
    } else if c == '\t' {
        seq!['\\', 't']
    } else if u == 0x08 {
        seq!['\\', 'b']
    } else if u == 0x0c {
        seq!['\\', 'f']
    } else if u < 0x20 {
        seq!['\\', 'u', '0', '0', hex_digit((u / 16) as int), hex_digit((u % 16) as int)]
    } else {
        seq![c]
    }
}

/// The characters of `s`, each as the writer writes it.
pub open spec fn escape_all(s: Seq<char>) -> Seq<char>
    decreases s.len(),
{
    if s.len() == 0 {
        seq![]
    } else {
        escape_all(s.drop_last()) + escape_char(s.last())
    }
}

/// Encodes `s` as a JSON string literal with `facet_json::to_string`; the
/// contract names the literal it returns, which depends on `s` alone, and
/// states it for every string without U+007F. (The writer copies runs of
/// plain ASCII sixteen bytes at a time and escapes U+007F only outside such
/// runs, so how it writes that character depends on where it stands.)
/// Serialising a string has no failing path in the writer.
#[verifier::external_body]
fn json_string_literal(s: &str) -> (r: String)
    ensures
        r@ == json_quoted(s@),
        (forall|k: int| 0 <= k < s@.len() ==> s@[k] != '\u{7f}') ==> r@ == seq!['"'] + escape_all(
            s@,
        ) + seq!['"'],
{
    facet_json::to_string(s).unwrap()
}

/// Appends `"<key>":<quoted value>` to `out`, where `key_colon` is the member
/// name already quoted and followed by `:`.
pub fn push_string_member(out: &mut Vec<char>, key_colon: &str, value: &str)
    ensures
        final(out)@ == old(out)@ + key_colon@ + json_quoted(value@),
        (forall|k: int| 0 <= k < value@.len() ==> value@[k] != '\u{7f}') ==> final(out)@ == old(
            out,
        )@ + key_colon@ + seq!['"'] + escape_all(value@) + seq!['"'],
{
    extend_str(out, key_colon);
    let q = json_string_literal(value);
    let qc = chars_of(q.as_str());
    extend_chars(out, &qc);
    assert(out@ =~= old(out)@ + key_colon@ + json_quoted(value@));
}

/// Appends `"<key>":<number>` to `out`, where `key_colon` is the member name
/// already quoted and followed by `:`.
pub fn push_number_member(out: &mut Vec<char>, key_colon: &str, value: u64)
    ensures
        final(out)@ == old(out)@ + key_colon@ + decimal(value as nat),
{
    extend_str(out, key_colon);
    push_decimal(out, value);
    assert(out@ =~= old(out)@ + key_colon@ + decimal(value as nat));
}

} // verus!
