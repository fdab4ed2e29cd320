//! Checks applied to a SQL query before it runs against a snapshot: one
//! statement only, and no direct access to the main schema's scoped tables.

use vstd::prelude::*;
use vstd::string::StringSliceAdditionalSpecFns;
use crate::text::{
    chars_of, contains_chars, contains_seq, extend_chars, extend_str, string_of,
};

verus! {

broadcast use vstd::string::group_string_axioms;

/// An API error: an HTTP status and a message.
pub struct ApiError {
    pub status: u16,
    pub message: String,
}

/// HTTP 400.
pub const BAD_REQUEST: u16 = 400;

// ── One statement only ───────────────────────────────────────────

/// `u8::is_ascii_whitespace`: space, tab, line feed, form feed, carriage return.
pub open spec fn is_ascii_ws(b: u8) -> bool {
    b == 0x20 || b == 0x09 || b == 0x0a || b == 0x0c || b == 0x0d
}

/// The position just after a quoted run that closes with `q`, scanning from
/// `i` (just after the opening quote); a doubled `q` is an escaped quote. An
/// unclosed run ends at the end of the input.
pub open spec fn quoted_end(b: Seq<u8>, i: int, q: u8) -> int
    decreases b.len() - i,
{
    if i < 0 || i >= b.len() {
        i
    } else if b[i] == q {
        if i + 1 < b.len() && b[i + 1] == q {
            quoted_end(b, i + 2, q)
        } else {
            i + 1
        }
    } else {
        quoted_end(b, i + 1, q)
    }
}

/// The position just after a `--` comment's line feed, scanning from `i`.
pub open spec fn line_comment_end(b: Seq<u8>, i: int) -> int
    decreases b.len() - i,
{
    if i < 0 || i >= b.len() {
        i
    } else if b[i] == 0x0a {
        i + 1
    } else {
        line_comment_end(b, i + 1)
    }
}

/// The position just after a `/* */` comment's `*/`, scanning from `i`; an
/// unclosed comment stops before the input's last byte, which is scanned
/// again as ordinary text.
pub open spec fn block_comment_end(b: Seq<u8>, i: int) -> int
    decreases b.len() - i,
{
    if i < 0 || i + 1 >= b.len() {
        i
    } else if b[i] == 0x2a && b[i + 1] == 0x2f {
        i + 2
    } else {
        block_comment_end(b, i + 1)
    }
}

pub proof fn lemma_quoted_end_ge(b: Seq<u8>, i: int, q: u8)
    requires
        0 <= i,
    ensures
        i <= quoted_end(b, i, q),
        i <= b.len() ==> quoted_end(b, i, q) <= b.len(),
    decreases b.len() - i,
{
    if i < b.len() {
        if b[i] == q {
            if i + 1 < b.len() && b[i + 1] == q {
                lemma_quoted_end_ge(b, i + 2, q);
            }
        } else {
            lemma_quoted_end_ge(b, i + 1, q);
        }
    }
}

pub proof fn lemma_line_comment_end_ge(b: Seq<u8>, i: int)
    requires
        0 <= i,
    ensures
        i <= line_comment_end(b, i),
        i <= b.len() ==> line_comment_end(b, i) <= b.len(),
    decreases b.len() - i,
{
    if i < b.len() && b[i] != 0x0a {
        lemma_line_comment_end_ge(b, i + 1);
    }
}

pub proof fn lemma_block_comment_end_ge(b: Seq<u8>, i: int)
    requires
        0 <= i,
    ensures
        i <= block_comment_end(b, i),
        i <= b.len() ==> block_comment_end(b, i) <= b.len(),
    decreases b.len() - i,
{
    if i + 1 < b.len() && !(b[i] == 0x2a && b[i + 1] == 0x2f) {
        lemma_block_comment_end_ge(b, i + 1);
    }
}

/// Scanning `b` from `i`, with `found` telling whether a `;` has been seen
/// outside quotes and comments: a non-whitespace byte outside quotes and
/// comments follows such a `;`.
pub open spec fn has_second_statement(b: Seq<u8>, i: int, found: bool) -> bool
    decreases b.len() - i,
{
    if i < 0 || i >= b.len() {
        false
    } else if b[i] == 0x27 {
        proof {
            lemma_quoted_end_ge(b, i + 1, 0x27);
        }
        has_second_statement(b, quoted_end(b, i + 1, 0x27), found)
    } else if b[i] == 0x22 {
        proof {
            lemma_quoted_end_ge(b, i + 1, 0x22);
        }
        has_second_statement(b, quoted_end(b, i + 1, 0x22), found)
    } else if b[i] == 0x2d && i + 1 < b.len() && b[i + 1] == 0x2d {
        proof {
            lemma_line_comment_end_ge(b, i + 2);
        }
        has_second_statement(b, line_comment_end(b, i + 2), found)
    } else if b[i] == 0x2f && i + 1 < b.len() && b[i + 1] == 0x2a {
        proof {
            lemma_block_comment_end_ge(b, i + 2);
        }
        has_second_statement(b, block_comment_end(b, i + 2), found)
    } else if b[i] == 0x3b {
        has_second_statement(b, i + 1, true)
    } else if found && !is_ascii_ws(b[i]) {
        true
    } else {
        has_second_statement(b, i + 1, found)
    }
}

/// The input holds more than one statement.
pub open spec fn is_multiple_statements(b: Seq<u8>) -> bool {
    has_second_statement(b, 0, false)
}

fn is_ascii_ws_exec(b: u8) -> (r: bool)
    ensures
        r == is_ascii_ws(b),
{
    b == 0x20 || b == 0x09 || b == 0x0a || b == 0x0c || b == 0x0d
}

fn skip_quoted(bytes: &[u8], start: usize, q: u8) -> (end: usize)
    requires
        start <= bytes@.len(),
    ensures
        end == quoted_end(bytes@, start as int, q),
        start <= end <= bytes@.len(),
{
    let len = bytes.len();
    let mut i = start;
    proof {
        lemma_quoted_end_ge(bytes@, start as int, q);
    }
    while i < len
        invariant
            start <= i <= len,
            len == bytes@.len(),
            quoted_end(bytes@, i as int, q) == quoted_end(bytes@, start as int, q),
        decreases len - i,
    {
        if bytes[i] == q {
            i = i + 1;
            if i < len && bytes[i] == q {
                i = i + 1;
            } else {
                return i;
            }
        } else {
            i = i + 1;
        }
    }
    i
}

fn skip_line_comment(bytes: &[u8], start: usize) -> (end: usize)
    requires
        start <= bytes@.len(),
    ensures
        end == line_comment_end(bytes@, start as int),
        start <= end <= bytes@.len(),
{
    let len = bytes.len();
    let mut i = start;
    while i < len && bytes[i] != 0x0a
        invariant
            start <= i <= len,
            len == bytes@.len(),
            line_comment_end(bytes@, i as int) == line_comment_end(bytes@, start as int),
        decreases len - i,
    {
        i = i + 1;
    }
    if i < len {
        i = i + 1;
    }
    i
}

fn skip_block_comment(bytes: &[u8], start: usize) -> (end: usize)
    requires
        start <= bytes@.len(),
    ensures
        end == block_comment_end(bytes@, start as int),
        start <= end <= bytes@.len(),
{
    let len = bytes.len();
    let mut i = start;
    while i < len && i + 1 < len
        invariant
            start <= i <= len,
            len == bytes@.len(),
            block_comment_end(bytes@, i as int) == block_comment_end(bytes@, start as int),
        decreases len - i,
    {
        if bytes[i] == 0x2a && bytes[i + 1] == 0x2f {
            return i + 2;
        }
        i = i + 1;
    }
    i
}

/// Rejects input that holds more than one statement: a `;` outside quoted
/// strings, quoted identifiers and comments, followed by anything but
/// whitespace.
pub fn reject_multiple_statements(sql: &str) -> (r: Result<(), ApiError>)
    ensures
        r is Ok <==> !is_multiple_statements(sql.spec_bytes()),
        r matches Err(e) ==> e.status == BAD_REQUEST && e.message@
            == "multiple statements not allowed"@,
{
    let bytes = sql.as_bytes();
    let len = bytes.len();
    let mut i: usize = 0;
    let mut found = false;
    while i < len
        invariant
            i <= len,
            len == bytes@.len(),
            bytes@ == sql.spec_bytes(),
            has_second_statement(bytes@, i as int, found) == is_multiple_statements(bytes@),
        decreases len - i,
    {
        let b = bytes[i];
        if b == 0x27 {
            i = skip_quoted(bytes, i + 1, 0x27);
        } else if b == 0x22 {
            i = skip_quoted(bytes, i + 1, 0x22);
        } else if b == 0x2d && i + 1 < len && bytes[i + 1] == 0x2d {
            i = skip_line_comment(bytes, i + 2);
        } else if b == 0x2f && i + 1 < len && bytes[i + 1] == 0x2a {
            i = skip_block_comment(bytes, i + 2);
        } else if b == 0x3b {
            found = true;
            i = i + 1;
        } else {
            if found && !is_ascii_ws_exec(b) {
                return Err(
                    ApiError {
                        status: BAD_REQUEST,
                        message: String::from_str("multiple statements not allowed"),
                    },
                );
            }
            i = i + 1;
        }
    }
    Ok(())
}

/// Law: input without any `;` is a single statement.
pub proof fn lemma_no_semicolon_single_statement(b: Seq<u8>)
    requires
        forall|k: int| 0 <= k < b.len() ==> b[k] != 0x3b,
    ensures
        !is_multiple_statements(b),
{
    lemma_no_semicolon_from(b, 0);
}

proof fn lemma_no_semicolon_from(b: Seq<u8>, i: int)
    requires
        0 <= i,
        forall|k: int| 0 <= k < b.len() ==> b[k] != 0x3b,
    ensures
        !has_second_statement(b, i, false),
    decreases b.len() - i,
{
    if i < b.len() {
        if b[i] == 0x27 {
            lemma_quoted_end_ge(b, i + 1, 0x27);
            lemma_no_semicolon_from(b, quoted_end(b, i + 1, 0x27));
        } else if b[i] == 0x22 {
            lemma_quoted_end_ge(b, i + 1, 0x22);
            lemma_no_semicolon_from(b, quoted_end(b, i + 1, 0x22));
        } else if b[i] == 0x2d && i + 1 < b.len() && b[i + 1] == 0x2d {
            lemma_line_comment_end_ge(b, i + 2);
            lemma_no_semicolon_from(b, line_comment_end(b, i + 2));
        } else if b[i] == 0x2f && i + 1 < b.len() && b[i + 1] == 0x2a {
            lemma_block_comment_end_ge(b, i + 2);
            lemma_no_semicolon_from(b, block_comment_end(b, i + 2));
        } else {
            lemma_no_semicolon_from(b, i + 1);
        }
    }
}

// ── No direct main-schema access ─────────────────────────────────

/// `char::to_ascii_lowercase`.
pub open spec fn ascii_lower(c: char) -> char {
    if 65 <= c as u32 <= 90 {
        ((c as u32 + 32) as u8) as char
    } else {
        c
    }
}

/// `str::to_ascii_lowercase`.
pub open spec fn ascii_lowercase(s: Seq<char>) -> Seq<char> {
    s.map_values(|c: char| ascii_lower(c))
}

/// The tables that snapshot-scoped views shadow, in the order they are checked.
pub open spec fn scoped_tables() -> Seq<Seq<char>> {
    seq!["nodes"@, "edges"@, "snapshot_processes"@]
}

/// The lowercased query names `main.<table>` or `main.[<table>]`.
pub open spec fn names_main_table(lower: Seq<char>, table: Seq<char>) -> bool {
    contains_seq(lower, "main."@ + table) || contains_seq(lower, "main.["@ + table + "]"@)
}

/// The message for a query that names `main.<table>`.
pub open spec fn main_access_message(table: Seq<char>) -> Seq<char> {
    "direct access to main."@ + table + " is not allowed; use "@ + table + " instead"@
}

pub(crate) fn lowercase_chars(v: &Vec<char>) -> (r: Vec<char>)
    ensures
        r@ == ascii_lowercase(v@),
{
    let mut r: Vec<char> = Vec::new();
    let mut i: usize = 0;
    while i < v.len()
        invariant
            i <= v.len(),
            r@ == ascii_lowercase(v@.subrange(0, i as int)),
        decreases v.len() - i,
    {
        let c = v[i];
        let u = c as u32;
        let l = if 65 <= u && u <= 90 {
            ((u + 32) as u8) as char
        } else {
            c
        };
        r.push(l);
        i = i + 1;
        assert(r@ =~= ascii_lowercase(v@.subrange(0, i as int)));
    }
    assert(v@.subrange(0, v.len() as int) =~= v@);
    r
}

fn names_main_table_exec(lower: &Vec<char>, table: &str) -> (r: bool)
    ensures
        r == names_main_table(lower@, table@),
{
    let mut dotted = chars_of("main.");
    extend_str(&mut dotted, table);
    let mut bracketed = chars_of("main.[");
    extend_str(&mut bracketed, table);
    extend_str(&mut bracketed, "]");
    contains_chars(lower, &dotted) || contains_chars(lower, &bracketed)
}

fn main_access_error(table: &str) -> (e: ApiError)
    ensures
        e.status == BAD_REQUEST,
        e.message@ == main_access_message(table@),
{
    let mut m = chars_of("direct access to main.");
    extend_str(&mut m, table);
    extend_str(&mut m, " is not allowed; use ");
    extend_str(&mut m, table);
    extend_str(&mut m, " instead");
    ApiError { status: BAD_REQUEST, message: string_of(&m) }
}

/// Rejects a query that names `main.<table>` or `main.[<table>]` (in any
/// case) for a snapshot-scoped table, naming the first such table.
pub fn reject_main_schema_access(sql: &str) -> (r: Result<(), ApiError>)
    ensures
        r is Ok <==> forall|k: int|
            0 <= k < scoped_tables().len() ==> !names_main_table(
                ascii_lowercase(sql@),
                #[trigger] scoped_tables()[k],
            ),
        r matches Err(e) ==> e.status == BAD_REQUEST && exists|k: int|
            0 <= k < scoped_tables().len() && names_main_table(
                ascii_lowercase(sql@),
                #[trigger] scoped_tables()[k],
            ) && (forall|j: int|
                0 <= j < k ==> !names_main_table(ascii_lowercase(sql@), scoped_tables()[j]))
                && e.message@ == main_access_message(scoped_tables()[k]),
{
    let lower = lowercase_chars(&chars_of(sql));
    if names_main_table_exec(&lower, "nodes") {
        let e = main_access_error("nodes");
        assert(names_main_table(ascii_lowercase(sql@), scoped_tables()[0]));
        return Err(e);
    }
    if names_main_table_exec(&lower, "edges") {
        let e = main_access_error("edges");
        assert(names_main_table(ascii_lowercase(sql@), scoped_tables()[1]));
        return Err(e);
    }
    if names_main_table_exec(&lower, "snapshot_processes") {
        let e = main_access_error("snapshot_processes");
        assert(names_main_table(ascii_lowercase(sql@), scoped_tables()[2]));
        return Err(e);
    }
    assert forall|k: int| 0 <= k < scoped_tables().len() implies !names_main_table(
        ascii_lowercase(sql@),
        #[trigger] scoped_tables()[k],
    ) by {
        if k == 0 {
        } else if k == 1 {
        } else {
        }
    }
    Ok(())
}

// ── Query preview ────────────────────────────────────────────────

/// The longest query kept whole in logs, in bytes.
pub const SQL_PREVIEW_LIMIT: usize = 160;

/// The query for logging: whole when at most 160 bytes, else its first 160
/// bytes followed by `...`. The cut is made at byte 160, so it must fall on a
/// character boundary; other queries are not accepted.
pub fn preview_sql(sql: &str) -> (r: String)
    requires
        sql.spec_bytes().len() <= usize::MAX,
        sql.spec_bytes().len() > SQL_PREVIEW_LIMIT ==> vstd::utf8::is_char_boundary(
            sql.spec_bytes(),
            SQL_PREVIEW_LIMIT as int,
        ),
    ensures
        sql.spec_bytes().len() <= SQL_PREVIEW_LIMIT ==> r@ == sql@,
        sql.spec_bytes().len() > SQL_PREVIEW_LIMIT ==> exists|p: Seq<char>|
            vstd::utf8::encode_utf8(p) == sql.spec_bytes().subrange(0, SQL_PREVIEW_LIMIT as int)
                && r@ == p + "..."@,
{
    if sql.len() <= SQL_PREVIEW_LIMIT {
        return sql.to_owned();
    }
    let (head, _) = sql.split_at(SQL_PREVIEW_LIMIT);
    let mut out = head.to_owned();
    out.append("...");
    assert(vstd::utf8::encode_utf8(head@) == head.spec_bytes());
    out
}

} // verus!
