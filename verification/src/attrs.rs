//! Canonicalisation of a node's `attrs_json`: the elapsed time of requests
//! and responses, and the `created_at` / `source` prefix of legacy nodes.

use vstd::prelude::*;
use crate::text::{
    chars_eq, chars_of, digit, contains_chars, contains_seq, decimal, extend_chars, extend_str,
    is_whitespace, is_ws, last_index_of, lemma_last_index_unique, matches_at, push_decimal, rfind_char,
    push_signed_decimal, signed_decimal, slice_of, starts_with, starts_with_chars, string_of, trim,
    trim_bounds, trim_end,
};

verus! {

broadcast use vstd::string::group_string_axioms;

// ── elapsed_ns injection ─────────────────────────────────────────

/// The key whose presence leaves the attributes untouched.
pub open spec fn elapsed_key() -> Seq<char> {
    "\"elapsed_ns\""@
}

/// The attributes form an object: trimmed, they begin with `{` and end with `}`.
pub open spec fn is_braced(t: Seq<char>) -> bool {
    t.len() > 0 && t[0] == '{' && t.last() == '}'
}

/// A comma is needed before a new member inserted after `head`: the last
/// non-whitespace character of `head` exists and is not `{`.
pub open spec fn needs_comma(head: Seq<char>) -> bool {
    trim_end(head).len() > 0 && trim_end(head).last() != '{'
}

/// What `inject_elapsed_ns` returns: the attributes with an `elapsed_ns`
/// member added before the last `}`, unless the key is already present or the
/// text is not an object.
pub open spec fn inject_elapsed_ns_spec(s: Seq<char>, n: u64) -> Seq<char> {
    if contains_seq(s, elapsed_key()) {
        s
    } else if trim(s) == "{}"@ {
        "{\"elapsed_ns\":"@ + decimal(n as nat) + "}"@
    } else if !is_braced(trim(s)) {
        s
    } else {
        let k = last_index_of(s, '}');
        let head = s.subrange(0, k);
        let tail = s.subrange(k, s.len() as int);
        if needs_comma(head) {
            head + ",\"elapsed_ns\":"@ + decimal(n as nat) + tail
        } else {
            head + "\"elapsed_ns\":"@ + decimal(n as nat) + tail
        }
    }
}

proof fn lemma_trim_end_last(s: Seq<char>)
    ensures
        trim_end(s).len() > 0 ==> !is_ws(trim_end(s).last()),
        trim_end(s).len() <= s.len(),
        trim_end(s) == s.subrange(0, trim_end(s).len() as int),
    decreases s.len(),
{
    if s.len() > 0 && is_ws(s.last()) {
        lemma_trim_end_last(s.drop_last());
        assert(s.drop_last().subrange(0, trim_end(s).len() as int) =~= s.subrange(
            0,
            trim_end(s).len() as int,
        ));
    } else {
        assert(s.subrange(0, s.len() as int) =~= s);
    }
}

proof fn lemma_trim_end_prefix(s: Seq<char>, j: int)
    requires
        0 <= j < s.len(),
        !is_ws(s[j]),
        forall|i: int| j < i < s.len() ==> is_ws(#[trigger] s[i]),
    ensures
        trim_end(s) == s.subrange(0, j + 1),
    decreases s.len(),
{
    if j == s.len() - 1 {
        assert(s.subrange(0, j + 1) =~= s);
    } else {
        assert(is_ws(s.last()));
        let d = s.drop_last();
        assert forall|i: int| j < i < d.len() implies is_ws(#[trigger] d[i]) by {
            assert(d[i] == s[i]);
        }
        lemma_trim_end_prefix(d, j);
        assert(d.subrange(0, j + 1) =~= s.subrange(0, j + 1));
    }
}

proof fn lemma_trim_end_all_ws(s: Seq<char>)
    requires
        forall|i: int| 0 <= i < s.len() ==> is_ws(#[trigger] s[i]),
    ensures
        trim_end(s).len() == 0,
    decreases s.len(),
{
    if s.len() > 0 {
        let d = s.drop_last();
        assert forall|i: int| 0 <= i < d.len() implies is_ws(#[trigger] d[i]) by {
            assert(d[i] == s[i]);
        }
        lemma_trim_end_all_ws(d);
    }
}

/// Whether a comma must separate the existing members of `head` from a new one.
fn needs_comma_exec(v: &Vec<char>, k: usize) -> (r: bool)
    requires
        k <= v.len(),
    ensures
        r == needs_comma(v@.subrange(0, k as int)),
{
    let ghost head = v@.subrange(0, k as int);
    let mut i = k;
    while i > 0 && is_whitespace(v[i - 1])
        invariant
            i <= k <= v.len(),
            head == v@.subrange(0, k as int),
            forall|j: int| i <= j < k ==> is_ws(#[trigger] head[j]),
        decreases i,
    {
        i = i - 1;
    }
    if i == 0 {
        proof {
            lemma_trim_end_all_ws(head);
        }
        false
    } else {
        proof {
            lemma_trim_end_prefix(head, i - 1);
        }
        v[i - 1] != '{'
    }
}

/// `prefix + m + suffix` holds `m`.
proof fn lemma_contains_middle(prefix: Seq<char>, m: Seq<char>, suffix: Seq<char>)
    ensures
        contains_seq(prefix + m + suffix, m),
{
    let s = prefix + m + suffix;
    assert(matches_at(s, m, prefix.len() as int)) by {
        assert forall|k: int| 0 <= k < m.len() implies #[trigger] s[prefix.len() + k] == m[k] by {
            assert(s[prefix.len() + k] == (prefix + m)[prefix.len() + k]);
        }
    }
}

/// Law: injecting the elapsed time into attributes that already went through
/// the injection changes nothing, whatever the second time is.
pub proof fn lemma_inject_idempotent(s: Seq<char>, n: u64, m: u64)
    ensures
        inject_elapsed_ns_spec(inject_elapsed_ns_spec(s, n), m) == inject_elapsed_ns_spec(s, n),
{
    let once = inject_elapsed_ns_spec(s, n);
    reveal_strlit("\"elapsed_ns\"");
    reveal_strlit("{\"elapsed_ns\":");
    reveal_strlit(",\"elapsed_ns\":");
    reveal_strlit("\"elapsed_ns\":");
    if contains_seq(s, elapsed_key()) {
    } else if trim(s) == "{}"@ {
        let lit = "{\"elapsed_ns\":"@;
        assert(lit =~= seq!['{'] + elapsed_key() + seq![':']);
        lemma_contains_middle(seq!['{'], elapsed_key(), seq![':'] + decimal(n as nat) + "}"@);
        assert(once =~= seq!['{'] + elapsed_key() + (seq![':'] + decimal(n as nat) + "}"@));
    } else if !is_braced(trim(s)) {
    } else {
        let k = last_index_of(s, '}');
        let head = s.subrange(0, k);
        let tail = s.subrange(k, s.len() as int);
        if needs_comma(head) {
            assert(",\"elapsed_ns\":"@ =~= seq![','] + elapsed_key() + seq![':']);
            lemma_contains_middle(
                head + seq![','],
                elapsed_key(),
                seq![':'] + decimal(n as nat) + tail,
            );
            assert(once =~= (head + seq![',']) + elapsed_key() + (seq![':'] + decimal(n as nat)
                + tail));
        } else {
            assert("\"elapsed_ns\":"@ =~= elapsed_key() + seq![':']);
            lemma_contains_middle(head, elapsed_key(), seq![':'] + decimal(n as nat) + tail);
            assert(once =~= head + elapsed_key() + (seq![':'] + decimal(n as nat) + tail));
        }
    }
}

/// Adds `"elapsed_ns":<elapsed_ns>` to an attributes object, just before its
/// final `}`, unless the key is already present or the text is not an object.
pub fn inject_elapsed_ns(attrs_json: &str, elapsed_ns: u64) -> (r: String)
    ensures
        r@ == inject_elapsed_ns_spec(attrs_json@, elapsed_ns),
{
    let s = chars_of(attrs_json);
    let key = chars_of("\"elapsed_ns\"");
    if contains_chars(&s, &key) {
        return string_of(&s);
    }
    let (a, b) = trim_bounds(&s);
    let t = slice_of(&s, a, b);
    let empty_obj = chars_of("{}");
    if chars_eq(&t, &empty_obj) {
        let mut out = chars_of("{\"elapsed_ns\":");
        push_decimal(&mut out, elapsed_ns);
        extend_str(&mut out, "}");
        return string_of(&out);
    }
    if !(t.len() > 0 && t[0] == '{' && t[t.len() - 1] == '}') {
        return string_of(&s);
    }
    let k = match rfind_char(&s, '}') {
        Some(k) => k,
        None => {
            proof {
                assert(t@[t.len() - 1] == s@[b - 1]);
            }
            return string_of(&s);
        },
    };
    proof {
        lemma_last_index_unique(s@, '}', k as int);
    }
    let comma = needs_comma_exec(&s, k);
    let mut out = slice_of(&s, 0, k);
    if comma {
        extend_str(&mut out, ",\"elapsed_ns\":");
    } else {
        extend_str(&mut out, "\"elapsed_ns\":");
    }
    push_decimal(&mut out, elapsed_ns);
    let tail = slice_of(&s, k, s.len());
    extend_chars(&mut out, &tail);
    string_of(&out)
}

// ── created_at prefix ────────────────────────────────────────────

/// The prefix that a canonical legacy attributes object begins with.
pub open spec fn created_at_prefix() -> Seq<char> {
    "{\"created_at\":"@
}

/// A character that may appear in the numeral after the prefix.
pub open spec fn is_numeral_char(c: char) -> bool {
    ('0' as u32 <= c as u32 <= '9' as u32) || c == '-'
}

/// The end of the run of numeral characters of `t` that starts at `i`.
pub open spec fn numeral_run_end(t: Seq<char>, i: int) -> int
    decreases t.len() - i,
{
    if 0 <= i < t.len() && is_numeral_char(t[i]) {
        numeral_run_end(t, i + 1)
    } else {
        i
    }
}

/// The position just after the `created_at` numeral of the trimmed attributes.
pub open spec fn created_at_end(s: Seq<char>) -> int {
    numeral_run_end(trim(s), created_at_prefix().len() as int)
}

/// The remainder is cut by bytes, which is only possible when the `,` after
/// the numeral is not the last character and the last character is ASCII;
/// other inputs are not accepted.
pub open spec fn strip_slice_ok(s: Seq<char>) -> bool {
    let t = trim(s);
    let idx = created_at_end(s);
    (starts_with(t, created_at_prefix()) && idx < t.len() && t[idx] == ',') ==> (idx + 1
        < t.len() && (t.last() as u32) < 0x80)
}

/// What `strip_created_at_prefix` returns: the attributes without a leading
/// `"created_at":<numeral>` member, or unchanged when they do not begin so.
pub open spec fn strip_created_at_prefix_spec(s: Seq<char>) -> Seq<char> {
    let t = trim(s);
    let idx = created_at_end(s);
    if !starts_with(t, created_at_prefix()) || idx >= t.len() {
        s
    } else if t[idx] == '}' {
        "{}"@
    } else if t[idx] == ',' {
        "{"@ + t.subrange(idx + 1, t.len() - 1) + "}"@
    } else {
        s
    }
}

proof fn lemma_numeral_run_end_bounds(t: Seq<char>, i: int)
    requires
        0 <= i <= t.len(),
    ensures
        i <= numeral_run_end(t, i) <= t.len(),
        numeral_run_end(t, i) < t.len() ==> !is_numeral_char(t[numeral_run_end(t, i)]),
    decreases t.len() - i,
{
    if i < t.len() && is_numeral_char(t[i]) {
        lemma_numeral_run_end_bounds(t, i + 1);
    }
}

fn is_numeral_char_exec(c: char) -> (b: bool)
    ensures
        b == is_numeral_char(c),
{
    ('0' as u32 <= c as u32 && c as u32 <= '9' as u32) || c == '-'
}

/// Removes a leading `"created_at":<numeral>` member from an attributes object.
pub fn strip_created_at_prefix(attrs_json: String) -> (r: String)
    requires
        strip_slice_ok(attrs_json@),
    ensures
        r@ == strip_created_at_prefix_spec(attrs_json@),
{
    let s = chars_of(attrs_json.as_str());
    let (a, b) = trim_bounds(&s);
    let t = slice_of(&s, a, b);
    let prefix = chars_of("{\"created_at\":");
    if !starts_with_chars(&t, &prefix) {
        return attrs_json;
    }
    let mut idx = prefix.len();
    while idx < t.len() && is_numeral_char_exec(t[idx])
        invariant
            prefix.len() <= idx <= t.len(),
            prefix@ == created_at_prefix(),
            numeral_run_end(t@, idx as int) == numeral_run_end(t@, prefix.len() as int),
        decreases t.len() - idx,
    {
        idx = idx + 1;
    }
    proof {
        lemma_numeral_run_end_bounds(t@, idx as int);
    }
    if idx >= t.len() {
        return attrs_json;
    }
    if t[idx] == '}' {
        return string_of(&chars_of("{}"));
    }
    if t[idx] == ',' {
        let mut out = chars_of("{");
        let rest = slice_of(&t, idx + 1, t.len() - 1);
        extend_chars(&mut out, &rest);
        extend_str(&mut out, "}");
        return string_of(&out);
    }
    attrs_json
}

/// Whether the attributes can have their `created_at` prefix stripped, that
/// is, whether they avoid the inputs on which the byte slicing would panic.
pub fn strip_is_safe(attrs_json: &str) -> (b: bool)
    ensures
        b == strip_slice_ok(attrs_json@),
{
    let s = chars_of(attrs_json);
    let (a, e) = trim_bounds(&s);
    let t = slice_of(&s, a, e);
    let prefix = chars_of("{\"created_at\":");
    if !starts_with_chars(&t, &prefix) {
        return true;
    }
    let mut idx = prefix.len();
    while idx < t.len() && is_numeral_char_exec(t[idx])
        invariant
            prefix.len() <= idx <= t.len(),
            prefix@ == created_at_prefix(),
            numeral_run_end(t@, idx as int) == numeral_run_end(t@, prefix.len() as int),
        decreases t.len() - idx,
    {
        idx = idx + 1;
    }
    proof {
        lemma_numeral_run_end_bounds(t@, idx as int);
    }
    if idx >= t.len() || t[idx] != ',' {
        return true;
    }
    idx + 1 < t.len() && (t[t.len() - 1] as u32) < 0x80
}

// ── created_at / source canonicalisation ─────────────────────────

/// A parsed `source` member counts when it is present and not blank.
pub open spec fn source_is_present(source: Option<Seq<char>>) -> bool {
    source matches Some(src) && trim(src).len() > 0
}

/// The attributes of a node that carries nothing but its creation time.
pub open spec fn unknown_source_attrs(created_at: i64) -> Seq<char> {
    "{\"created_at\":"@ + signed_decimal(created_at as int) + ",\"source\":\"peeps/unknown\"}"@
}

/// What `attrs_with_created_at` returns: the object's members prefixed by
/// `created_at` and, unless a non-blank `source` was parsed from it, by the
/// unknown source.
pub open spec fn attrs_with_created_at_spec(
    s: Seq<char>,
    created_at: i64,
    source: Option<Seq<char>>,
) -> Seq<char> {
    let t = trim(s);
    if t.len() == 0 || t == "{}"@ || !is_braced(t) {
        unknown_source_attrs(created_at)
    } else {
        let inner = t.subrange(1, t.len() - 1);
        if trim(inner).len() == 0 {
            unknown_source_attrs(created_at)
        } else if source_is_present(source) {
            "{\"created_at\":"@ + signed_decimal(created_at as int) + ","@ + inner + "}"@
        } else {
            "{\"created_at\":"@ + signed_decimal(created_at as int)
                + ",\"source\":\"peeps/unknown\","@ + inner + "}"@
        }
    }
}

/// Whether a parsed `source` member is present and not blank.
pub fn has_source(source: &Option<String>) -> (b: bool)
    ensures
        b == source_is_present(
            match source {
                Some(s) => Some(s@),
                None => None,
            },
        ),
{
    match source {
        Some(src) => {
            let v = chars_of(src.as_str());
            let (a, b) = trim_bounds(&v);
            a < b
        },
        None => false,
    }
}

fn unknown_source_attrs_exec(created_at: i64) -> (r: String)
    ensures
        r@ == unknown_source_attrs(created_at),
{
    let mut out = chars_of("{\"created_at\":");
    push_signed_decimal(&mut out, created_at);
    extend_str(&mut out, ",\"source\":\"peeps/unknown\"}");
    string_of(&out)
}

/// Prefixes an attributes object with its creation time and, when it names
/// no source, with the unknown source. `source` is the `source` member parsed
/// from `attrs_json` (the parse is done by the caller, as the JSON reader
/// deserialises into a derived type).
pub fn attrs_with_created_at(attrs_json: String, created_at: i64, source: Option<String>) -> (r:
    String)
    ensures
        r@ == attrs_with_created_at_spec(
            attrs_json@,
            created_at,
            match source {
                Some(s) => Some(s@),
                None => None,
            },
        ),
{
    let present = has_source(&source);
    let s = chars_of(attrs_json.as_str());
    let (a, b) = trim_bounds(&s);
    let t = slice_of(&s, a, b);
    let empty_obj = chars_of("{}");
    if t.len() == 0 || chars_eq(&t, &empty_obj) {
        return unknown_source_attrs_exec(created_at);
    }
    if !(t[0] == '{' && t[t.len() - 1] == '}') {
        return unknown_source_attrs_exec(created_at);
    }
    let inner = slice_of(&t, 1, t.len() - 1);
    let (ia, ib) = trim_bounds(&inner);
    if ia == ib {
        return unknown_source_attrs_exec(created_at);
    }
    let mut out = chars_of("{\"created_at\":");
    push_signed_decimal(&mut out, created_at);
    if present {
        extend_str(&mut out, ",");
    } else {
        extend_str(&mut out, ",\"source\":\"peeps/unknown\",");
    }
    extend_chars(&mut out, &inner);
    extend_str(&mut out, "}");
    string_of(&out)
}

proof fn lemma_decimal_is_numeral(n: nat)
    ensures
        decimal(n).len() > 0,
        forall|k: int| 0 <= k < decimal(n).len() ==> is_numeral_char(#[trigger] decimal(n)[k]),
    decreases n,
{
    assert(forall|d: nat| d < 10 ==> is_numeral_char(#[trigger] digit(d))) by {
        assert forall|d: nat| d < 10 implies is_numeral_char(#[trigger] digit(d)) by {
            assert(digit(0) == '0' && digit(1) == '1' && digit(2) == '2' && digit(3) == '3'
                && digit(4) == '4' && digit(5) == '5' && digit(6) == '6' && digit(7) == '7'
                && digit(8) == '8' && digit(9) == '9');
        }
    }
    if n >= 10 {
        lemma_decimal_is_numeral(n / 10);
    }
}

proof fn lemma_numeral_run_to(t: Seq<char>, i: int, j: int)
    requires
        0 <= i <= j < t.len(),
        forall|k: int| i <= k < j ==> is_numeral_char(#[trigger] t[k]),
        !is_numeral_char(t[j]),
    ensures
        numeral_run_end(t, i) == j,
    decreases j - i,
{
    if i < j {
        lemma_numeral_run_to(t, i + 1, j);
    }
}

proof fn lemma_trim_of_braced(s: Seq<char>)
    requires
        s.len() > 0,
        !is_ws(s[0]),
        !is_ws(s.last()),
    ensures
        trim(s) == s,
{
}

/// Law: stripping the `created_at` member takes back what adding it put in
/// front of an object that names its own source: the object comes back
/// unchanged, whatever the creation time.
pub proof fn lemma_strip_undoes_created_at(inner: Seq<char>, created_at: i64, source: Option<Seq<char>>)
    requires
        trim(inner).len() > 0,
        source_is_present(source),
    ensures
        strip_slice_ok(attrs_with_created_at_spec("{"@ + inner + "}"@, created_at, source)),
        strip_created_at_prefix_spec(attrs_with_created_at_spec("{"@ + inner + "}"@, created_at, source))
            == "{"@ + inner + "}"@,
{
    reveal_strlit("{");
    reveal_strlit("}");
    reveal_strlit(",");
    reveal_strlit("{}");
    reveal_strlit("{\"created_at\":");
    let s = "{"@ + inner + "}"@;
    assert(inner.len() > 0);
    assert(s[0] == '{' && s.last() == '}');
    lemma_trim_of_braced(s);
    assert(s.subrange(1, s.len() - 1) =~= inner);
    assert(s != "{}"@) by {
        assert(s.len() != 2);
    }
    let d = signed_decimal(created_at as int);
    let p = created_at_prefix();
    let a = attrs_with_created_at_spec(s, created_at, source);
    assert(a == p + d + ","@ + inner + "}"@);
    assert(p[0] == '{');
    assert(a[0] == p[0]);
    assert(a.last() == '}');
    lemma_trim_of_braced(a);
    assert(starts_with(a, p)) by {
        assert forall|k: int| 0 <= k < p.len() implies #[trigger] a[0 + k] == p[k] by {}
    }
    assert(forall|k: int| 0 <= k < d.len() ==> is_numeral_char(#[trigger] d[k])) by {
        if created_at < 0 {
            lemma_decimal_is_numeral((-(created_at as int)) as nat);
            assert forall|k: int| 0 <= k < d.len() implies is_numeral_char(#[trigger] d[k]) by {
                if k > 0 {
                    assert(d[k] == decimal((-(created_at as int)) as nat)[k - 1]);
                }
            }
        } else {
            lemma_decimal_is_numeral(created_at as nat);
        }
    }
    let j: int = (p.len() + d.len()) as int;
    assert forall|k: int| p.len() <= k < j implies is_numeral_char(#[trigger] a[k]) by {
        assert(a[k] == d[k - p.len()]);
    }
    assert(a[j] == ',');
    lemma_numeral_run_to(a, p.len() as int, j as int);
    assert(created_at_end(a) == j);
    assert(a.subrange(j + 1, a.len() - 1) =~= inner);
}

} // verus!
