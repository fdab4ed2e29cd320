//! The snapshot web API's answers: what a snapshot collected, how far one in
//! flight has got, and which processes are connected.
//!
//! The handlers read the database and the collector's state; these functions
//! turn what was read into the response.

use vstd::prelude::*;
use vstd::seq_lib::group_to_multiset_ensures;
use vstd::string::StringSliceAdditionalSpecFns;
use crate::model::opt_view;
use crate::sql_guard::{
    ascii_lowercase, is_multiple_statements, lowercase_chars, main_access_message,
    names_main_table, reject_main_schema_access, reject_multiple_statements, scoped_tables,
    ApiError, BAD_REQUEST,
};
use crate::text::{
    chars_eq, chars_lt, chars_of, decimal, extend_chars, extend_str, lemma_seq_lt_irreflexive,
    lemma_seq_lt_transitive, push_decimal_wide, push_signed_decimal, seq_lt, signed_decimal,
    push_decimal, slice_of, string_of, trim, trim_bounds,
};

verus! {

broadcast use vstd::string::group_string_axioms;

// ── POST /api/take-snapshot ──────────────────────────────────────

/// What a finished snapshot collected: how many processes were asked and how
/// each answered.
pub struct TakeSnapshotResponse {
    pub snapshot_id: i64,
    pub captured_at_ns: i64,
    pub requested: usize,
    pub responded: usize,
    pub timed_out: usize,
    pub error: usize,
}

/// The rows `(status, count)` as character sequences.
pub open spec fn status_rows(rows: Seq<(String, usize)>) -> Seq<(Seq<char>, usize)> {
    rows.map_values(|r: (String, usize)| (r.0@, r.1))
}

/// The sum of the counts of the rows whose status is `status`.
pub open spec fn status_total(rows: Seq<(Seq<char>, usize)>, status: Seq<char>) -> nat
    decreases rows.len(),
{
    if rows.len() == 0 {
        0
    } else {
        status_total(rows.drop_last(), status) + if rows.last().0 == status {
            rows.last().1 as nat
        } else {
            0nat
        }
    }
}

/// A prefix of the rows sums to no more than all of them.
proof fn lemma_status_total_prefix(rows: Seq<(Seq<char>, usize)>, status: Seq<char>, i: int)
    requires
        0 <= i <= rows.len(),
    ensures
        status_total(rows.subrange(0, i), status) <= status_total(rows, status),
    decreases rows.len(),
{
    if i < rows.len() {
        assert(rows.subrange(0, i) =~= rows.drop_last().subrange(0, i));
        lemma_status_total_prefix(rows.drop_last(), status, i);
    } else {
        assert(rows.subrange(0, i) =~= rows);
    }
}

/// Whether `s` holds the characters of `lit`.
fn str_is(s: &String, lit: &str) -> (r: bool)
    ensures
        r == (s@ == lit@),
{
    let a = chars_of(s.as_str());
    let b = chars_of(lit);
    chars_eq(&a, &b)
}

/// Tallies the per-status process counts of a snapshot: `responded`,
/// `timeout` and `error` rows add to their totals; other statuses are not
/// counted.
pub fn tally_snapshot(
    snapshot_id: i64,
    captured_at_ns: i64,
    requested: usize,
    status_counts: &Vec<(String, usize)>,
) -> (r: TakeSnapshotResponse)
    requires
        status_total(status_rows(status_counts@), "responded"@) <= usize::MAX,
        status_total(status_rows(status_counts@), "timeout"@) <= usize::MAX,
        status_total(status_rows(status_counts@), "error"@) <= usize::MAX,
    ensures
        r.snapshot_id == snapshot_id,
        r.captured_at_ns == captured_at_ns,
        r.requested == requested,
        r.responded == status_total(status_rows(status_counts@), "responded"@),
        r.timed_out == status_total(status_rows(status_counts@), "timeout"@),
        r.error == status_total(status_rows(status_counts@), "error"@),
{
    let ghost rows = status_rows(status_counts@);
    let mut responded: usize = 0;
    let mut timed_out: usize = 0;
    let mut error: usize = 0;
    let mut i: usize = 0;
    while i < status_counts.len()
        invariant
            i <= status_counts.len(),
            rows == status_rows(status_counts@),
            status_total(rows, "responded"@) <= usize::MAX,
            status_total(rows, "timeout"@) <= usize::MAX,
            status_total(rows, "error"@) <= usize::MAX,
            responded == status_total(rows.subrange(0, i as int), "responded"@),
            timed_out == status_total(rows.subrange(0, i as int), "timeout"@),
            error == status_total(rows.subrange(0, i as int), "error"@),
        decreases status_counts.len() - i,
    {
        let ghost next = rows.subrange(0, i + 1);
        assert(next.drop_last() =~= rows.subrange(0, i as int));
        assert(next.last() == (status_counts@[i as int].0@, status_counts@[i as int].1));
        proof {
            reveal_strlit("responded");
            reveal_strlit("timeout");
            reveal_strlit("error");
            assert("responded"@.len() != "timeout"@.len());
            assert("responded"@.len() != "error"@.len());
            assert("timeout"@.len() != "error"@.len());
            lemma_status_total_prefix(rows, "responded"@, i + 1);
            lemma_status_total_prefix(rows, "timeout"@, i + 1);
            lemma_status_total_prefix(rows, "error"@, i + 1);
        }
        let (status, count) = (&status_counts[i].0, status_counts[i].1);
        if str_is(status, "responded") {
            responded = responded + count;
        } else if str_is(status, "timeout") {
            timed_out = timed_out + count;
        } else if str_is(status, "error") {
            error = error + count;
        }
        i = i + 1;
    }
    assert(rows.subrange(0, i as int) =~= rows);
    TakeSnapshotResponse {
        snapshot_id,
        captured_at_ns,
        requested,
        responded,
        timed_out,
        error,
    }
}

// ── GET /api/snapshot-progress ───────────────────────────────────

/// How far the snapshot in flight has got.
pub struct SnapshotProgressResponse {
    pub active: bool,
    pub snapshot_id: Option<i64>,
    pub requested: usize,
    pub responded: usize,
    pub pending: usize,
    pub responded_processes: Vec<String>,
    pub pending_processes: Vec<String>,
}

/// A snapshot in flight: the processes asked, and those not yet answered.
pub struct InFlightSnapshot {
    pub snapshot_id: i64,
    pub requested: Vec<String>,
    pub pending: Vec<String>,
}

/// The strings of `v` as character sequences.
pub open spec fn strs(v: Seq<String>) -> Seq<Seq<char>> {
    v.map_values(|s: String| s@)
}

/// Whether `p` is not among `pending`.
pub open spec fn not_pending(pending: Seq<Seq<char>>) -> spec_fn(Seq<char>) -> bool {
    |p: Seq<char>| !pending.contains(p)
}

/// Whether `v` holds a string equal to `s`.
fn contains_string(v: &Vec<String>, s: &String) -> (r: bool)
    ensures
        r == strs(v@).contains(s@),
{
    let mut i: usize = 0;
    while i < v.len()
        invariant
            i <= v.len(),
            forall|k: int| 0 <= k < i ==> v@[k]@ != s@,
        decreases v.len() - i,
    {
        if v[i] == *s {
            assert(strs(v@)[i as int] == s@);
            return true;
        }
        i = i + 1;
    }
    assert forall|k: int| 0 <= k < strs(v@).len() implies strs(v@)[k] != s@ by {
        assert(strs(v@)[k] == v@[k]@);
    }
    false
}

/// A copy of the strings of `v`.
fn copy_strings(v: &Vec<String>) -> (r: Vec<String>)
    ensures
        strs(r@) == strs(v@),
{
    let mut r: Vec<String> = Vec::new();
    let mut i: usize = 0;
    while i < v.len()
        invariant
            i <= v.len(),
            strs(r@) == strs(v@).subrange(0, i as int),
        decreases v.len() - i,
    {
        let ghost before = r@;
        let c = v[i].clone();
        assert(c@ == v@[i as int]@);
        r.push(c);
        assert(strs(r@) =~= strs(before).push(v@[i as int]@));
        assert(strs(v@).subrange(0, i + 1) =~= strs(v@).subrange(0, i as int).push(v@[i as int]@));
        i = i + 1;
    }
    assert(strs(v@).subrange(0, i as int) =~= strs(v@));
    r
}

/// Law: the processes reported as answered are exactly those asked and not
/// pending.
pub proof fn lemma_progress_partition(requested: Seq<Seq<char>>, pending: Seq<Seq<char>>)
    ensures
        forall|p: Seq<char>|
            #[trigger] requested.filter(not_pending(pending)).contains(p) <==> (requested.contains(p)
                && !pending.contains(p)),
{
    assert forall|p: Seq<char>| #[trigger]
        requested.filter(not_pending(pending)).contains(p) <==> (requested.contains(p)
            && !pending.contains(p)) by {
        let f = requested.filter(not_pending(pending));
        if f.contains(p) {
            let k = choose|k: int| 0 <= k < f.len() && f[k] == p;
            requested.lemma_filter_pred(not_pending(pending), k);
            requested.lemma_filter_contains_rev(not_pending(pending), p);
        }
        if requested.contains(p) && !pending.contains(p) {
            let k = choose|k: int| 0 <= k < requested.len() && requested[k] == p;
            requested.lemma_filter_contains(not_pending(pending), k);
        }
    }
}

/// The progress of the snapshot in flight, if there is one: the processes
/// that answered are those asked and no longer pending, in the order asked.
pub fn snapshot_progress(in_flight: &Option<InFlightSnapshot>) -> (r: SnapshotProgressResponse)
    ensures
        match in_flight {
            Some(f) => {
                &&& r.active
                &&& r.snapshot_id == Some(f.snapshot_id)
                &&& r.requested == f.requested.len()
                &&& r.pending == f.pending.len()
                &&& strs(r.pending_processes@) == strs(f.pending@)
                &&& strs(r.responded_processes@) == strs(f.requested@).filter(
                    not_pending(strs(f.pending@)),
                )
                &&& r.responded == r.responded_processes.len()
            },
            None => {
                &&& !r.active
                &&& r.snapshot_id is None
                &&& r.requested == 0
                &&& r.responded == 0
                &&& r.pending == 0
                &&& r.responded_processes.len() == 0
                &&& r.pending_processes.len() == 0
            },
        },
{
    match in_flight {
        Some(f) => {
            let ghost req = strs(f.requested@);
            let ghost pend = strs(f.pending@);
            let mut responded: Vec<String> = Vec::new();
            let mut i: usize = 0;
            while i < f.requested.len()
                invariant
                    i <= f.requested.len(),
                    req == strs(f.requested@),
                    pend == strs(f.pending@),
                    strs(responded@) == req.subrange(0, i as int).filter(not_pending(pend)),
                decreases f.requested.len() - i,
            {
                proof {
                    reveal(Seq::filter);
                }
                let ghost sub = req.subrange(0, i + 1);
                assert(sub.drop_last() =~= req.subrange(0, i as int));
                assert(sub.last() == f.requested@[i as int]@);
                let ghost before = responded@;
                if !contains_string(&f.pending, &f.requested[i]) {
                    responded.push(f.requested[i].clone());
                    assert(strs(responded@) =~= strs(before).push(sub.last()));
                }
                i = i + 1;
            }
            assert(req.subrange(0, i as int) =~= req);
            let n = responded.len();
            SnapshotProgressResponse {
                active: true,
                snapshot_id: Some(f.snapshot_id),
                requested: f.requested.len(),
                responded: n,
                pending: f.pending.len(),
                responded_processes: responded,
                pending_processes: copy_strings(&f.pending),
            }
        },
        None => SnapshotProgressResponse {
            active: false,
            snapshot_id: None,
            requested: 0,
            responded: 0,
            pending: 0,
            responded_processes: Vec::new(),
            pending_processes: Vec::new(),
        },
    }
}

// ── GET /api/connections ─────────────────────────────────────────

/// A connected process: its key and its name.
pub struct ConnectedProcessInfo {
    pub proc_key: String,
    pub process_name: String,
}

/// The connected processes, and whether a snapshot can be taken now.
pub struct ConnectionsResponse {
    pub connected_processes: usize,
    pub can_take_snapshot: bool,
    pub processes: Vec<ConnectedProcessInfo>,
}

/// A process as (name, key): the order the listing is sorted in.
pub type NameKey = (Seq<char>, Seq<char>);

/// A listed process as (name, key).
pub open spec fn info_view(p: ConnectedProcessInfo) -> NameKey {
    (p.process_name@, p.proc_key@)
}

/// How a connection is listed: under its name, or under its key when it has
/// no name.
pub open spec fn shown(p: ConnectedProcessInfo) -> NameKey {
    (if p.process_name@.len() == 0 {
        p.proc_key@
    } else {
        p.process_name@
    }, p.proc_key@)
}

/// Order by name, then by key.
pub open spec fn name_key_lt(a: NameKey, b: NameKey) -> bool {
    seq_lt(a.0, b.0) || (a.0 == b.0 && seq_lt(a.1, b.1))
}

/// No element comes after a later one.
pub open spec fn sorted_name_key(s: Seq<NameKey>) -> bool {
    forall|i: int, j: int| 0 <= i < j < s.len() ==> !name_key_lt(#[trigger] s[j], #[trigger] s[i])
}

/// `s` without each element whose key equals the key of the last element
/// kept before it.
pub open spec fn dedup_keys(s: Seq<NameKey>) -> Seq<NameKey>
    decreases s.len(),
{
    if s.len() == 0 {
        s
    } else {
        let d = dedup_keys(s.drop_last());
        if d.len() > 0 && d.last().1 == s.last().1 {
            d
        } else {
            d.push(s.last())
        }
    }
}

proof fn lemma_name_key_irreflexive(a: NameKey)
    ensures
        !name_key_lt(a, a),
{
    lemma_seq_lt_irreflexive(a.0);
    lemma_seq_lt_irreflexive(a.1);
}

proof fn lemma_name_key_transitive(a: NameKey, b: NameKey, c: NameKey)
    requires
        name_key_lt(a, b),
        name_key_lt(b, c),
    ensures
        name_key_lt(a, c),
{
    if seq_lt(a.0, b.0) && seq_lt(b.0, c.0) {
        lemma_seq_lt_transitive(a.0, b.0, c.0);
    } else if a.0 == b.0 && b.0 == c.0 {
        lemma_seq_lt_transitive(a.1, b.1, c.1);
    }
}

/// Inserting `x` before the first element that comes after it keeps the
/// sequence sorted.
proof fn lemma_insert_sorted(s: Seq<NameKey>, p: int, x: NameKey)
    requires
        sorted_name_key(s),
        0 <= p <= s.len(),
        forall|q: int| 0 <= q < p ==> !name_key_lt(x, #[trigger] s[q]),
        p < s.len() ==> name_key_lt(x, s[p]),
    ensures
        sorted_name_key(s.insert(p, x)),
{
    let t = s.insert(p, x);
    assert forall|i: int, j: int| 0 <= i < j < t.len() implies !name_key_lt(
        #[trigger] t[j],
        #[trigger] t[i],
    ) by {
        if i < p && j < p {
            assert(t[i] == s[i] && t[j] == s[j]);
        } else if i < p && j == p {
            assert(t[i] == s[i] && t[j] == x);
        } else if i < p {
            assert(t[i] == s[i] && t[j] == s[j - 1]);
        } else if i == p {
            assert(t[i] == x && t[j] == s[j - 1]);
            if name_key_lt(s[j - 1], x) {
                lemma_name_key_transitive(s[j - 1], x, s[p]);
                if j - 1 == p {
                    lemma_name_key_irreflexive(s[p]);
                }
            }
        } else {
            assert(t[i] == s[i - 1] && t[j] == s[j - 1]);
        }
    }
}

/// Whether `a` comes before `b` by name, then key.
fn info_lt(a: &ConnectedProcessInfo, b: &ConnectedProcessInfo) -> (r: bool)
    ensures
        r == name_key_lt(info_view(*a), info_view(*b)),
{
    let an = chars_of(a.process_name.as_str());
    let bn = chars_of(b.process_name.as_str());
    if chars_lt(&an, &bn) {
        return true;
    }
    if !chars_eq(&an, &bn) {
        return false;
    }
    let ak = chars_of(a.proc_key.as_str());
    let bk = chars_of(b.proc_key.as_str());
    chars_lt(&ak, &bk)
}

/// The listings of `v` as (name, key) pairs.
pub open spec fn infos_view(v: Seq<ConnectedProcessInfo>) -> Seq<NameKey> {
    v.map_values(|p: ConnectedProcessInfo| info_view(p))
}

/// The connections as listed, sorted by name then key.
fn sorted_listing(conns: &Vec<ConnectedProcessInfo>) -> (r: Vec<ConnectedProcessInfo>)
    ensures
        sorted_name_key(infos_view(r@)),
        infos_view(r@).to_multiset() == conns@.map_values(|p: ConnectedProcessInfo| shown(
            p,
        )).to_multiset(),
{
    broadcast use group_to_multiset_ensures;

    let ghost all = conns@.map_values(|p: ConnectedProcessInfo| shown(p));
    let mut out: Vec<ConnectedProcessInfo> = Vec::new();
    let mut i: usize = 0;
    while i < conns.len()
        invariant
            i <= conns.len(),
            all == conns@.map_values(|p: ConnectedProcessInfo| shown(p)),
            sorted_name_key(infos_view(out@)),
            infos_view(out@).to_multiset() == all.subrange(0, i as int).to_multiset(),
        decreases conns.len() - i,
    {
        let c = &conns[i];
        let name = if c.process_name.as_str().is_empty() {
            c.proc_key.clone()
        } else {
            c.process_name.clone()
        };
        let x = ConnectedProcessInfo { proc_key: c.proc_key.clone(), process_name: name };
        assert(info_view(x) == all[i as int]);
        let mut p: usize = 0;
        while p < out.len() && !info_lt(&x, &out[p])
            invariant
                p <= out.len(),
                forall|q: int| 0 <= q < p ==> !name_key_lt(info_view(x), #[trigger] infos_view(out@)[q]),
            decreases out.len() - p,
        {
            p = p + 1;
        }
        let ghost before = infos_view(out@);
        proof {
            lemma_insert_sorted(before, p as int, info_view(x));
        }
        out.insert(p, x);
        assert(infos_view(out@) =~= before.insert(p as int, all[i as int]));
        assert(all.subrange(0, i + 1) =~= all.subrange(0, i as int).push(all[i as int]));
        proof {
            vstd::seq_lib::to_multiset_insert(before, p as int, all[i as int]);
            vstd::seq_lib::to_multiset_build(all.subrange(0, i as int), all[i as int]);
        }
        assert(all.subrange(0, i as int).push(all[i as int]).to_multiset() == all.subrange(
            0,
            i as int,
        ).to_multiset().insert(all[i as int]));
        i = i + 1;
    }
    assert(all.subrange(0, i as int) =~= all);
    out
}

/// The listing without each entry whose key repeats the key of the entry kept
/// before it.
fn dedup_listing(v: Vec<ConnectedProcessInfo>) -> (r: Vec<ConnectedProcessInfo>)
    ensures
        infos_view(r@) == dedup_keys(infos_view(v@)),
{
    let ghost all = infos_view(v@);
    let mut out: Vec<ConnectedProcessInfo> = Vec::new();
    let mut i: usize = 0;
    while i < v.len()
        invariant
            i <= v.len(),
            all == infos_view(v@),
            infos_view(out@) == dedup_keys(all.subrange(0, i as int)),
        decreases v.len() - i,
    {
        let ghost sub = all.subrange(0, i + 1);
        assert(sub.drop_last() =~= all.subrange(0, i as int));
        assert(sub.last() == info_view(v@[i as int]));
        let ghost before = out@;
        let dup = if out.len() > 0 {
            let last = out.len() - 1;
            assert(infos_view(out@).last() == info_view(out@[last as int]));
            out[last].proc_key == v[i].proc_key
        } else {
            false
        };
        if !dup {
            let x = ConnectedProcessInfo {
                proc_key: v[i].proc_key.clone(),
                process_name: v[i].process_name.clone(),
            };
            out.push(x);
            assert(infos_view(out@) =~= infos_view(before).push(sub.last()));
        }
        i = i + 1;
    }
    assert(all.subrange(0, i as int) =~= all);
    out
}

/// Law: removing repeated keys from a sorted listing leaves it sorted, and no
/// entry of the result has the key of the entry before it.
pub proof fn lemma_dedup_sorted(s: Seq<NameKey>)
    requires
        sorted_name_key(s),
    ensures
        sorted_name_key(dedup_keys(s)),
        forall|k: int| 0 < k < dedup_keys(s).len() ==> (#[trigger] dedup_keys(s)[k]).1 != dedup_keys(s)[k - 1].1,
        forall|k: int| 0 <= k < dedup_keys(s).len() ==> s.contains(#[trigger] dedup_keys(s)[k]),
    decreases s.len(),
{
    if s.len() > 0 {
        let t = s.drop_last();
        assert(sorted_name_key(t)) by {
            assert forall|i: int, j: int| 0 <= i < j < t.len() implies !name_key_lt(
                #[trigger] t[j],
                #[trigger] t[i],
            ) by {
                assert(t[i] == s[i] && t[j] == s[j]);
            }
        }
        lemma_dedup_sorted(t);
        let d = dedup_keys(t);
        assert forall|k: int| 0 <= k < d.len() implies s.contains(#[trigger] d[k]) by {
            let w = choose|w: int| 0 <= w < t.len() && t[w] == d[k];
            assert(s[w] == t[w]);
        }
        if !(d.len() > 0 && d.last().1 == s.last().1) {
            let e = d.push(s.last());
            assert forall|i: int, j: int| 0 <= i < j < e.len() implies !name_key_lt(
                #[trigger] e[j],
                #[trigger] e[i],
            ) by {
                if j == e.len() - 1 {
                    assert(e[j] == s.last());
                    assert(e[i] == d[i]);
                    assert(s.contains(d[i]));
                    let w = choose|w: int| 0 <= w < s.len() && s[w] == d[i];
                    if w < s.len() - 1 {
                        assert(!name_key_lt(s[s.len() - 1], s[w]));
                    } else {
                        lemma_name_key_irreflexive(s[w]);
                    }
                } else {
                    assert(e[i] == d[i] && e[j] == d[j]);
                }
            }
            assert forall|k: int| 0 <= k < e.len() implies s.contains(#[trigger] e[k]) by {
                if k == e.len() - 1 {
                    assert(s[s.len() - 1] == e[k]);
                } else {
                    assert(e[k] == d[k]);
                }
            }
            assert forall|k: int| 0 < k < e.len() implies (#[trigger] e[k]).1 != e[k - 1].1 by {
                if k == e.len() - 1 {
                    assert(e[k - 1] == d.last());
                } else {
                    assert(e[k] == d[k] && e[k - 1] == d[k - 1]);
                }
            }
        }
    }
}

/// The connected processes: each listed under its name (its key when it has
/// none), sorted by name then key, without entries that repeat the key of the
/// entry before them. A snapshot can be taken when some process is connected
/// and none is in flight.
pub fn connections_response(conns: &Vec<ConnectedProcessInfo>, in_flight: bool) -> (r:
    ConnectionsResponse)
    ensures
        r.connected_processes == conns.len(),
        r.can_take_snapshot == (conns.len() > 0 && !in_flight),
        exists|s: Seq<NameKey>|
            {
                &&& sorted_name_key(s)
                &&& s.to_multiset() == conns@.map_values(|p: ConnectedProcessInfo| shown(p)).to_multiset()
                &&& infos_view(r.processes@) == dedup_keys(s)
            },
{
    let sorted = sorted_listing(conns);
    let ghost s = infos_view(sorted@);
    let processes = dedup_listing(sorted);
    ConnectionsResponse {
        connected_processes: conns.len(),
        can_take_snapshot: conns.len() > 0 && !in_flight,
        processes,
    }
}

// ── POST /api/process-debug ──────────────────────────────────────

/// HTTP 404.
pub const NOT_FOUND: u16 = 404;

/// HTTP 500.
pub const INTERNAL_SERVER_ERROR: u16 = 500;

/// The longest command output kept, in bytes.
pub const DEBUG_OUTPUT_LIMIT: usize = 65536;

/// A request to prepare or run a debugging command against a snapshot process.
pub struct ProcessDebugRequest {
    pub snapshot_id: i64,
    pub proc_key: String,
    pub action: String,
    pub run: bool,
}

/// What was prepared or run for a process debug request.
pub struct ProcessDebugResponse {
    pub snapshot_id: i64,
    pub process: String,
    pub proc_key: String,
    pub pid: Option<i64>,
    pub action: String,
    pub command: String,
    pub status: String,
    pub status_message: Option<String>,
    pub command_output: Option<String>,
    pub command_exit_code: Option<i32>,
    pub result_url: Option<String>,
}

/// An error with an HTTP status and a message.
fn api_error(status: u16, message: &str) -> (e: ApiError)
    ensures
        e.status == status,
        e.message@ == message@,
{
    ApiError { status, message: message.to_owned() }
}

/// Normalises a process debug request: the action trimmed and lowercased,
/// the process key trimmed; either left empty is refused.
pub fn normalize_debug_request(req: &ProcessDebugRequest) -> (r: Result<(String, String), ApiError>)
    ensures
        trim(req.action@).len() == 0 ==> (r matches Err(e) && e.status == BAD_REQUEST
            && e.message@ == "missing action"@),
        trim(req.action@).len() > 0 && trim(req.proc_key@).len() == 0 ==> (r matches Err(e)
            && e.status == BAD_REQUEST && e.message@ == "missing proc_key"@),
        trim(req.action@).len() > 0 && trim(req.proc_key@).len() > 0 ==> (r matches Ok(v) && v.0@
            == ascii_lowercase(trim(req.action@)) && v.1@ == trim(req.proc_key@)),
{
    let a = chars_of(req.action.as_str());
    let (a0, a1) = trim_bounds(&a);
    let action = lowercase_chars(&slice_of(&a, a0, a1));
    if action.len() == 0 {
        return Err(api_error(BAD_REQUEST, "missing action"));
    }
    let k = chars_of(req.proc_key.as_str());
    let (k0, k1) = trim_bounds(&k);
    if k0 == k1 {
        return Err(api_error(BAD_REQUEST, "missing proc_key"));
    }
    let key = slice_of(&k, k0, k1);
    Ok((string_of(&action), string_of(&key)))
}

/// The command line shown for a debug action against `pid`.
pub open spec fn debug_command_text(action: Seq<char>, pid: int) -> Seq<char> {
    if action == "sample"@ {
        "sample "@ + signed_decimal(pid) + " 1"@
    } else if action == "spindump"@ {
        "sudo -n spindump "@ + signed_decimal(pid)
    } else {
        action
    }
}

/// The command line shown for a debug action against `pid`.
pub fn run_debug_command_text(action: &str, pid: i64) -> (r: String)
    ensures
        r@ == debug_command_text(action@, pid as int),
{
    let a = chars_of(action);
    if chars_eq(&a, &chars_of("sample")) {
        let mut out = chars_of("sample ");
        push_signed_decimal(&mut out, pid);
        extend_str(&mut out, " 1");
        string_of(&out)
    } else if chars_eq(&a, &chars_of("spindump")) {
        let mut out = chars_of("sudo -n spindump ");
        push_signed_decimal(&mut out, pid);
        string_of(&out)
    } else {
        action.to_owned()
    }
}

/// The program and arguments that carry out a debug action, when the action
/// is one that can be run.
pub open spec fn debug_invocation(action: Seq<char>, pid: int) -> Option<(Seq<char>, Seq<Seq<char>>)> {
    if action == "sample"@ {
        Some(("sample"@, seq![signed_decimal(pid), "1"@]))
    } else if action == "spindump"@ {
        Some(("sudo"@, seq!["-n"@, "spindump"@, signed_decimal(pid)]))
    } else {
        None
    }
}

/// A debug command to run, with what its response will carry.
pub struct DebugRun {
    pub binary: String,
    pub args: Vec<String>,
    pub snapshot_id: i64,
    pub process: String,
    pub proc_key: String,
    pub pid: i64,
    pub action: String,
    pub command: String,
}

/// The next step of a process debug request: answer now, or run a command.
pub enum DebugStep {
    Respond(ProcessDebugResponse),
    Run(DebugRun),
}

/// The decimal numeral of a signed number, as a string.
fn signed_string(n: i64) -> (r: String)
    ensures
        r@ == signed_decimal(n as int),
{
    let mut out: Vec<char> = Vec::new();
    push_signed_decimal(&mut out, n);
    assert(out@ =~= signed_decimal(n as int));
    string_of(&out)
}

/// `action` followed by the fixed text `tail`.
fn action_message(action: &str, tail: &str) -> (r: String)
    ensures
        r@ == action@ + tail@,
{
    let mut out = chars_of(action);
    extend_str(&mut out, tail);
    string_of(&out)
}

/// `r` answers at once, for the process found, with the given status fields
/// and no output.
pub open spec fn answers(
    r: ProcessDebugResponse,
    snapshot_id: i64,
    row: (Seq<char>, Option<i64>, Seq<char>),
    action: Seq<char>,
    command: Seq<char>,
    status: Seq<char>,
    message: Seq<char>,
) -> bool {
    &&& r.snapshot_id == snapshot_id
    &&& r.process@ == row.0
    &&& r.pid == row.1
    &&& r.proc_key@ == row.2
    &&& r.action@ == action
    &&& r.command@ == command
    &&& r.status@ == status
    &&& opt_view(r.status_message) == Some(message)
    &&& r.command_output is None
    &&& r.command_exit_code is None
    &&& r.result_url is None
}

/// Decides a process debug request once the process was looked up in the
/// snapshot (`row`: its name, pid and key). An unknown process is refused;
/// one without a pid is answered as such. Off macOS the command is only
/// shown; on macOS it is prepared, or, when `run` is asked, run if the
/// action is `sample` or `spindump` and refused otherwise.
pub fn process_debug_step(
    snapshot_id: i64,
    action: &str,
    row: Option<(String, Option<i64>, String)>,
    run: bool,
    on_macos: bool,
) -> (r: Result<DebugStep, ApiError>)
    ensures
        row is None ==> (r matches Err(e) && e.status == NOT_FOUND && e.message@
            == "process not found in snapshot"@),
        row matches Some(w) ==> {
            let rv = (w.0@, w.1, w.2@);
            match w.1 {
                None => r matches Ok(DebugStep::Respond(resp)) && answers(
                    resp,
                    snapshot_id,
                    rv,
                    action@,
                    "pid unavailable for this process"@,
                    "missing_pid"@,
                    "No pid available for this snapshot process"@,
                ),
                Some(pid) => {
                    let command = debug_command_text(action@, pid as int);
                    if !on_macos {
                        r matches Ok(DebugStep::Respond(resp)) && answers(
                            resp,
                            snapshot_id,
                            rv,
                            action@,
                            command,
                            "unsupported"@,
                            action@ + " is available on macOS only"@,
                        )
                    } else if !run {
                        r matches Ok(DebugStep::Respond(resp)) && answers(
                            resp,
                            snapshot_id,
                            rv,
                            action@,
                            command,
                            "prepared"@,
                            action@ + " command prepared, not executed"@,
                        )
                    } else {
                        match debug_invocation(action@, pid as int) {
                            None => r matches Err(e) && e.status == BAD_REQUEST && e.message@
                                == "unsupported action: "@ + action@,
                            Some(inv) => r matches Ok(DebugStep::Run(d)) && d.binary@ == inv.0
                                && d.args@.map_values(|a: String| a@) == inv.1 && d.snapshot_id
                                == snapshot_id && d.process@ == w.0@ && d.proc_key@ == w.2@
                                && d.pid == pid && d.action@ == action@ && d.command@ == command,
                        }
                    }
                },
            }
        },
{
    let (process, pid_opt, proc_key) = match row {
        Some(w) => w,
        None => {
            return Err(api_error(NOT_FOUND, "process not found in snapshot"));
        },
    };
    let pid = match pid_opt {
        Some(p) => p,
        None => {
            return Ok(
                DebugStep::Respond(
                    ProcessDebugResponse {
                        snapshot_id,
                        process,
                        proc_key,
                        pid: None,
                        action: action.to_owned(),
                        command: "pid unavailable for this process".to_owned(),
                        status: "missing_pid".to_owned(),
                        status_message: Some(
                            "No pid available for this snapshot process".to_owned(),
                        ),
                        command_output: None,
                        command_exit_code: None,
                        result_url: None,
                    },
                ),
            );
        },
    };
    let command = run_debug_command_text(action, pid);
    if !on_macos || !run {
        let (status, message) = if !on_macos {
            ("unsupported".to_owned(), action_message(action, " is available on macOS only"))
        } else {
            ("prepared".to_owned(), action_message(action, " command prepared, not executed"))
        };
        return Ok(
            DebugStep::Respond(
                ProcessDebugResponse {
                    snapshot_id,
                    process,
                    proc_key,
                    pid: Some(pid),
                    action: action.to_owned(),
                    command,
                    status,
                    status_message: Some(message),
                    command_output: None,
                    command_exit_code: None,
                    result_url: None,
                },
            ),
        );
    }
    let a = chars_of(action);
    let (binary, args) = if chars_eq(&a, &chars_of("sample")) {
        let mut args: Vec<String> = Vec::new();
        args.push(signed_string(pid));
        args.push("1".to_owned());
        assert(args@.map_values(|x: String| x@) =~= seq![signed_decimal(pid as int), "1"@]);
        ("sample".to_owned(), args)
    } else if chars_eq(&a, &chars_of("spindump")) {
        let mut args: Vec<String> = Vec::new();
        args.push("-n".to_owned());
        args.push("spindump".to_owned());
        args.push(signed_string(pid));
        assert(args@.map_values(|x: String| x@) =~= seq![
            "-n"@,
            "spindump"@,
            signed_decimal(pid as int),
        ]);
        ("sudo".to_owned(), args)
    } else {
        let mut m = chars_of("unsupported action: ");
        extend_str(&mut m, action);
        return Err(ApiError { status: BAD_REQUEST, message: string_of(&m) });
    };
    Ok(
        DebugStep::Run(
            DebugRun {
                binary,
                args,
                snapshot_id,
                process,
                proc_key,
                pid,
                action: action.to_owned(),
                command,
            },
        ),
    )
}

/// The response to a debug command that was run: `outcome` is its combined
/// output and exit code, or why it could not be started. A zero exit code is
/// `executed`, any other `execution_failed`; a command that did not start is
/// an `execution_error` carrying the reason.
pub fn finish_process_debug(d: DebugRun, outcome: Result<(String, i32), String>) -> (r:
    ProcessDebugResponse)
    ensures
        r.snapshot_id == d.snapshot_id,
        r.process@ == d.process@,
        r.proc_key@ == d.proc_key@,
        r.pid == Some(d.pid),
        r.action@ == d.action@,
        r.command@ == d.command@,
        r.result_url is None,
        match outcome {
            Ok((out, code)) => {
                &&& r.status@ == if code == 0 {
                    "executed"@
                } else {
                    "execution_failed"@
                }
                &&& r.status_message is None
                &&& opt_view(r.command_output) == Some(out@)
                &&& r.command_exit_code == Some(code)
            },
            Err(err) => {
                &&& r.status@ == "execution_error"@
                &&& opt_view(r.status_message) == Some(err@)
                &&& r.command_output is None
                &&& r.command_exit_code is None
            },
        },
{
    let (status, status_message, output, exit_code) = match outcome {
        Ok((out, code)) => {
            let status = if code == 0 {
                "executed".to_owned()
            } else {
                "execution_failed".to_owned()
            };
            (status, None, Some(out), Some(code))
        },
        Err(err) => ("execution_error".to_owned(), Some(err), None, None),
    };
    ProcessDebugResponse {
        snapshot_id: d.snapshot_id,
        process: d.process,
        proc_key: d.proc_key,
        pid: Some(d.pid),
        action: d.action,
        command: d.command,
        status,
        status_message,
        command_output: output,
        command_exit_code: exit_code,
        result_url: None,
    }
}

/// The combined output of a command: its standard output, then its standard
/// error, separated by a line feed when both are present.
pub open spec fn combined_output(stdout: Seq<char>, stderr: Seq<char>) -> Seq<char> {
    if stderr.len() == 0 {
        stdout
    } else if stdout.len() == 0 {
        stderr
    } else {
        stdout + seq!['\n'] + stderr
    }
}

/// Combines a command's output streams: standard output, then standard
/// error, separated by a line feed when both are present.
pub fn combine_command_output(stdout: &str, stderr: &str) -> (r: String)
    ensures
        r@ == combined_output(stdout@, stderr@),
{
    let mut out = chars_of(stdout);
    if !stderr.is_empty() {
        if out.len() > 0 {
            out.push('\n');
        }
        extend_str(&mut out, stderr);
    }
    assert(out@ =~= combined_output(stdout@, stderr@));
    string_of(&out)
}

/// Keeps at most the first `DEBUG_OUTPUT_LIMIT` bytes of a command's output.
/// The cut must fall on a character boundary; other output is not accepted.
pub fn truncate_command_output(output: String) -> (r: String)
    requires
        vstd::utf8::encode_utf8(output@).len() <= usize::MAX,
        vstd::utf8::encode_utf8(output@).len() > DEBUG_OUTPUT_LIMIT ==> vstd::utf8::is_char_boundary(
            vstd::utf8::encode_utf8(output@),
            DEBUG_OUTPUT_LIMIT as int,
        ),
    ensures
        vstd::utf8::encode_utf8(output@).len() <= DEBUG_OUTPUT_LIMIT ==> r@ == output@,
        vstd::utf8::encode_utf8(output@).len() > DEBUG_OUTPUT_LIMIT ==> vstd::utf8::encode_utf8(r@)
            == vstd::utf8::encode_utf8(output@).subrange(0, DEBUG_OUTPUT_LIMIT as int),
{
    let text = output.as_str();
    assert(vstd::utf8::encode_utf8(text@) == text.spec_bytes());
    if text.len() <= DEBUG_OUTPUT_LIMIT {
        return output;
    }
    let (head, _) = text.split_at(DEBUG_OUTPUT_LIMIT);
    assert(vstd::utf8::encode_utf8(head@) == head.spec_bytes());
    head.to_owned()
}

/// The identifier under which a debug command's output is kept.
pub open spec fn debug_result_id_text(millis: nat, sequence: nat) -> Seq<char> {
    "process-debug-result-"@ + decimal(millis) + "-"@ + decimal(sequence)
}

/// The identifier for a kept output, from the wall-clock milliseconds and a
/// per-process sequence number.
pub fn debug_result_id(millis: u128, sequence: u64) -> (r: String)
    ensures
        r@ == debug_result_id_text(millis as nat, sequence as nat),
{
    let mut out = chars_of("process-debug-result-");
    push_decimal_wide(&mut out, millis);
    extend_str(&mut out, "-");
    let mut seq_part: Vec<char> = Vec::new();
    crate::text::push_decimal(&mut seq_part, sequence);
    extend_chars(&mut out, &seq_part);
    assert(out@ =~= debug_result_id_text(millis as nat, sequence as nat));
    string_of(&out)
}

/// Where a kept output can be fetched.
pub fn debug_result_url(result_id: &str) -> (r: String)
    ensures
        r@ == "/api/process-debug-result/"@ + result_id@,
{
    let mut out = chars_of("/api/process-debug-result/");
    extend_str(&mut out, result_id);
    string_of(&out)
}

// ── GET /api/snapshot/{id}/processes ─────────────────────────────

/// One process of a snapshot, as the snapshot recorded it, with the command
/// it ran when a command node named one.
pub struct SnapshotProcessInfo {
    pub process: String,
    pub pid: Option<i64>,
    pub proc_key: String,
    pub status: String,
    pub recv_at_ns: Option<i64>,
    pub error_text: Option<String>,
    pub command: Option<String>,
    pub cmd_args_preview: Option<String>,
}

/// The processes of a snapshot.
pub struct SnapshotProcessesResponse {
    pub snapshot_id: i64,
    pub processes: Vec<SnapshotProcessInfo>,
}

// ── GET /api/process-debug-result/{id} ───────────────────────────

/// The answer for a kept debug output: the output when it was found, else
/// not found.
pub fn debug_result_response(found: Option<String>) -> (r: Result<String, ApiError>)
    ensures
        match found {
            Some(out) => r matches Ok(t) && t@ == out@,
            None => r matches Err(e) && e.status == NOT_FOUND && e.message@
                == "process debug result not found"@,
        },
{
    match found {
        Some(out) => Ok(out),
        None => Err(api_error(NOT_FOUND, "process debug result not found")),
    }
}

// ── POST /api/sql ────────────────────────────────────────────────

/// The most rows a query answer holds.
pub const MAX_ROWS: usize = 5000;

/// The most bytes of JSON rows a query answer holds (4 MiB).
pub const MAX_RESPONSE_BYTES: usize = 4194304;

/// Whether a query passes the checks made before it is prepared: it is not
/// blank, holds one statement, and names no scoped main-schema table.
pub open spec fn query_accepted(t: Seq<char>) -> bool {
    &&& t.len() > 0
    &&& !is_multiple_statements(vstd::utf8::encode_utf8(t))
    &&& forall|k: int|
        0 <= k < scoped_tables().len() ==> !names_main_table(
            ascii_lowercase(t),
            #[trigger] scoped_tables()[k],
        )
}

/// Checks a query before it is prepared and returns it trimmed. A blank
/// query, several statements, and direct access to a scoped main-schema
/// table are refused, in that order.
pub fn check_sql_request(sql: &str) -> (r: Result<String, ApiError>)
    ensures
        r is Ok <==> query_accepted(trim(sql@)),
        r matches Ok(q) ==> q@ == trim(sql@),
        trim(sql@).len() == 0 ==> (r matches Err(e) && e.status == BAD_REQUEST && e.message@
            == "empty SQL"@),
        trim(sql@).len() > 0 && is_multiple_statements(vstd::utf8::encode_utf8(trim(sql@))) ==> (
        r matches Err(e) && e.status == BAD_REQUEST && e.message@
            == "multiple statements not allowed"@),
        trim(sql@).len() > 0 && !is_multiple_statements(vstd::utf8::encode_utf8(trim(sql@))) ==> (
        r matches Err(e) ==> e.status == BAD_REQUEST && exists|k: int|
            0 <= k < scoped_tables().len() && names_main_table(
                ascii_lowercase(trim(sql@)),
                #[trigger] scoped_tables()[k],
            ) && (forall|j: int|
                0 <= j < k ==> !names_main_table(ascii_lowercase(trim(sql@)), scoped_tables()[j]))
                && e.message@ == main_access_message(scoped_tables()[k])),
{
    let cs = chars_of(sql);
    let (a, b) = trim_bounds(&cs);
    if a == b {
        return Err(api_error(BAD_REQUEST, "empty SQL"));
    }
    let trimmed = string_of(&slice_of(&cs, a, b));
    let t = trimmed.as_str();
    assert(vstd::utf8::encode_utf8(t@) == t.spec_bytes());
    match reject_multiple_statements(t) {
        Ok(()) => {},
        Err(e) => {
            return Err(e);
        },
    }
    match reject_main_schema_access(t) {
        Ok(()) => {},
        Err(e) => {
            return Err(e);
        },
    }
    Ok(trimmed)
}

/// How much of a query answer has been kept so far.
pub struct RowBudget {
    /// Rows kept.
    pub rows: usize,
    /// Bytes of JSON counted, the row that overran the limit included.
    pub total_bytes: usize,
    /// Whether rows were left out.
    pub truncated: bool,
}

/// Whether to keep a row of the answer.
pub enum RowDecision {
    Keep,
    Stop,
}

impl RowBudget {
    /// Nothing kept yet.
    pub fn new() -> (b: RowBudget)
        ensures
            b.rows == 0,
            b.total_bytes == 0,
            !b.truncated,
    {
        RowBudget { rows: 0, total_bytes: 0, truncated: false }
    }
}

/// Decides on the next row, whose JSON encoding is `row_json_len` bytes long:
/// a row past `MAX_ROWS`, or one that brings the answer past
/// `MAX_RESPONSE_BYTES`, stops the answer and marks it truncated.
pub fn admit_row(budget: &mut RowBudget, row_json_len: usize) -> (d: RowDecision)
    requires
        old(budget).total_bytes + row_json_len <= usize::MAX,
    ensures
        old(budget).rows >= MAX_ROWS ==> d is Stop && final(budget).truncated
            && final(budget).rows == old(budget).rows && final(budget).total_bytes == old(
            budget,
        ).total_bytes,
        old(budget).rows < MAX_ROWS ==> final(budget).total_bytes == old(budget).total_bytes
            + row_json_len,
        old(budget).rows < MAX_ROWS && old(budget).total_bytes + row_json_len
            > MAX_RESPONSE_BYTES ==> d is Stop && final(budget).truncated && final(budget).rows
            == old(budget).rows,
        old(budget).rows < MAX_ROWS && old(budget).total_bytes + row_json_len
            <= MAX_RESPONSE_BYTES ==> d is Keep && final(budget).rows == old(budget).rows + 1
            && final(budget).truncated == old(budget).truncated,
{
    if budget.rows >= MAX_ROWS {
        budget.truncated = true;
        return RowDecision::Stop;
    }
    budget.total_bytes = budget.total_bytes + row_json_len;
    if budget.total_bytes > MAX_RESPONSE_BYTES {
        budget.truncated = true;
        return RowDecision::Stop;
    }
    budget.rows = budget.rows + 1;
    RowDecision::Keep
}

/// Decides on an error met while reading rows: an interrupted query (the time
/// limit ran out) ends the answer as truncated; any other error fails it.
pub fn admit_query_error(budget: &mut RowBudget, interrupted: bool, message: &str) -> (r: Result<
    (),
    ApiError,
>)
    ensures
        interrupted ==> r is Ok && final(budget).truncated,
        !interrupted ==> (r matches Err(e) && e.status == INTERNAL_SERVER_ERROR && e.message@
            == "query error: "@ + message@),
        final(budget).rows == old(budget).rows,
        final(budget).total_bytes == old(budget).total_bytes,
{
    if interrupted {
        budget.truncated = true;
        Ok(())
    } else {
        let mut m = chars_of("query error: ");
        extend_str(&mut m, message);
        Err(ApiError { status: INTERNAL_SERVER_ERROR, message: string_of(&m) })
    }
}

/// A query parameter as JSON gives it. A number carries what it converts to:
/// a 64-bit integer when it is one, else the IEEE-754 bits of its double.
pub enum JsonParam {
    Null,
    Bool(bool),
    Number { as_i64: Option<i64>, as_f64_bits: Option<u64> },
    Text(String),
    /// An object or an array.
    Composite,
}

/// A value bound to a query parameter; a real is held by its IEEE-754 bits.
pub enum SqlParam {
    Null,
    Integer(i64),
    Real(u64),
    Text(String),
}

/// Whether `p` can be bound.
pub open spec fn bindable(p: JsonParam) -> bool {
    match p {
        JsonParam::Number { as_i64: None, as_f64_bits: None } => false,
        JsonParam::Composite => false,
        _ => true,
    }
}

/// `v` is what `p` binds as: null as null, a boolean as 1 or 0, an integer
/// number as an integer, another number as a real, a string as text.
pub open spec fn binds_as(p: JsonParam, v: SqlParam) -> bool {
    match (p, v) {
        (JsonParam::Null, SqlParam::Null) => true,
        (JsonParam::Bool(b), SqlParam::Integer(i)) => i == if b {
            1i64
        } else {
            0i64
        },
        (JsonParam::Number { as_i64: Some(n), .. }, SqlParam::Integer(i)) => i == n,
        (JsonParam::Number { as_i64: None, as_f64_bits: Some(f) }, SqlParam::Real(x)) => x == f,
        (JsonParam::Text(s), SqlParam::Text(t)) => t@ == s@,
        _ => false,
    }
}

/// The message for the parameter at 1-based position `n` that cannot be
/// bound.
pub open spec fn param_error_message(n: nat, p: JsonParam) -> Seq<char> {
    if p is Composite {
        "param "@ + decimal(n) + ": unsupported type (object/array)"@
    } else {
        "param "@ + decimal(n) + ": unsupported number"@
    }
}

/// Converts the JSON parameters to bound values; the first one that cannot
/// be bound is refused.
pub fn convert_params(params: &Vec<JsonParam>) -> (r: Result<Vec<SqlParam>, ApiError>)
    requires
        params.len() < u64::MAX,
    ensures
        r is Ok <==> forall|k: int| 0 <= k < params.len() ==> bindable(#[trigger] params[k]),
        r matches Ok(v) ==> v.len() == params.len() && forall|k: int|
            0 <= k < params.len() ==> binds_as(#[trigger] params[k], v[k]),
        r matches Err(e) ==> e.status == BAD_REQUEST && exists|k: int|
            0 <= k < params.len() && !bindable(#[trigger] params[k]) && (forall|j: int|
                0 <= j < k ==> bindable(params[j])) && e.message@ == param_error_message(
                (k + 1) as nat,
                params[k],
            ),
{
    let mut out: Vec<SqlParam> = Vec::new();
    let mut i: usize = 0;
    while i < params.len()
        invariant
            i <= params.len() < u64::MAX,
            out.len() == i,
            forall|k: int| 0 <= k < i ==> bindable(#[trigger] params[k]),
            forall|k: int| 0 <= k < i ==> binds_as(#[trigger] params[k], out[k]),
        decreases params.len() - i,
    {
        let v = match &params[i] {
            JsonParam::Null => SqlParam::Null,
            JsonParam::Bool(b) => SqlParam::Integer(
                if *b {
                    1
                } else {
                    0
                },
            ),
            JsonParam::Number { as_i64, as_f64_bits } => {
                match (as_i64, as_f64_bits) {
                    (Some(n), _) => SqlParam::Integer(*n),
                    (None, Some(f)) => SqlParam::Real(*f),
                    (None, None) => {
                        let mut m = chars_of("param ");
                        push_decimal(&mut m, (i + 1) as u64);
                        extend_str(&mut m, ": unsupported number");
                        return Err(ApiError { status: BAD_REQUEST, message: string_of(&m) });
                    },
                }
            },
            JsonParam::Text(s) => SqlParam::Text(s.clone()),
            JsonParam::Composite => {
                let mut m = chars_of("param ");
                push_decimal(&mut m, (i + 1) as u64);
                extend_str(&mut m, ": unsupported type (object/array)");
                return Err(ApiError { status: BAD_REQUEST, message: string_of(&m) });
            },
        };
        out.push(v);
        i = i + 1;
    }
    Ok(out)
}

/// The columns each scoped view exposes, in the order of `scoped_tables`.
pub open spec fn scoped_columns() -> Seq<Seq<char>> {
    seq![
        "id, kind, process, proc_key, attrs_json"@,
        "src_id, dst_id, kind, attrs_json"@,
        "process, pid, proc_key, status, recv_at_ns, error_text"@,
    ]
}

/// The statement that shadows `table` with a view of one snapshot's rows.
pub open spec fn view_statement(table: Seq<char>, cols: Seq<char>, snapshot_id: int) -> Seq<char> {
    "CREATE TEMP VIEW ["@ + table + "] AS SELECT "@ + cols + " FROM main.["@ + table
        + "] WHERE snapshot_id = "@ + signed_decimal(snapshot_id)
}

fn view_statement_for(table: &str, cols: &str, snapshot_id: i64) -> (r: String)
    ensures
        r@ == view_statement(table@, cols@, snapshot_id as int),
{
    let mut m = chars_of("CREATE TEMP VIEW [");
    extend_str(&mut m, table);
    extend_str(&mut m, "] AS SELECT ");
    extend_str(&mut m, cols);
    extend_str(&mut m, " FROM main.[");
    extend_str(&mut m, table);
    extend_str(&mut m, "] WHERE snapshot_id = ");
    push_signed_decimal(&mut m, snapshot_id);
    assert(m@ =~= view_statement(table@, cols@, snapshot_id as int));
    string_of(&m)
}

/// The statements that create one snapshot's scoped views, one per scoped
/// table.
pub fn scoped_view_statements(snapshot_id: i64) -> (r: Vec<String>)
    ensures
        r.len() == scoped_tables().len(),
        forall|k: int|
            0 <= k < r.len() ==> (#[trigger] r[k])@ == view_statement(
                scoped_tables()[k],
                scoped_columns()[k],
                snapshot_id as int,
            ),
{
    let mut r: Vec<String> = Vec::new();
    r.push(view_statement_for("nodes", "id, kind, process, proc_key, attrs_json", snapshot_id));
    r.push(view_statement_for("edges", "src_id, dst_id, kind, attrs_json", snapshot_id));
    r.push(
        view_statement_for(
            "snapshot_processes",
            "process, pid, proc_key, status, recv_at_ns, error_text",
            snapshot_id,
        ),
    );
    r
}

/// What a statement asks of the database, as the authorizer sees it.
pub enum SqlAccess {
    Read,
    Select,
    Function,
    Recursive,
    Other,
}

/// The authorizer's rule: reads are allowed except of the schema tables,
/// and so are selects, function calls and recursive queries; everything else
/// is denied.
pub fn authorize(access: SqlAccess, table_name: &str) -> (allow: bool)
    ensures
        allow == match access {
            SqlAccess::Read => table_name@ != "sqlite_master"@ && table_name@
                != "sqlite_temp_master"@,
            SqlAccess::Other => false,
            _ => true,
        },
{
    match access {
        SqlAccess::Read => {
            let t = chars_of(table_name);
            !chars_eq(&t, &chars_of("sqlite_master")) && !chars_eq(&t, &chars_of("sqlite_temp_master"))
        },
        SqlAccess::Other => false,
        _ => true,
    }
}

} // verus!
