//! Thread stack sampling: the registry of threads that can be sampled, the
//! choice of a backtrace's top frame, and the summary of a run of samples.
//!
//! Signalling threads and capturing their backtraces is done by the caller;
//! this module decides what the captured text means.

use vstd::prelude::*;
use crate::model::opt_view;
use crate::text::{
    chars_of, contains_chars, contains_seq, matches_at, matches_at_exec, slice_of, starts_with,
    starts_with_chars, string_of, trim, trim_bounds, chars_eq,
};

verus! {

broadcast use vstd::string::group_string_axioms;

/// The most threads sampled in one collection.
pub const MAX_THREADS: usize = 256;

/// Samples taken per collection.
pub const NUM_SAMPLES: u32 = 10;

/// A single thread's stack trace, with sampling data for stuck detection.
pub struct ThreadStackSnapshot {
    /// Thread name.
    pub name: String,
    /// Most recent captured backtrace; `None` if the thread never responded.
    pub backtrace: Option<String>,
    /// Number of samples taken.
    pub samples: u32,
    /// Number of samples where the thread responded with a backtrace.
    pub responded: u32,
    /// Number of samples whose top frame was the same as the previous one.
    pub same_location_count: u32,
    /// The top frame that appeared most often across samples.
    pub dominant_frame: Option<String>,
}

// ── The thread registry ──────────────────────────────────────────

/// A registered thread: its pthread id and its name.
pub struct ThreadEntry {
    pub pthread_id: u64,
    pub name: String,
}

/// The threads that can be sampled, in registration order.
pub struct ThreadRegistry {
    pub entries: Vec<ThreadEntry>,
}

/// Proof that a thread registered itself; handing it back deregisters it.
pub struct ThreadGuard {
    pub pthread_id: u64,
}

/// The registry as (pthread id, name) pairs.
pub open spec fn entries_view(entries: Seq<ThreadEntry>) -> Seq<(u64, Seq<char>)> {
    entries.map_values(|e: ThreadEntry| (e.pthread_id, e.name@))
}

/// Whether a registered pair belongs to another thread than `id`.
pub open spec fn other_thread(id: u64) -> spec_fn((u64, Seq<char>)) -> bool {
    |e: (u64, Seq<char>)| e.0 != id
}

impl ThreadRegistry {
    /// An empty registry.
    pub fn new() -> (r: ThreadRegistry)
        ensures
            r.entries@.len() == 0,
    {
        ThreadRegistry { entries: Vec::new() }
    }
}

/// Registers the thread `pthread_id` under `name`, after those already there.
pub fn register_thread(reg: &mut ThreadRegistry, pthread_id: u64, name: &str)
    ensures
        entries_view(final(reg).entries@) == entries_view(old(reg).entries@).push(
            (pthread_id, name@),
        ),
{
    let entry = ThreadEntry { pthread_id, name: name.to_owned() };
    reg.entries.push(entry);
    assert(entries_view(reg.entries@) =~= entries_view(old(reg).entries@).push(
        (pthread_id, name@),
    ));
}

/// Removes every entry of the thread `self_id`, keeping the others in order.
pub fn deregister_thread(reg: &mut ThreadRegistry, self_id: u64)
    ensures
        entries_view(final(reg).entries@) == entries_view(old(reg).entries@).filter(
            other_thread(self_id),
        ),
{
    let ghost before = entries_view(reg.entries@);
    let mut kept: Vec<ThreadEntry> = Vec::new();
    let mut old_entries: Vec<ThreadEntry> = Vec::new();
    std::mem::swap(&mut old_entries, &mut reg.entries);
    let mut i: usize = 0;
    while i < old_entries.len()
        invariant
            i <= old_entries.len(),
            before == entries_view(old_entries@),
            entries_view(kept@) == entries_view(old_entries@).subrange(0, i as int).filter(
                other_thread(self_id),
            ),
        decreases old_entries.len() - i,
    {
        proof {
            reveal(Seq::filter);
        }
        let ghost ev = entries_view(old_entries@);
        let ghost sub = ev.subrange(0, i + 1);
        assert(sub.drop_last() =~= ev.subrange(0, i as int));
        let e = &old_entries[i];
        assert(sub.last() == (e.pthread_id, e.name@));
        let ghost before_kept = kept@;
        if e.pthread_id != self_id {
            kept.push(ThreadEntry { pthread_id: e.pthread_id, name: e.name.clone() });
            assert(entries_view(kept@) =~= entries_view(before_kept).push(sub.last()));
            assert(sub.filter(other_thread(self_id)) == sub.drop_last().filter(
                other_thread(self_id),
            ).push(sub.last()));
        } else {
            assert(sub.filter(other_thread(self_id)) == sub.drop_last().filter(
                other_thread(self_id),
            ));
        }
        i = i + 1;
    }
    assert(entries_view(old_entries@).subrange(0, i as int) =~= before);
    reg.entries = kept;
}

/// Registers the thread and returns the guard that stands for the
/// registration.
pub fn register_thread_guard(reg: &mut ThreadRegistry, pthread_id: u64, name: &str) -> (g:
    ThreadGuard)
    ensures
        g.pthread_id == pthread_id,
        entries_view(final(reg).entries@) == entries_view(old(reg).entries@).push(
            (pthread_id, name@),
        ),
{
    register_thread(reg, pthread_id, name);
    ThreadGuard { pthread_id }
}

/// Ends the registration that `guard` stands for.
pub fn release_thread_guard(reg: &mut ThreadRegistry, guard: ThreadGuard)
    ensures
        entries_view(final(reg).entries@) == entries_view(old(reg).entries@).filter(
            other_thread(guard.pthread_id),
        ),
{
    deregister_thread(reg, guard.pthread_id);
}

/// How many threads one collection samples: all registered ones, at most
/// `MAX_THREADS`.
pub open spec fn sampled_count(n: nat) -> nat {
    if n < MAX_THREADS {
        n
    } else {
        MAX_THREADS as nat
    }
}

/// The ids and names of the threads that one collection samples: the first
/// `sampled_count` entries.
pub fn sampled_threads(reg: &ThreadRegistry) -> (r: (Vec<u64>, Vec<String>))
    ensures
        r.0.len() == r.1.len() == sampled_count(reg.entries@.len()),
        forall|k: int|
            0 <= k < r.0.len() ==> (#[trigger] r.0[k], r.1[k]@) == entries_view(reg.entries@)[k],
{
    let n = if reg.entries.len() < MAX_THREADS {
        reg.entries.len()
    } else {
        MAX_THREADS
    };
    let mut ids: Vec<u64> = Vec::new();
    let mut names: Vec<String> = Vec::new();
    let mut i: usize = 0;
    while i < n
        invariant
            i <= n <= reg.entries.len(),
            n == sampled_count(reg.entries@.len()),
            ids.len() == names.len() == i,
            forall|k: int|
                0 <= k < i ==> (#[trigger] ids[k], names[k]@) == entries_view(reg.entries@)[k],
        decreases n - i,
    {
        ids.push(reg.entries[i].pthread_id);
        names.push(reg.entries[i].name.clone());
        i = i + 1;
    }
    (ids, names)
}

// ── One sweep ────────────────────────────────────────────────────

/// What one sweep does before it waits: which slot is the collecting
/// thread's own (it is not signalled and answers nothing), which threads
/// are signalled, and how many answers it waits for.
pub struct SweepPlan {
    pub self_slot: Option<usize>,
    pub targets: Vec<u64>,
    pub expected: usize,
}

/// Plans a sweep over the sampled threads `ids` from thread `me`: every
/// thread but `me` is signalled, in order, and every slot but `me`'s own is
/// awaited.
pub fn plan_sweep(ids: &Vec<u64>, me: u64) -> (p: SweepPlan)
    ensures
        match p.self_slot {
            Some(i) => i < ids.len() && ids[i as int] == me && forall|j: int| 0 <= j < i ==> ids[j] != me,
            None => forall|j: int| 0 <= j < ids.len() ==> ids[j] != me,
        },
        p.targets@ == ids@.filter(|t: u64| t != me),
        p.expected == if p.self_slot is Some { ids.len() - 1 } else { ids.len() as int },
{
    let mut self_slot: Option<usize> = None;
    let mut targets: Vec<u64> = Vec::new();
    let mut i: usize = 0;
    while i < ids.len()
        invariant
            i <= ids.len(),
            targets@ == ids@.subrange(0, i as int).filter(|t: u64| t != me),
            match self_slot {
                Some(k) => k < i && ids[k as int] == me && forall|j: int| 0 <= j < k ==> ids[j] != me,
                None => forall|j: int| 0 <= j < i ==> ids[j] != me,
            },
        decreases ids.len() - i,
    {
        proof {
            reveal(Seq::filter);
        }
        assert(ids@.subrange(0, i + 1).drop_last() =~= ids@.subrange(0, i as int));
        if ids[i] == me {
            if self_slot.is_none() {
                self_slot = Some(i);
            }
        } else {
            targets.push(ids[i]);
        }
        i = i + 1;
    }
    assert(ids@.subrange(0, i as int) =~= ids@);
    let expected = match self_slot {
        Some(_) => ids.len() - 1,
        None => ids.len(),
    };
    SweepPlan { self_slot, targets, expected }
}

/// Whether a sweep stops waiting: every expected answer came, or the
/// deadline passed.
pub fn sweep_finished(responded: usize, expected: usize, now_ns: u64, deadline_ns: u64) -> (r: bool)
    ensures
        r == (responded >= expected || now_ns >= deadline_ns),
{
    responded >= expected || now_ns >= deadline_ns
}

/// Registering a thread and then deregistering it leaves no entry of that
/// thread, and keeps every entry of the other threads in order.
pub proof fn lemma_register_then_deregister(entries: Seq<(u64, Seq<char>)>, id: u64, name: Seq<char>)
    ensures
        entries.push((id, name)).filter(other_thread(id)) == entries.filter(other_thread(id)),
        forall|k: int|
            0 <= k < entries.push((id, name)).filter(other_thread(id)).len() ==> (
            #[trigger] entries.push((id, name)).filter(other_thread(id))[k]).0 != id,
{
    reveal(Seq::filter);
    let s = entries.push((id, name));
    assert(s.drop_last() =~= entries);
    assert(s.len() > 0 && s.last() == (id, name));
    assert(!other_thread(id)((id, name)));
    assert(s.filter(other_thread(id)) == s.drop_last().filter(other_thread(id)));
    s.lemma_filter_len(other_thread(id));
    assert forall|k: int| 0 <= k < s.filter(other_thread(id)).len() implies (#[trigger] s.filter(
        other_thread(id),
    )[k]).0 != id by {
        s.lemma_filter_pred(other_thread(id), k);
    }
}

// ── The top frame of a backtrace ─────────────────────────────────

/// The first position at or after `i` where `p` occurs in `s`.
pub open spec fn find_from(s: Seq<char>, p: Seq<char>, i: int) -> Option<int>
    decreases s.len() - i,
{
    if i < 0 || i + p.len() > s.len() {
        None
    } else if matches_at(s, p, i) {
        Some(i)
    } else {
        find_from(s, p, i + 1)
    }
}

/// Every character of `s` is an ASCII digit (vacuously so for an empty `s`).
pub open spec fn all_ascii_digits(s: Seq<char>) -> bool {
    forall|k: int| 0 <= k < s.len() ==> 48 <= (#[trigger] s[k]) as u32 <= 57
}

/// Frames that belong to the sampling machinery, the runtime's parking code
/// or unresolved symbols.
pub open spec fn is_noise(f: Seq<char>) -> bool {
    ||| contains_seq(f, "std::backtrace"@)
    ||| contains_seq(f, "std::sys"@)
    ||| contains_seq(f, "backtrace_rs"@)
    ||| contains_seq(f, "backtrace::"@)
    ||| contains_seq(f, "sigprof_handler"@)
    ||| contains_seq(f, "__os_lock"@)
    ||| contains_seq(f, "_pthread_"@)
    ||| contains_seq(f, "pthread_"@)
    ||| contains_seq(f, "core::ops::function"@)
    ||| contains_seq(f, "std::panicking"@)
    ||| contains_seq(f, "std::panic"@)
    ||| contains_seq(f, "std::rt::lang_start"@)
    ||| contains_seq(f, "<unknown>"@)
    ||| contains_seq(f, "mio::poll"@)
    ||| contains_seq(f, "mio::sys"@)
    ||| contains_seq(f, "__psynch_"@)
    ||| contains_seq(f, "kevent"@)
    ||| contains_seq(f, "_sigtramp"@)
    ||| contains_seq(f, "signal_handler"@)
    ||| contains_seq(f, "vx_dump::thread_stacks"@)
}

/// A trimmed line without its leading frame number: when the text before the
/// first `": "` is (after trimming) all digits, what follows it, trimmed.
pub open spec fn strip_frame_number(t: Seq<char>) -> Seq<char> {
    match find_from(t, ": "@, 0) {
        Some(idx) => if all_ascii_digits(trim(t.subrange(0, idx))) {
            trim(t.subrange(idx + ": "@.len(), t.len() as int))
        } else {
            t
        },
        None => t,
    }
}

/// The frame a backtrace line names, if it names a useful one: blank lines,
/// `at ...` location lines and `stack ...` headers name none, and neither do
/// empty or noise frames.
pub open spec fn line_frame(line: Seq<char>) -> Option<Seq<char>> {
    let t = trim(line);
    if t.len() == 0 || starts_with(t, "at "@) || starts_with(t, "stack "@) {
        None
    } else {
        let f = strip_frame_number(t);
        if f.len() == 0 || is_noise(f) {
            None
        } else {
            Some(f)
        }
    }
}

/// The first useful frame among the lines of `s` from the line that starts
/// at `start`, scanning at `i`. Lines end at `'\n'`; trimming each line also
/// drops the `'\r'` of a `"\r\n"` ending.
pub open spec fn scan_frames(s: Seq<char>, start: int, i: int) -> Option<Seq<char>>
    decreases s.len() - i,
{
    if i >= s.len() {
        line_frame(s.subrange(start, s.len() as int))
    } else if s[i] == '\n' {
        match line_frame(s.subrange(start, i)) {
            Some(f) => Some(f),
            None => scan_frames(s, i + 1, i + 1),
        }
    } else {
        scan_frames(s, start, i + 1)
    }
}

/// The first useful frame of the backtrace text `bt`.
pub open spec fn top_frame(bt: Seq<char>) -> Option<Seq<char>> {
    scan_frames(bt, 0, 0)
}

/// The view of an optional character vector.
pub open spec fn opt_chars(o: Option<Vec<char>>) -> Option<Seq<char>> {
    match o {
        Some(v) => Some(v@),
        None => None,
    }
}

/// Whether `p` occurs in `f`.
fn contains_str(f: &Vec<char>, p: &str) -> (r: bool)
    ensures
        r == contains_seq(f@, p@),
{
    let pc = chars_of(p);
    contains_chars(f, &pc)
}

/// Whether `f` is a noise frame.
fn is_noise_frame(f: &Vec<char>) -> (r: bool)
    ensures
        r == is_noise(f@),
{
    contains_str(f, "std::backtrace") || contains_str(f, "std::sys") || contains_str(
        f,
        "backtrace_rs",
    ) || contains_str(f, "backtrace::") || contains_str(f, "sigprof_handler") || contains_str(
        f,
        "__os_lock",
    ) || contains_str(f, "_pthread_") || contains_str(f, "pthread_") || contains_str(
        f,
        "core::ops::function",
    ) || contains_str(f, "std::panicking") || contains_str(f, "std::panic") || contains_str(
        f,
        "std::rt::lang_start",
    ) || contains_str(f, "<unknown>") || contains_str(f, "mio::poll") || contains_str(
        f,
        "mio::sys",
    ) || contains_str(f, "__psynch_") || contains_str(f, "kevent") || contains_str(
        f,
        "_sigtramp",
    ) || contains_str(f, "signal_handler") || contains_str(f, "vx_dump::thread_stacks")
}

/// The first position where `p` occurs in `s`.
fn find_chars(s: &Vec<char>, p: &Vec<char>) -> (r: Option<usize>)
    ensures
        match r {
            Some(k) => find_from(s@, p@, 0) == Some(k as int) && matches_at(s@, p@, k as int),
            None => find_from(s@, p@, 0) is None,
        },
{
    if p.len() > s.len() {
        return None;
    }
    let last = s.len() - p.len();
    let mut i: usize = 0;
    while i <= last
        invariant
            last == s.len() - p.len(),
            i <= last + 1,
            find_from(s@, p@, 0) == find_from(s@, p@, i as int),
        decreases last + 1 - i,
    {
        if matches_at_exec(s, p, i) {
            return Some(i);
        }
        i = i + 1;
    }
    None
}

/// Whether every character of `s` is an ASCII digit.
fn all_digits(s: &Vec<char>) -> (r: bool)
    ensures
        r == all_ascii_digits(s@),
{
    let mut i: usize = 0;
    while i < s.len()
        invariant
            i <= s.len(),
            forall|k: int| 0 <= k < i ==> 48 <= (#[trigger] s@[k]) as u32 <= 57,
        decreases s.len() - i,
    {
        let u = s[i] as u32;
        if u < 48 || u > 57 {
            return false;
        }
        i = i + 1;
    }
    true
}

/// The trimmed part of `v`.
fn trimmed(v: &Vec<char>) -> (r: Vec<char>)
    ensures
        r@ == trim(v@),
{
    let (a, b) = trim_bounds(v);
    slice_of(v, a, b)
}

/// The frame that one backtrace line names, if it is a useful one.
fn line_frame_of(line: &Vec<char>) -> (r: Option<Vec<char>>)
    ensures
        opt_chars(r) == line_frame(line@),
{
    let t = trimmed(line);
    let at = chars_of("at ");
    let stack = chars_of("stack ");
    if t.len() == 0 || starts_with_chars(&t, &at) || starts_with_chars(&t, &stack) {
        return None;
    }
    let sep = chars_of(": ");
    let f = match find_chars(&t, &sep) {
        Some(idx) => {
            let head = slice_of(&t, 0, idx);
            let head_t = trimmed(&head);
            if all_digits(&head_t) {
                let tail = slice_of(&t, idx + sep.len(), t.len());
                trimmed(&tail)
            } else {
                t
            }
        },
        None => t,
    };
    if f.len() == 0 || is_noise_frame(&f) {
        None
    } else {
        Some(f)
    }
}

/// The first useful frame of the backtrace text `bt`, as characters.
fn top_frame_chars(bt: &str) -> (r: Option<Vec<char>>)
    ensures
        opt_chars(r) == top_frame(bt@),
{
    let s = chars_of(bt);
    let mut start: usize = 0;
    let mut i: usize = 0;
    while i < s.len()
        invariant
            start <= i <= s.len(),
            s@ == bt@,
            top_frame(bt@) == scan_frames(s@, start as int, i as int),
        decreases s.len() - i,
    {
        if s[i] == '\n' {
            let line = slice_of(&s, start, i);
            let f = line_frame_of(&line);
            if f.is_some() {
                return f;
            }
            start = i + 1;
        }
        i = i + 1;
    }
    let line = slice_of(&s, start, s.len());
    line_frame_of(&line)
}

/// Extracts the first useful frame from a backtrace: the first line that,
/// once trimmed and stripped of its frame number, is neither a location line
/// nor a noise frame.
pub fn extract_top_frame(bt: &str) -> (r: Option<String>)
    ensures
        opt_view(r) == top_frame(bt@),
{
    match top_frame_chars(bt) {
        Some(f) => Some(string_of(&f)),
        None => None,
    }
}

proof fn lemma_scan_frames_useful(s: Seq<char>, start: int, i: int)
    ensures
        scan_frames(s, start, i) matches Some(f) ==> f.len() > 0 && !is_noise(f),
    decreases s.len() - i,
{
    if i < s.len() {
        if s[i] == '\n' {
            lemma_scan_frames_useful(s, i + 1, i + 1);
        } else {
            lemma_scan_frames_useful(s, start, i + 1);
        }
    }
}

/// The top frame of a backtrace is never noise: it is not empty, and it
/// names none of the sampling machinery (`std::backtrace`, `backtrace_rs`,
/// the signal handlers), the runtime's parking code (`mio::poll`,
/// `mio::sys`, `kevent`, the pthread and psynch calls), the panic and
/// start-up glue, or an unresolved symbol.
pub proof fn lemma_top_frame_is_not_noise(bt: Seq<char>)
    ensures
        top_frame(bt) matches Some(f) ==> {
            &&& f.len() > 0
            &&& !contains_seq(f, "std::backtrace"@)
            &&& !contains_seq(f, "std::sys"@)
            &&& !contains_seq(f, "backtrace_rs"@)
            &&& !contains_seq(f, "backtrace::"@)
            &&& !contains_seq(f, "sigprof_handler"@)
            &&& !contains_seq(f, "__os_lock"@)
            &&& !contains_seq(f, "_pthread_"@)
            &&& !contains_seq(f, "pthread_"@)
            &&& !contains_seq(f, "core::ops::function"@)
            &&& !contains_seq(f, "std::panicking"@)
            &&& !contains_seq(f, "std::panic"@)
            &&& !contains_seq(f, "std::rt::lang_start"@)
            &&& !contains_seq(f, "<unknown>"@)
            &&& !contains_seq(f, "mio::poll"@)
            &&& !contains_seq(f, "mio::sys"@)
            &&& !contains_seq(f, "__psynch_"@)
            &&& !contains_seq(f, "kevent"@)
            &&& !contains_seq(f, "_sigtramp"@)
            &&& !contains_seq(f, "signal_handler"@)
            &&& !contains_seq(f, "vx_dump::thread_stacks"@)
        },
{
    lemma_scan_frames_useful(bt, 0, 0);
}

// ── Summarising a run of samples ─────────────────────────────────

/// The top frame of each sample a thread answered, in order; `obs` holds the
/// thread's backtrace per sample, `None` where it did not answer.
pub open spec fn answered_frames(obs: Seq<Option<Seq<char>>>) -> Seq<Option<Seq<char>>>
    decreases obs.len(),
{
    if obs.len() == 0 {
        seq![]
    } else {
        let r = answered_frames(obs.drop_last());
        match obs.last() {
            Some(bt) => r.push(top_frame(bt)),
            None => r,
        }
    }
}

/// How many answered samples named a frame, the same one as the answered
/// sample before them.
pub open spec fn repeat_count(fs: Seq<Option<Seq<char>>>) -> nat
    decreases fs.len(),
{
    if fs.len() < 2 {
        0
    } else {
        repeat_count(fs.drop_last()) + if fs.last() is Some && fs.last() == fs[fs.len() - 2] {
            1nat
        } else {
            0nat
        }
    }
}

/// How many answered samples named the frame `f`.
pub open spec fn frame_count(fs: Seq<Option<Seq<char>>>, f: Seq<char>) -> nat
    decreases fs.len(),
{
    if fs.len() == 0 {
        0
    } else {
        frame_count(fs.drop_last(), f) + if fs.last() == Some(f) {
            1nat
        } else {
            0nat
        }
    }
}

/// The last backtrace among the samples, if any sample was answered.
pub open spec fn last_answer(obs: Seq<Option<Seq<char>>>) -> Option<Seq<char>>
    decreases obs.len(),
{
    if obs.len() == 0 {
        None
    } else if obs.last() is Some {
        obs.last()
    } else {
        last_answer(obs.drop_last())
    }
}

/// `d` is a most frequent frame of `fs`, or `None` when no sample named one.
pub open spec fn is_dominant(fs: Seq<Option<Seq<char>>>, d: Option<Seq<char>>) -> bool {
    match d {
        None => forall|k: int| 0 <= k < fs.len() ==> (#[trigger] fs[k]) is None,
        Some(f) => frame_count(fs, f) > 0 && forall|g: Seq<char>|
            #[trigger] frame_count(fs, g) <= frame_count(fs, f),
    }
}

/// `s` is the summary of thread `name` over the samples `obs`.
pub open spec fn summarizes(
    s: ThreadStackSnapshot,
    name: Seq<char>,
    obs: Seq<Option<Seq<char>>>,
) -> bool {
    let fs = answered_frames(obs);
    &&& s.name@ == name
    &&& opt_view(s.backtrace) == last_answer(obs)
    &&& s.samples == obs.len()
    &&& s.responded == fs.len()
    &&& s.same_location_count == repeat_count(fs)
    &&& is_dominant(fs, opt_view(s.dominant_frame))
}

/// What thread `i` answered in each sweep of `sweeps`.
pub open spec fn column(sweeps: Seq<Vec<Option<String>>>, i: int) -> Seq<Option<Seq<char>>> {
    Seq::new(sweeps.len(), |k: int| opt_view(sweeps[k]@[i]))
}

/// The last element of `fs`, if any.
pub open spec fn last_of(fs: Seq<Option<Seq<char>>>) -> Option<Seq<char>> {
    if fs.len() == 0 {
        None
    } else {
        fs.last()
    }
}

/// A frame that `fs` holds is counted at least once.
proof fn lemma_count_positive(fs: Seq<Option<Seq<char>>>, k: int, f: Seq<char>)
    requires
        0 <= k < fs.len(),
        fs[k] == Some(f),
    ensures
        frame_count(fs, f) > 0,
    decreases fs.len(),
{
    if k < fs.len() - 1 {
        lemma_count_positive(fs.drop_last(), k, f);
    }
}

/// Counting after one more answered sample.
proof fn lemma_count_push(fs: Seq<Option<Seq<char>>>, x: Option<Seq<char>>, g: Seq<char>)
    ensures
        frame_count(fs.push(x), g) == frame_count(fs, g) + if x == Some(g) {
            1nat
        } else {
            0nat
        },
{
    assert(fs.push(x).drop_last() =~= fs);
}

/// The position of the key equal to `f`, if any.
fn find_key(keys: &Vec<Vec<char>>, f: &Vec<char>) -> (r: Option<usize>)
    ensures
        match r {
            Some(j) => j < keys.len() && keys[j as int]@ == f@,
            None => forall|a: int| 0 <= a < keys.len() ==> keys[a]@ != f@,
        },
{
    let mut j: usize = 0;
    while j < keys.len()
        invariant
            j <= keys.len(),
            forall|a: int| 0 <= a < j ==> keys[a]@ != f@,
        decreases keys.len() - j,
    {
        if chars_eq(&keys[j], f) {
            return Some(j);
        }
        j = j + 1;
    }
    None
}

/// The summary of thread `i` across the sweeps.
fn summarize_one(name: &String, sweeps: &Vec<Vec<Option<String>>>, i: usize) -> (s:
    ThreadStackSnapshot)
    requires
        sweeps.len() <= u32::MAX,
        forall|k: int| 0 <= k < sweeps.len() ==> i < (#[trigger] sweeps[k]).len(),
    ensures
        summarizes(s, name@, column(sweeps@, i as int)),
{
    let ghost col = column(sweeps@, i as int);
    let mut responded: u32 = 0;
    let mut same: u32 = 0;
    let mut last_frame: Option<Vec<char>> = None;
    let mut last_bt: Option<String> = None;
    let mut keys: Vec<Vec<char>> = Vec::new();
    let mut counts: Vec<u32> = Vec::new();
    let mut k: usize = 0;
    while k < sweeps.len()
        invariant
            k <= sweeps.len() <= u32::MAX,
            col == column(sweeps@, i as int),
            forall|k2: int| 0 <= k2 < sweeps.len() ==> i < (#[trigger] sweeps[k2]).len(),
            responded == answered_frames(col.subrange(0, k as int)).len(),
            responded <= k,
            same <= responded,
            same == repeat_count(answered_frames(col.subrange(0, k as int))),
            opt_chars(last_frame) == last_of(answered_frames(col.subrange(0, k as int))),
            opt_view(last_bt) == last_answer(col.subrange(0, k as int)),
            keys.len() == counts.len(),
            forall|a: int, b: int| 0 <= a < b < keys.len() ==> keys[a]@ != keys[b]@,
            forall|a: int|
                0 <= a < keys.len() ==> #[trigger] counts[a] == frame_count(
                    answered_frames(col.subrange(0, k as int)),
                    keys[a]@,
                ) && counts[a] <= responded && counts[a] > 0,
            forall|f: Seq<char>|
                #[trigger] frame_count(answered_frames(col.subrange(0, k as int)), f) > 0 ==> exists|
                    a: int,
                | 0 <= a < keys.len() && keys[a]@ == f,
        decreases sweeps.len() - k,
    {
        let ghost prev = col.subrange(0, k as int);
        let ghost next = col.subrange(0, k + 1);
        let ghost fs = answered_frames(prev);
        assert(next.drop_last() =~= prev);
        assert(next.last() == col[k as int]);
        assert(col[k as int] == opt_view(sweeps@[k as int]@[i as int]));
        let obs = &sweeps[k][i];
        match obs {
            None => {
                assert(answered_frames(next) == fs);
                assert(last_answer(next) == last_answer(prev));
            },
            Some(bt) => {
                let frame = top_frame_chars(bt.as_str());
                let ghost x = opt_chars(frame);
                assert(answered_frames(next) == fs.push(x));
                assert(last_answer(next) == Some(bt@));
                responded = responded + 1;
                last_bt = Some(bt.clone());
                let is_same = match (&frame, &last_frame) {
                    (Some(f), Some(l)) => chars_eq(f, l),
                    _ => false,
                };
                proof {
                    assert(fs.push(x).drop_last() =~= fs);
                    if fs.len() >= 1 {
                        assert(fs.push(x)[fs.len() - 1] == fs.last());
                    }
                }
                assert(is_same == (x is Some && fs.len() >= 1 && x == fs.last()));
                if is_same {
                    same = same + 1;
                }
                assert(same == repeat_count(fs.push(x)));
                proof {
                    assert forall|g: Seq<char>|
                        frame_count(fs.push(x), g) == frame_count(fs, g) + if x == Some(g) {
                            1nat
                        } else {
                            0nat
                        } by {
                        lemma_count_push(fs, x, g);
                    }
                }
                match frame {
                    Some(f) => {
                        let copy = slice_of(&f, 0, f.len());
                        assert(copy@ =~= f@);
                        last_frame = Some(copy);
                        let found = find_key(&keys, &f);
                        if let Some(j) = found {
                            let c = counts[j];
                            counts.set(j, c + 1);
                            assert forall|g: Seq<char>| #[trigger]
                                frame_count(fs.push(x), g) > 0 implies exists|a: int|
                                0 <= a < keys.len() && keys[a]@ == g by {
                                if x == Some(g) {
                                    assert(keys[j as int]@ == g);
                                } else {
                                    assert(frame_count(fs, g) > 0);
                                }
                            }
                        } else {
                            assert(frame_count(fs, f@) == 0);
                            let ghost old_keys = keys@;
                            keys.push(f);
                            counts.push(1);
                            assert forall|g: Seq<char>| #[trigger]
                                frame_count(fs.push(x), g) > 0 implies exists|a: int|
                                0 <= a < keys.len() && keys[a]@ == g by {
                                if x == Some(g) {
                                    assert(keys[keys.len() - 1]@ == g);
                                } else {
                                    assert(frame_count(fs, g) > 0);
                                    let w = choose|w: int|
                                        0 <= w < old_keys.len() && old_keys[w]@ == g;
                                    assert(keys[w] == old_keys[w]);
                                }
                            }
                        }
                    },
                    None => {
                        last_frame = None;
                        assert forall|g: Seq<char>| #[trigger]
                            frame_count(fs.push(x), g) > 0 implies exists|a: int|
                            0 <= a < keys.len() && keys[a]@ == g by {
                            assert(frame_count(fs, g) > 0);
                        }
                    },
                }
            },
        }
        k = k + 1;
    }
    assert(col.subrange(0, sweeps.len() as int) =~= col);
    let ghost fs = answered_frames(col);
    let dominant = if keys.len() == 0 {
        assert forall|k2: int| 0 <= k2 < fs.len() implies (#[trigger] fs[k2]) is None by {
            if fs[k2] is Some {
                lemma_count_positive(fs, k2, fs[k2]->0);
            }
        }
        None
    } else {
        let mut best: usize = 0;
        let mut a: usize = 1;
        while a < keys.len()
            invariant
                1 <= a <= keys.len() == counts.len(),
                best < a,
                forall|b: int| 0 <= b < a ==> counts[b] <= counts[best as int],
            decreases keys.len() - a,
        {
            if counts[a] >= counts[best] {
                best = a;
            }
            a = a + 1;
        }
        assert forall|g: Seq<char>| #[trigger] frame_count(fs, g) <= frame_count(
            fs,
            keys[best as int]@,
        ) by {
            if frame_count(fs, g) > 0 {
                let w = choose|w: int| 0 <= w < keys.len() && keys[w]@ == g;
                assert(counts[w] == frame_count(fs, keys[w]@));
            }
        }
        Some(string_of(&keys[best]))
    };
    ThreadStackSnapshot {
        name: name.clone(),
        backtrace: last_bt,
        samples: sweeps.len() as u32,
        responded,
        same_location_count: same,
        dominant_frame: dominant,
    }
}

/// A thread never answers more samples than were taken, and never repeats
/// its frame more often than it answered.
pub proof fn lemma_summary_counts_bounded(obs: Seq<Option<Seq<char>>>)
    ensures
        answered_frames(obs).len() <= obs.len(),
        repeat_count(answered_frames(obs)) <= answered_frames(obs).len(),
    decreases obs.len(),
{
    if obs.len() > 0 {
        lemma_summary_counts_bounded(obs.drop_last());
        let fs = answered_frames(obs);
        let r = answered_frames(obs.drop_last());
        if obs.last() is Some {
            assert(fs.drop_last() =~= r);
        }
    }
}

/// Summarises a run of sample sweeps: `sweeps[k][i]` is what thread `i`
/// answered in sweep `k`. Each thread's summary counts its answers, keeps its
/// last backtrace, counts the answers whose top frame repeats the previous
/// answer's, and names a most frequent top frame.
pub fn summarize_thread_samples(names: &Vec<String>, sweeps: &Vec<Vec<Option<String>>>) -> (r: Vec<
    ThreadStackSnapshot,
>)
    requires
        sweeps.len() <= u32::MAX,
        forall|k: int| 0 <= k < sweeps.len() ==> (#[trigger] sweeps[k]).len() == names.len(),
    ensures
        r.len() == names.len(),
        forall|i: int|
            0 <= i < names.len() ==> summarizes(#[trigger] r[i], names[i]@, column(sweeps@, i)),
{
    let mut out: Vec<ThreadStackSnapshot> = Vec::new();
    let mut i: usize = 0;
    while i < names.len()
        invariant
            i <= names.len(),
            out.len() == i,
            sweeps.len() <= u32::MAX,
            forall|k: int| 0 <= k < sweeps.len() ==> (#[trigger] sweeps[k]).len() == names.len(),
            forall|j: int|
                0 <= j < i ==> summarizes(#[trigger] out[j], names[j]@, column(sweeps@, j)),
        decreases names.len() - i,
    {
        out.push(summarize_one(&names[i], sweeps, i));
        i = i + 1;
    }
    out
}

} // verus!
