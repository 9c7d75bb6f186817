//! The debouncer: buffers raw change notifications and coalesces bursts.
//!
//! The buffer is keyed by path.  Each raw notification for a path resets that
//! path's window: the pending entry's deadline becomes the notification time
//! plus the window, and its kind is merged under the normalization rule of
//! [`crate::events::merged_kind`].  Once a flush finds a pending entry whose
//! deadline has passed, that entry leaves the buffer as one debounced event.
//! The flush policy is one event per distinct path, and events are emitted in
//! the order their windows closed.
//!
//! Timestamps are milliseconds on a monotone clock supplied by the caller;
//! the buffer never reads the time itself.

use vstd::prelude::*;
use crate::events::{DebouncedEvent, EventKind, RawChangeEvent, merged_kind};

verus! {

/// One pending coalesced change: the path, the kind merged so far, and the
/// instant its window closes.
pub struct PendingChange {
    pub path: String,
    pub kind: EventKind,
    pub deadline: u64,
}

/// The mathematical value of one pending entry.
pub struct PendingView {
    pub path: Seq<char>,
    pub kind: EventKind,
    pub deadline: int,
}

/// The mathematical value of one pending change.
pub open spec fn pending_view(e: PendingChange) -> PendingView {
    PendingView { path: e.path@, kind: e.kind, deadline: e.deadline as int }
}

/// The mathematical value of the whole pending buffer.
pub open spec fn pending_views(s: Seq<PendingChange>) -> Seq<PendingView> {
    s.map_values(|e: PendingChange| pending_view(e))
}

/// The mathematical state of a debouncer: the window length, the latest
/// instant it has seen, and the pending buffer in arrival order of each
/// path's most recent notification.
pub struct DebView {
    pub window: int,
    pub clock: int,
    pub pending: Seq<PendingView>,
}

/// Whether some entry of the buffer is pending for `path`.
pub open spec fn has_path(p: Seq<PendingView>, path: Seq<char>) -> bool {
    exists|i: int| 0 <= i < p.len() && p[i].path == path
}

/// The index of the entry pending for `path`; meaningful only when
/// `has_path` holds, in which case well-formedness makes it unique.
pub open spec fn path_index(p: Seq<PendingView>, path: Seq<char>) -> int {
    choose|i: int| 0 <= i < p.len() && p[i].path == path
}

/// The kind currently pending for `path`.
pub open spec fn kind_at(p: Seq<PendingView>, path: Seq<char>) -> EventKind {
    p[path_index(p, path)].kind
}

/// Well-formedness of a debouncer state: the window is a real length, no
/// path has two pending entries, deadlines never run ahead of the clock by
/// more than one window, and the buffer is ordered by deadline — so the
/// entries whose windows have closed always form a prefix.
pub open spec fn deb_wf(v: DebView) -> bool {
    &&& v.window >= 0
    &&& v.clock >= 0
    &&& forall|i: int, j: int|
        0 <= i < j < v.pending.len() ==> v.pending[i].path != v.pending[j].path
    &&& forall|i: int, j: int|
        0 <= i <= j < v.pending.len() ==> v.pending[i].deadline <= v.pending[j].deadline
    &&& forall|i: int| 0 <= i < v.pending.len() ==> #[trigger] v.pending[i].deadline <= v.clock + v.window
}

/// The effect of recording one raw notification at instant `now`: the
/// path's pending entry (fresh, or re-queued with its kind merged) moves to
/// the back of the buffer with a full window ahead of it.
pub open spec fn record_model(v: DebView, now: int, kind: EventKind, path: Seq<char>) -> DebView {
    let deadline = now + v.window;
    if has_path(v.pending, path) {
        let i = path_index(v.pending, path);
        let entry = PendingView { path, kind: merged_kind(v.pending[i].kind, kind), deadline };
        DebView { window: v.window, clock: now, pending: v.pending.remove(i).push(entry) }
    } else {
        let entry = PendingView { path, kind, deadline };
        DebView { window: v.window, clock: now, pending: v.pending.push(entry) }
    }
}

/// How many entries at the front of the buffer have a deadline at or before
/// `now`.  In a well-formed state these are exactly the entries whose
/// windows have closed.
pub open spec fn due_prefix(p: Seq<PendingView>, now: int) -> int
    decreases p.len(),
{
    if p.len() > 0 && p[0].deadline <= now {
        1 + due_prefix(p.drop_first(), now)
    } else {
        0
    }
}

/// The state left behind by a flush at instant `now`.
pub open spec fn flush_model(v: DebView, now: int) -> DebView {
    DebView { window: v.window, clock: now, pending: v.pending.skip(due_prefix(v.pending, now)) }
}

/// The events a flush at instant `now` emits: one `(kind, path)` per closed
/// window, in the order the windows closed.
pub open spec fn flushed_events(v: DebView, now: int) -> Seq<(EventKind, Seq<char>)> {
    v.pending.take(due_prefix(v.pending, now)).map_values(|e: PendingView| (e.kind, e.path))
}

/// The debouncer's pending buffer.
pub struct Debouncer {
    window_ms: u64,
    clock: u64,
    pending: Vec<PendingChange>,
}

impl View for Debouncer {
    type V = DebView;

    closed spec fn view(&self) -> DebView {
        DebView {
            window: self.window_ms as int,
            clock: self.clock as int,
            pending: pending_views(self.pending@),
        }
    }
}

impl Debouncer {
    /// A fresh debouncer with the given coalescing window, in milliseconds.
    pub fn new(window_ms: u64) -> (d: Self)
        ensures
            d@ == (DebView { window: window_ms as int, clock: 0, pending: Seq::<PendingView>::empty() }),
            deb_wf(d@),
    {
        let d = Debouncer { window_ms, clock: 0, pending: Vec::new() };
        proof {
            assert(d@.pending =~= Seq::<PendingView>::empty());
        }
        d
    }

    /// Records one raw notification at instant `now`, resetting its path's
    /// window and merging its kind under the normalization rule.
    pub fn record(&mut self, now: u64, e: RawChangeEvent)
        requires
            deb_wf(old(self)@),
            old(self)@.clock <= now,
            now + old(self)@.window <= u64::MAX,
        ensures
            final(self)@ == record_model(old(self)@, now as int, e.kind, e.path@),
            deb_wf(final(self)@),
    {
        let RawChangeEvent { kind, path } = e;
        let deadline: u64 = now + self.window_ms;
        let ghost pre = self@;
        let mut i: usize = 0;
        let mut found: Option<usize> = None;
        while i < self.pending.len()
            invariant
                *self == *old(self),
                pre == self@,
                i <= self.pending.len(),
                found is None ==> forall|k: int| 0 <= k < i ==> pre.pending[k].path != path@,
                found matches Some(f) ==> 0 <= f < self.pending.len() && pre.pending[
                    f as int
                ].path == path@,
            decreases self.pending.len() - i,
        {
            if found.is_none() {
                proof {
                    assert(pre.pending[i as int] == pending_view(self.pending@[i as int]));
                }
                if self.pending[i].path == path {
                    found = Some(i);
                }
            }
            i += 1;
        }
        let ghost prev = self.pending@;
        match found {
            Some(idx) => {
                proof {
                    assert(has_path(pre.pending, path@));
                    let j = path_index(pre.pending, path@);
                    assert(0 <= j < pre.pending.len() && pre.pending[j].path == path@);
                    if j < idx as int {
                        assert(pre.pending[j].path != pre.pending[idx as int].path);
                    } else if j > idx as int {
                        assert(pre.pending[idx as int].path != pre.pending[j].path);
                    }
                    assert(j == idx as int);
                }
                let e = self.pending.remove(idx);
                let merged = crate::events::merge_kind(e.kind, kind);
                self.pending.push(PendingChange { path, kind: merged, deadline });
                self.clock = now;
                proof {
                    let m = record_model(pre, now as int, kind, path@);
                    let ji = idx as int;
                    prev.remove_ensures(ji);
                    pre.pending.remove_ensures(ji);
                    assert(pending_view(prev[ji]) == pre.pending[ji]);
                    assert forall|x: int| 0 <= x < m.pending.len() implies pending_views(
                        self.pending@,
                    )[x] == m.pending[x] by {
                        assert(self.pending@ == prev.remove(ji).push(
                            PendingChange { path, kind: merged, deadline },
                        ));
                        if x < m.pending.len() - 1 {
                            assert(pending_views(self.pending@)[x] == pending_view(
                                prev.remove(ji)[x],
                            ));
                            if x < ji {
                                assert(prev.remove(ji)[x] == prev[x]);
                            } else {
                                assert(prev.remove(ji)[x] == prev[x + 1]);
                            }
                        }
                    }
                    assert(self@.pending =~= m.pending);
                    lemma_record_model_wf(pre, now as int, kind, path@);
                }
            },
            None => {
                proof {
                    assert(!has_path(pre.pending, path@)) by {
                        if has_path(pre.pending, path@) {
                            let j = path_index(pre.pending, path@);
                            assert(pre.pending[j].path == path@);
                        }
                    }
                }
                self.pending.push(PendingChange { path, kind, deadline });
                self.clock = now;
                proof {
                    let m = record_model(pre, now as int, kind, path@);
                    assert forall|x: int| 0 <= x < m.pending.len() implies pending_views(
                        self.pending@,
                    )[x] == m.pending[x] by {
                        assert(self.pending@ == prev.push(PendingChange { path, kind, deadline }));
                        if x < m.pending.len() - 1 {
                            assert(pending_views(self.pending@)[x] == pending_view(prev[x]));
                        }
                    }
                    assert(self@.pending =~= m.pending);
                    lemma_record_model_wf(pre, now as int, kind, path@);
                }
            },
        }
    }

    /// Flushes every pending entry whose window has closed by instant `now`
    /// — and only those — as one debounced event per path, in the order the
    /// windows closed.
    pub fn flush_due(&mut self, now: u64) -> (out: Vec<DebouncedEvent>)
        requires
            deb_wf(old(self)@),
            old(self)@.clock <= now,
        ensures
            final(self)@ == flush_model(old(self)@, now as int),
            deb_wf(final(self)@),
            forall|i: int|
                0 <= i < out@.len() ==> #[trigger] old(self)@.pending[i].deadline <= now,
            forall|i: int|
                out@.len() <= i < old(self)@.pending.len() ==> #[trigger] old(
                    self,
                )@.pending[i].deadline > now,
            out@.len() == flushed_events(old(self)@, now as int).len(),
            forall|i: int|
                0 <= i < out@.len() ==> {
                    &&& (#[trigger] out@[i]).kind == flushed_events(old(self)@, now as int)[i].0
                    &&& out@[i].paths@.len() == 1
                    &&& out@[i].paths@[0]@ == flushed_events(old(self)@, now as int)[i].1
                },
    {
        let ghost pre = self@;
        let mut out: Vec<DebouncedEvent> = Vec::new();
        while self.pending.len() > 0 && self.pending[0].deadline <= now
            invariant
                self.window_ms == old(self).window_ms,
                self.clock == old(self).clock,
                deb_wf(pre),
                pre.clock <= now,
                out@.len() <= pre.pending.len(),
                pending_views(self.pending@) =~= pre.pending.skip(out@.len() as int),
                forall|k: int| 0 <= k < out@.len() ==> #[trigger] pre.pending[k].deadline <= now,
                forall|k: int|
                    0 <= k < out@.len() ==> {
                        &&& (#[trigger] out@[k]).kind == pre.pending[k].kind
                        &&& out@[k].paths@.len() == 1
                        &&& out@[k].paths@[0]@ == pre.pending[k].path
                    },
            decreases self.pending.len(),
        {
            let ghost k_pre = out@.len() as int;
            let ghost prev = self.pending@;
            proof {
                assert(pending_views(prev).len() > 0);
                assert(k_pre < pre.pending.len());
                assert(pre.pending.skip(k_pre)[0] == pre.pending[k_pre]);
                assert(pending_views(prev)[0] == pending_view(prev[0]));
                assert(pending_view(prev[0]) == pre.pending[k_pre]);
                assert(pre.pending[k_pre].deadline <= now);
            }
            let e = self.pending.remove(0);
            let mut paths: Vec<String> = Vec::new();
            paths.push(e.path);
            out.push(DebouncedEvent { kind: e.kind, paths });
            proof {
                prev.remove_ensures(0);
                assert forall|j: int| 0 <= j < self.pending@.len() implies pending_views(
                    self.pending@,
                )[j] == pre.pending.skip(k_pre + 1)[j] by {
                    assert(self.pending@[j] == prev.remove(0)[j]);
                    assert(prev.remove(0)[j] == prev[j + 1]);
                    assert(pending_views(self.pending@)[j] == pending_view(prev[j + 1]));
                    assert(pending_view(prev[j + 1]) == pending_views(prev)[j + 1]);
                    assert(pending_views(prev)[j + 1] == pre.pending.skip(k_pre)[j + 1]);
                    assert(pre.pending.skip(k_pre)[j + 1] == pre.pending[k_pre + j + 1]);
                    assert(pre.pending.skip(k_pre + 1)[j] == pre.pending[k_pre + j + 1]);
                }
                assert(pending_views(self.pending@) =~= pre.pending.skip(k_pre + 1));
            }
        }
        self.clock = now;
        proof {
            let k = out@.len() as int;
            lemma_due_prefix_split(pre.pending, now as int, k);
            if self.pending.len() > 0 {
                assert(pre.pending.skip(k)[0].deadline > now);
                assert(pre.pending[k].deadline > now);
            }
            assert forall|i: int| k <= i < pre.pending.len() implies #[trigger] pre.pending[
                i
            ].deadline > now by {
                assert(pre.pending[k].deadline <= pre.pending[i].deadline);
            }
            assert(due_prefix(pre.pending, now as int) == k);
            assert(self@.pending =~= flush_model(pre, now as int).pending);
            assert(flushed_events(pre, now as int).len() == k);
            assert(forall|i: int|
                0 <= i < k ==> #[trigger] flushed_events(pre, now as int)[i]
                    == (pre.pending[i].kind, pre.pending[i].path));
        }
        out
    }

    /// How many paths currently have a pending, not yet flushed entry.
    pub fn pending_len(&self) -> (n: usize)
        ensures
            n == self@.pending.len(),
    {
        self.pending.len()
    }
}

/// Splitting the due-prefix count at a point `k` up to which every deadline
/// has passed: the count is `k` plus the count of the rest.
proof fn lemma_due_prefix_split(p: Seq<PendingView>, now: int, k: int)
    requires
        0 <= k <= p.len(),
        forall|i: int| 0 <= i < k ==> #[trigger] p[i].deadline <= now,
    ensures
        due_prefix(p, now) == k + due_prefix(p.skip(k), now),
    decreases k,
{
    if k == 0 {
        assert(p.skip(0) =~= p);
    } else {
        assert(p[0].deadline <= now);
        lemma_due_prefix_split(p.drop_first(), now, k - 1);
        assert(p.drop_first().skip(k - 1) =~= p.skip(k));
    }
}

/// Recording preserves well-formedness; afterwards the path is pending, at
/// the back of the buffer, with a full window ahead of it, and no other
/// path's entry has been gained or lost.
proof fn lemma_record_model_wf(v: DebView, now: int, kind: EventKind, path: Seq<char>)
    requires
        deb_wf(v),
        v.clock <= now,
    ensures
        deb_wf(record_model(v, now, kind, path)),
        record_model(v, now, kind, path).pending.len()
            == v.pending.len() + (if has_path(v.pending, path) { 0int } else { 1 }),
        has_path(record_model(v, now, kind, path).pending, path),
        path_index(record_model(v, now, kind, path).pending, path)
            == record_model(v, now, kind, path).pending.len() - 1,
        kind_at(record_model(v, now, kind, path).pending, path)
            == (if has_path(v.pending, path) {
                merged_kind(kind_at(v.pending, path), kind)
            } else {
                kind
            }),
        record_model(v, now, kind, path).pending.last().deadline == now + v.window,
        forall|q: Seq<char>|
            #[trigger] has_path(record_model(v, now, kind, path).pending, q)
                <==> (has_path(v.pending, q) || q == path),
{
    let m = record_model(v, now, kind, path);
    let n = m.pending.len();
    if has_path(v.pending, path) {
        let i = path_index(v.pending, path);
        assert(0 <= i < v.pending.len() && v.pending[i].path == path);
        let rest = v.pending.remove(i);
        assert(forall|k: int|
            0 <= k < rest.len() ==> rest[k] == (if k < i { v.pending[k] } else { v.pending[k + 1] }));
        // distinct paths, ordered deadlines, deadline bound
        assert(forall|a: int, b: int| 0 <= a < b < n ==> m.pending[a].path != m.pending[b].path) by {
            assert(forall|a: int| 0 <= a < rest.len() ==> #[trigger] rest[a].path != path);
        }
        assert(forall|a: int, b: int| 0 <= a <= b < n ==> m.pending[a].deadline <= m.pending[b].deadline);
        assert(forall|a: int| 0 <= a < n ==> #[trigger] m.pending[a].deadline <= m.clock + m.window);
        assert(m.pending[n - 1].path == path);
        let w = path_index(m.pending, path);
        assert(m.pending[w].path == path);
        assert(w == n - 1);
        assert forall|q: Seq<char>| has_path(v.pending, q) || q == path implies #[trigger] has_path(
            m.pending,
            q,
        ) by {
            if q == path {
                assert(m.pending[n - 1].path == q);
            } else {
                let k = choose|k: int| 0 <= k < v.pending.len() && v.pending[k].path == q;
                if k < i {
                    assert(m.pending[k].path == q);
                } else {
                    assert(m.pending[k - 1].path == q);
                }
            }
        }
        assert forall|q: Seq<char>| #[trigger] has_path(m.pending, q) implies has_path(v.pending, q)
            || q == path by {
            let k = choose|k: int| 0 <= k < m.pending.len() && m.pending[k].path == q;
            if k < n - 1 {
                if k < i {
                    assert(v.pending[k].path == q);
                } else {
                    assert(v.pending[k + 1].path == q);
                }
            }
        }
    } else {
        assert(forall|a: int| 0 <= a < v.pending.len() ==> #[trigger] v.pending[a].path != path);
        assert(m.pending[n - 1].path == path);
        let w = path_index(m.pending, path);
        assert(m.pending[w].path == path);
        assert(w == n - 1);
        assert forall|q: Seq<char>| has_path(v.pending, q) || q == path implies #[trigger] has_path(
            m.pending,
            q,
        ) by {
            if q == path {
                assert(m.pending[n - 1].path == q);
            } else {
                let k = choose|k: int| 0 <= k < v.pending.len() && v.pending[k].path == q;
                assert(m.pending[k].path == q);
            }
        }
        assert forall|q: Seq<char>| #[trigger] has_path(m.pending, q) implies has_path(v.pending, q)
            || q == path by {
            let k = choose|k: int| 0 <= k < m.pending.len() && m.pending[k].path == q;
            if k < n - 1 {
                assert(v.pending[k].path == q);
            }
        }
    }
}

/// The instants in `times` are nondecreasing and none lies before `c`.
pub open spec fn monotone_from(c: int, times: Seq<int>) -> bool
    decreases times.len(),
{
    times.len() == 0 || (c <= times[0] && monotone_from(times[0], times.drop_first()))
}

/// The state after a burst: one raw notification for `path` per instant of
/// `times`, with the matching kind from `kinds`.
pub open spec fn record_seq_model(
    v: DebView,
    times: Seq<int>,
    kinds: Seq<EventKind>,
    path: Seq<char>,
) -> DebView
    decreases times.len(),
{
    if times.len() == 0 {
        v
    } else {
        record_seq_model(
            record_model(v, times[0], kinds[0], path),
            times.drop_first(),
            kinds.drop_first(),
            path,
        )
    }
}

/// The kind left pending after a run of raw kinds has been merged into `k0`,
/// one after the other, under the normalization rule.
pub open spec fn folded_kind(k0: EventKind, kinds: Seq<EventKind>) -> EventKind
    decreases kinds.len(),
{
    if kinds.len() == 0 {
        k0
    } else {
        folded_kind(merged_kind(k0, kinds[0]), kinds.drop_first())
    }
}

/// The kind pending for `path` right after one raw notification of kind `k`:
/// `k` itself for a fresh path, otherwise `k` merged into what was pending.
pub open spec fn start_kind(v: DebView, path: Seq<char>, k: EventKind) -> EventKind {
    if has_path(v.pending, path) {
        merged_kind(kind_at(v.pending, path), k)
    } else {
        k
    }
}

/// Coalescing, the general law: however many raw notifications arrive for
/// one path, each arriving before the previous one's window closed or not,
/// the buffer afterwards holds exactly one entry for that path — fresh paths
/// add one entry, repeats add none — no other path's entry is gained or
/// lost, and the entry's kind is the fold of the burst's kinds under the
/// normalization rule, its window one full length after the last arrival.
pub proof fn lemma_record_seq_coalesces(
    v: DebView,
    times: Seq<int>,
    kinds: Seq<EventKind>,
    path: Seq<char>,
)
    requires
        deb_wf(v),
        times.len() == kinds.len(),
        monotone_from(v.clock, times),
    ensures
        deb_wf(record_seq_model(v, times, kinds, path)),
        record_seq_model(v, times, kinds, path).window == v.window,
        times.len() == 0 ==> record_seq_model(v, times, kinds, path) == v,
        times.len() > 0 ==> ({
            let r = record_seq_model(v, times, kinds, path);
            &&& r.pending.len() == v.pending.len() + (if has_path(v.pending, path) {
                0int
            } else {
                1int
            })
            &&& r.clock == times.last()
            &&& r.pending.len() >= 1
            &&& r.pending.last().path == path
            &&& r.pending.last().kind == folded_kind(
                start_kind(v, path, kinds[0]),
                kinds.drop_first(),
            )
            &&& r.pending.last().deadline == times.last() + v.window
            &&& path_index(r.pending, path) == r.pending.len() - 1
            &&& forall|q: Seq<char>|
                #[trigger] has_path(r.pending, q) <==> (has_path(v.pending, q) || q == path)
        }),
    decreases times.len(),
{
    if times.len() > 0 {
        let v1 = record_model(v, times[0], kinds[0], path);
        lemma_record_model_wf(v, times[0], kinds[0], path);
        let dt = times.drop_first();
        let dk = kinds.drop_first();
        lemma_record_seq_coalesces(v1, dt, dk, path);
        let r = record_seq_model(v, times, kinds, path);
        assert(r == record_seq_model(v1, dt, dk, path));
        assert(v1.pending.last() == v1.pending[v1.pending.len() - 1]);
        assert(v1.pending.last().kind == kind_at(v1.pending, path));
        if times.len() == 1 {
            assert(dt.len() == 0);
            assert(r == v1);
            assert(folded_kind(start_kind(v, path, kinds[0]), dk) == start_kind(v, path, kinds[0]));
            assert(times.last() == times[0]);
        } else {
            assert(dt.len() > 0);
            assert(dt.last() == times.last());
            assert(dk[0] == kinds[1]);
            assert(has_path(v1.pending, path));
            assert(start_kind(v1, path, dk[0]) == merged_kind(kind_at(v1.pending, path), kinds[1]));
            assert(kind_at(v1.pending, path) == start_kind(v, path, kinds[0]));
            assert(folded_kind(start_kind(v, path, kinds[0]), dk) == folded_kind(
                merged_kind(start_kind(v, path, kinds[0]), dk[0]),
                dk.drop_first(),
            ));
            assert(r.pending.last().kind == folded_kind(
                start_kind(v1, path, dk[0]),
                dk.drop_first(),
            ));
        }
    }
}

/// Coalescing, end to end: a burst of raw notifications for one path,
/// arriving at a fresh debouncer, leaves exactly one pending entry; a flush
/// once its window has closed emits exactly one debounced event, carrying
/// that path and the burst's folded kind, and empties the buffer.
pub proof fn lemma_burst_yields_one_event(
    window: int,
    times: Seq<int>,
    kinds: Seq<EventKind>,
    path: Seq<char>,
    flush_time: int,
)
    requires
        window >= 0,
        times.len() == kinds.len(),
        times.len() >= 1,
        monotone_from(0, times),
        flush_time >= times.last() + window,
    ensures
        ({
            let v0 = DebView { window, clock: 0, pending: Seq::<PendingView>::empty() };
            let v1 = record_seq_model(v0, times, kinds, path);
            &&& v1.pending.len() == 1
            &&& flushed_events(v1, flush_time).len() == 1
            &&& flushed_events(v1, flush_time)[0] == (
                folded_kind(kinds[0], kinds.drop_first()),
                path,
            )
            &&& flush_model(v1, flush_time).pending.len() == 0
        }),
{
    let v0 = DebView { window, clock: 0, pending: Seq::<PendingView>::empty() };
    assert(deb_wf(v0));
    assert(!has_path(v0.pending, path)) by {
        if has_path(v0.pending, path) {
            let i = path_index(v0.pending, path);
            assert(0 <= i < 0);
        }
    }
    lemma_record_seq_coalesces(v0, times, kinds, path);
    let v1 = record_seq_model(v0, times, kinds, path);
    assert(v1.pending.len() == 1);
    assert(v1.pending[0] == v1.pending.last());
    assert(v1.pending[0].deadline <= flush_time);
    assert(due_prefix(v1.pending, flush_time) == 1) by {
        assert(v1.pending.drop_first().len() == 0);
        assert(due_prefix(v1.pending.drop_first(), flush_time) == 0);
    }
    assert(flushed_events(v1, flush_time).len() == 1);
    assert(flushed_events(v1, flush_time)[0] == (v1.pending[0].kind, v1.pending[0].path));
    assert(v1.pending[0].kind == folded_kind(kinds[0], kinds.drop_first()));
    assert(flush_model(v1, flush_time).pending.len() == 0);
}

} // verus!
