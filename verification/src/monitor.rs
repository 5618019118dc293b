//! The session engine: keeps the current activity state, the session of the
//! application in the foreground, and the history of closed sessions.

use std::time::{Duration, SystemTime, SystemTimeError};
use vstd::prelude::*;

verus! {

/// Activity state of the system at a given moment.
#[derive(Debug, Clone, Copy, PartialEq, Eq, Structural)]
pub enum ActivityState {
    /// The user is interacting.
    Active,
    /// The system detected inactivity.
    Idle,
    /// The user session is locked.
    Locked,
    /// The machine is suspended.
    Suspended,
}

/// One usage session of an application window.
pub struct Session {
    pub window_title: String,
    pub process_name: String,
    pub application_name: String,
    /// Start instant (unix millis).
    pub started_at: u64,
    /// End instant (unix millis); 0 while the session is open.
    pub ended_at: u64,
    /// Total duration in milliseconds, computed when the session closes.
    pub duration_ms: u64,
    /// True when the session ran while the system was idle.
    pub is_idle: bool,
}

/// `a - b`, or 0 when `b > a` (what `u64::saturating_sub` computes).
pub open spec fn span_ms(a: u64, b: u64) -> u64 {
    if a >= b { (a - b) as u64 } else { 0 }
}

/// The session that `Session::new` builds.
pub open spec fn opened_session(
    window_title: String,
    process_name: String,
    application_name: String,
    started_at: u64,
    is_idle: bool,
) -> Session {
    Session {
        window_title,
        process_name,
        application_name,
        started_at,
        ended_at: 0,
        duration_ms: 0,
        is_idle,
    }
}

/// The session `s` once closed at `ended_at`.
pub open spec fn finalized(s: Session, ended_at: u64) -> Session {
    Session { ended_at, duration_ms: span_ms(ended_at, s.started_at), ..s }
}

impl Session {
    pub fn new(
        window_title: String,
        process_name: String,
        application_name: String,
        started_at: u64,
        is_idle: bool,
    ) -> (s: Self)
        ensures
            s == opened_session(window_title, process_name, application_name, started_at, is_idle),
    {
        Session {
            window_title,
            process_name,
            application_name,
            started_at,
            ended_at: 0,
            duration_ms: 0,
            is_idle,
        }
    }

    /// Closes the session at `ended_at` and computes its duration.
    pub fn finalize(&mut self, ended_at: u64)
        ensures
            *final(self) == finalized(*old(self), ended_at),
            final(self).ended_at == ended_at,
            final(self).duration_ms == span_ms(ended_at, old(self).started_at),
            final(self).window_title == old(self).window_title,
            final(self).process_name == old(self).process_name,
            final(self).application_name == old(self).application_name,
            final(self).started_at == old(self).started_at,
            final(self).is_idle == old(self).is_idle,
    {
        self.ended_at = ended_at;
        self.duration_ms = ended_at.saturating_sub(self.started_at);
    }
}

impl Clone for Session {
    fn clone(&self) -> (res: Self)
        ensures
            res == *self,
    {
        Session {
            window_title: self.window_title.clone(),
            process_name: self.process_name.clone(),
            application_name: self.application_name.clone(),
            started_at: self.started_at,
            ended_at: self.ended_at,
            duration_ms: self.duration_ms,
            is_idle: self.is_idle,
        }
    }
}


/// The abstract state of a `Monitor`.
pub struct MonitorModel {
    pub state: ActivityState,
    pub active: Option<Session>,
    pub history: Seq<Session>,
    pub idle_threshold_ms: u64,
}

impl MonitorModel {
    /// What every reachable monitor state satisfies: each session of the
    /// history carries the duration computed from its own bounds, and the
    /// open session has not been closed yet.
    pub open spec fn well_formed(self) -> bool {
        &&& forall|i: int|
            0 <= i < self.history.len() ==> (#[trigger] self.history[i]).duration_ms == span_ms(
                self.history[i].ended_at,
                self.history[i].started_at,
            )
        &&& self.active matches Some(s) ==> s.ended_at == 0 && s.duration_ms == 0
    }

    /// The session that closing the active one at `now` hands back.
    pub open spec fn closing(self, now: u64) -> Option<Session> {
        match self.active {
            Some(s) => Some(finalized(s, now)),
            None => None,
        }
    }

    /// The state after closing the active session at `now`.
    pub open spec fn after_close(self, now: u64) -> MonitorModel {
        match self.active {
            Some(s) => MonitorModel {
                active: None,
                history: self.history.push(finalized(s, now)),
                ..self
            },
            None => self,
        }
    }

    /// Whether a tick for `process_name` opens a new session.
    pub open spec fn opens_session(self, process_name: Seq<char>) -> bool {
        match self.active {
            None => true,
            Some(s) => s.process_name@ != process_name,
        }
    }

    /// The state after a tick.
    pub open spec fn after_tick(
        self,
        window_title: String,
        process_name: String,
        application_name: String,
        now: u64,
    ) -> MonitorModel {
        let is_idle = self.state == ActivityState::Idle;
        if self.opens_session(process_name@) {
            MonitorModel {
                active: Some(
                    opened_session(window_title, process_name, application_name, now, is_idle),
                ),
                ..self.after_close(now)
            }
        } else {
            MonitorModel {
                active: Some(Session { window_title, is_idle, ..self.active.unwrap() }),
                ..self
            }
        }
    }

    /// What a tick hands back: the closed session, if the tick closed one.
    pub open spec fn tick_result(self, process_name: Seq<char>, now: u64) -> Option<Session> {
        if self.opens_session(process_name) {
            self.closing(now)
        } else {
            None
        }
    }

    /// Whether moving to `state` closes the active session.
    pub open spec fn closes_on(state: ActivityState) -> bool {
        state == ActivityState::Locked || state == ActivityState::Suspended
    }

    /// The state after switching the activity state to `state` at `now`.
    pub open spec fn after_set_activity(self, state: ActivityState, now: u64) -> MonitorModel {
        let m = if Self::closes_on(state) { self.after_close(now) } else { self };
        MonitorModel { state, ..m }
    }

    /// The state after `clear`.
    pub open spec fn after_clear(self) -> MonitorModel {
        MonitorModel { active: None, history: Seq::empty(), ..self }
    }
}


/// Statistics aggregated for one application (keyed by process name).
pub struct AppStats {
    pub application_name: String,
    pub process_name: String,
    pub total_duration_ms: u64,
    pub session_count: u64,
    pub first_seen: u64,
    pub last_seen: u64,
}

impl Clone for AppStats {
    fn clone(&self) -> (res: Self)
        ensures
            res == *self,
    {
        AppStats {
            application_name: self.application_name.clone(),
            process_name: self.process_name.clone(),
            total_duration_ms: self.total_duration_ms,
            session_count: self.session_count,
            first_seen: self.first_seen,
            last_seen: self.last_seen,
        }
    }
}

/// One stretch of use of an application, as the statistics see it.
pub struct UsageSpan {
    pub process: Seq<char>,
    pub application: Seq<char>,
    pub start: u64,
    pub end: u64,
    pub duration: u64,
}

/// The span of a closed session: its own bounds and stored duration.
pub open spec fn closed_span(s: Session) -> UsageSpan {
    UsageSpan {
        process: s.process_name@,
        application: s.application_name@,
        start: s.started_at,
        end: s.ended_at,
        duration: s.duration_ms,
    }
}

/// The span of the open session, counted up to `now`.
pub open spec fn open_span(s: Session, now: u64) -> UsageSpan {
    UsageSpan {
        process: s.process_name@,
        application: s.application_name@,
        start: s.started_at,
        end: now,
        duration: span_ms(now, s.started_at),
    }
}

/// Everything the statistics count at instant `now`: the closed sessions in
/// order, then the open session, if any.
pub open spec fn usage_spans(m: MonitorModel, now: u64) -> Seq<UsageSpan> {
    let closed = m.history.map_values(|s: Session| closed_span(s));
    match m.active {
        Some(a) => closed.push(open_span(a, now)),
        None => closed,
    }
}

/// Whether some span belongs to process `p`.
pub open spec fn mentions(spans: Seq<UsageSpan>, p: Seq<char>) -> bool {
    exists|i: int| 0 <= i < spans.len() && (#[trigger] spans[i]).process == p
}

/// Sum of the durations of the spans of `p`.
pub open spec fn total_for(spans: Seq<UsageSpan>, p: Seq<char>) -> nat
    decreases spans.len(),
{
    if spans.len() == 0 {
        0
    } else {
        total_for(spans.drop_last(), p) + if spans.last().process == p {
            spans.last().duration as nat
        } else {
            0
        }
    }
}

/// Number of spans of `p`.
pub open spec fn count_for(spans: Seq<UsageSpan>, p: Seq<char>) -> nat
    decreases spans.len(),
{
    if spans.len() == 0 {
        0
    } else {
        count_for(spans.drop_last(), p) + if spans.last().process == p {
            1nat
        } else {
            0nat
        }
    }
}

/// The earliest start among the spans of `p` (`u64::MAX` when none).
pub open spec fn first_seen_for(spans: Seq<UsageSpan>, p: Seq<char>) -> u64
    decreases spans.len(),
{
    if spans.len() == 0 {
        u64::MAX
    } else {
        let r = first_seen_for(spans.drop_last(), p);
        if spans.last().process == p && spans.last().start < r {
            spans.last().start
        } else {
            r
        }
    }
}

/// The latest end among the spans of `p` (0 when none).
pub open spec fn last_seen_for(spans: Seq<UsageSpan>, p: Seq<char>) -> u64
    decreases spans.len(),
{
    if spans.len() == 0 {
        0
    } else {
        let r = last_seen_for(spans.drop_last(), p);
        if spans.last().process == p && spans.last().end > r {
            spans.last().end
        } else {
            r
        }
    }
}

/// The application name of the first span of `p`.
pub open spec fn application_for(spans: Seq<UsageSpan>, p: Seq<char>) -> Seq<char>
    decreases spans.len(),
{
    if spans.len() == 0 {
        Seq::empty()
    } else if mentions(spans.drop_last(), p) {
        application_for(spans.drop_last(), p)
    } else {
        spans.last().application
    }
}

/// `e` holds the exact aggregate of the spans of its process.
pub open spec fn describes(spans: Seq<UsageSpan>, e: AppStats) -> bool {
    let p = e.process_name@;
    &&& mentions(spans, p)
    &&& e.application_name@ == application_for(spans, p)
    &&& e.total_duration_ms == total_for(spans, p)
    &&& e.session_count == count_for(spans, p)
    &&& e.first_seen == first_seen_for(spans, p)
    &&& e.last_seen == last_seen_for(spans, p)
}

/// `v` holds one entry per process that occurs in `spans`, each exact.
pub open spec fn is_stats_of(v: Seq<AppStats>, spans: Seq<UsageSpan>) -> bool {
    &&& forall|k: int| 0 <= k < v.len() ==> describes(spans, #[trigger] v[k])
    &&& forall|p: Seq<char>|
        #[trigger] mentions(spans, p) ==> exists|k: int|
            0 <= k < v.len() && (#[trigger] v[k]).process_name@ == p
    &&& forall|a: int, b: int|
        0 <= a < b < v.len() ==> (#[trigger] v[a]).process_name@ != (#[trigger] v[b]).process_name@
}

/// Entries in order of decreasing total duration.
pub open spec fn sorted_by_total(v: Seq<AppStats>) -> bool {
    forall|a: int, b: int|
        0 <= a < b < v.len() ==> (#[trigger] v[a]).total_duration_ms >= (#[trigger] v[b]).total_duration_ms
}

/// Every per-process total and count fits in a `u64`.
pub open spec fn stats_fit(spans: Seq<UsageSpan>) -> bool {
    forall|p: Seq<char>|
        #![trigger total_for(spans, p)]
        #![trigger count_for(spans, p)]
        total_for(spans, p) <= u64::MAX && count_for(spans, p) <= u64::MAX
}

/// A process that no span mentions has empty aggregates.
proof fn lemma_absent(spans: Seq<UsageSpan>, p: Seq<char>)
    requires
        !mentions(spans, p),
    ensures
        total_for(spans, p) == 0,
        count_for(spans, p) == 0,
        first_seen_for(spans, p) == u64::MAX,
        last_seen_for(spans, p) == 0,
    decreases spans.len(),
{
    if spans.len() > 0 {
        let d = spans.drop_last();
        assert(!mentions(d, p)) by {
            if mentions(d, p) {
                let i = choose|i: int| 0 <= i < d.len() && (#[trigger] d[i]).process == p;
                assert(spans[i] == d[i]);
            }
        }
        assert(spans[spans.len() - 1] == spans.last());
        lemma_absent(d, p);
    }
}

/// Aggregates over a prefix never exceed those over the whole sequence.
proof fn lemma_prefix_bounded(spans: Seq<UsageSpan>, k: int, p: Seq<char>)
    requires
        0 <= k <= spans.len(),
    ensures
        total_for(spans.take(k), p) <= total_for(spans, p),
        count_for(spans.take(k), p) <= count_for(spans, p),
    decreases spans.len(),
{
    if k == spans.len() {
        assert(spans.take(k) =~= spans);
    } else {
        let d = spans.drop_last();
        assert(d.take(k) =~= spans.take(k));
        lemma_prefix_bounded(d, k, p);
    }
}

/// The number of spans of a process is at most the number of spans.
proof fn lemma_count_bounded(spans: Seq<UsageSpan>, p: Seq<char>)
    ensures
        count_for(spans, p) <= spans.len(),
    decreases spans.len(),
{
    if spans.len() > 0 {
        lemma_count_bounded(spans.drop_last(), p);
    }
}

/// The position of the entry for `process`, if there is one.
fn find_entry(acc: &Vec<AppStats>, process: &String) -> (r: Option<usize>)
    ensures
        r matches Some(j) ==> j < acc.len() && acc@[j as int].process_name@ == process@,
        r is None ==> forall|k: int| 0 <= k < acc.len() ==> (#[trigger] acc@[k]).process_name@ != process@,
{
    for j in 0..acc.len()
        invariant
            forall|k: int| 0 <= k < j ==> (#[trigger] acc@[k]).process_name@ != process@,
    {
        if acc[j].process_name == *process {
            return Some(j);
        }
    }
    None
}

/// Counts one more span in `acc`. Returns false, leaving the statistics
/// unusable, when the total or the count of its process overflows.
fn add_span(
    acc: &mut Vec<AppStats>,
    process: &String,
    application: &String,
    start: u64,
    end: u64,
    duration: u64,
    Ghost(spans): Ghost<Seq<UsageSpan>>,
) -> (ok: bool)
    requires
        is_stats_of(old(acc)@, spans),
    ensures
        ok ==> is_stats_of(
            final(acc)@,
            spans.push(
                UsageSpan {
                    process: process@,
                    application: application@,
                    start,
                    end,
                    duration,
                },
            ),
        ),
        !ok ==> {
            let s2 = spans.push(
                UsageSpan {
                    process: process@,
                    application: application@,
                    start,
                    end,
                    duration,
                },
            );
            total_for(s2, process@) > u64::MAX || count_for(s2, process@) > u64::MAX
        },
{
    let ghost span = UsageSpan { process: process@, application: application@, start, end, duration };
    let ghost s2 = spans.push(span);
    proof {
        assert(s2.drop_last() =~= spans);
        assert(s2.last() == span);
        assert forall|q: Seq<char>| #[trigger] mentions(s2, q) && q != process@ implies mentions(spans, q) by {
            let i = choose|i: int| 0 <= i < s2.len() && (#[trigger] s2[i]).process == q;
            assert(spans[i] == s2[i]);
        }
        assert forall|q: Seq<char>| #[trigger] mentions(spans, q) implies mentions(s2, q) by {
            let i = choose|i: int| 0 <= i < spans.len() && (#[trigger] spans[i]).process == q;
            assert(spans[i] == s2[i]);
        }
        assert(mentions(s2, process@)) by {
            assert(s2[spans.len() as int] == span);
        }
    }
    match find_entry(acc, process) {
        Some(j) => {
            let e = &acc[j];
            proof {
                assert(describes(spans, acc@[j as int]));
            }
            let total = match e.total_duration_ms.checked_add(duration) {
                Some(t) => t,
                None => {
                    return false;
                },
            };
            let count = match e.session_count.checked_add(1) {
                Some(c) => c,
                None => {
                    return false;
                },
            };
            let first = if start < e.first_seen {
                start
            } else {
                e.first_seen
            };
            let last = if end > e.last_seen {
                end
            } else {
                e.last_seen
            };
            let updated = AppStats {
                application_name: e.application_name.clone(),
                process_name: e.process_name.clone(),
                total_duration_ms: total,
                session_count: count,
                first_seen: first,
                last_seen: last,
            };
            let ghost old_acc = acc@;
            acc.set(j, updated);
            proof {
                assert(describes(s2, acc@[j as int]));
                assert forall|k: int| 0 <= k < acc@.len() implies describes(s2, #[trigger] acc@[k]) by {
                    if k != j {
                        assert(acc@[k] == old_acc[k]);
                        assert(describes(spans, old_acc[k]));
                        assert(old_acc[k].process_name@ != process@);
                    }
                }
                assert forall|q: Seq<char>| #[trigger] mentions(s2, q) implies exists|k: int|
                    0 <= k < acc@.len() && (#[trigger] acc@[k]).process_name@ == q by {
                    if q == process@ {
                        assert(acc@[j as int].process_name@ == q);
                    } else {
                        assert(mentions(spans, q));
                        let k = choose|k: int| 0 <= k < old_acc.len() && (#[trigger] old_acc[k]).process_name@ == q;
                        assert(acc@[k].process_name@ == q);
                    }
                }
                assert forall|a: int, b: int| 0 <= a < b < acc@.len() implies (#[trigger] acc@[a]).process_name@
                    != (#[trigger] acc@[b]).process_name@ by {
                    assert(old_acc[a].process_name@ != old_acc[b].process_name@);
                }
            }
            true
        },
        None => {
            proof {
                if mentions(spans, process@) {
                    let k = choose|k: int| 0 <= k < old(acc)@.len() && (#[trigger] old(acc)@[k]).process_name@ == process@;
                }
                lemma_absent(spans, process@);
            }
            let entry = AppStats {
                application_name: application.clone(),
                process_name: process.clone(),
                total_duration_ms: duration,
                session_count: 1,
                first_seen: start,
                last_seen: end,
            };
            let ghost old_acc = acc@;
            acc.push(entry);
            proof {
                let n = old_acc.len() as int;
                assert(acc@[n] == entry);
                assert(describes(s2, entry));
                assert forall|k: int| 0 <= k < acc@.len() implies describes(s2, #[trigger] acc@[k]) by {
                    if k != n {
                        assert(acc@[k] == old_acc[k]);
                        assert(describes(spans, old_acc[k]));
                        assert(old_acc[k].process_name@ != process@);
                    }
                }
                assert forall|q: Seq<char>| #[trigger] mentions(s2, q) implies exists|k: int|
                    0 <= k < acc@.len() && (#[trigger] acc@[k]).process_name@ == q by {
                    if q == process@ {
                        assert(acc@[n].process_name@ == q);
                    } else {
                        assert(mentions(spans, q));
                        let k = choose|k: int| 0 <= k < old_acc.len() && (#[trigger] old_acc[k]).process_name@ == q;
                        assert(acc@[k].process_name@ == q);
                    }
                }
                assert forall|a: int, b: int| 0 <= a < b < acc@.len() implies (#[trigger] acc@[a]).process_name@
                    != (#[trigger] acc@[b]).process_name@ by {
                    if b == n {
                        assert(old_acc[a].process_name@ != process@);
                    } else {
                        assert(old_acc[a].process_name@ != old_acc[b].process_name@);
                    }
                }
            }
            true
        },
    }
}


/// Inserts `x` after every entry whose total is at least its own.
fn insert_by_total(out: &mut Vec<AppStats>, x: AppStats) -> (pos: usize)
    requires
        sorted_by_total(old(out)@),
    ensures
        pos <= old(out)@.len(),
        final(out)@ == old(out)@.insert(pos as int, x),
        sorted_by_total(final(out)@),
{
    let mut pos: usize = 0;
    while pos < out.len() && out[pos].total_duration_ms >= x.total_duration_ms
        invariant
            pos <= out@.len(),
            forall|k: int| 0 <= k < pos ==> (#[trigger] out@[k]).total_duration_ms >= x.total_duration_ms,
        decreases out@.len() - pos,
    {
        pos = pos + 1;
    }
    let ghost before = out@;
    proof {
        assert forall|k: int| pos <= k < before.len() implies (#[trigger] before[k]).total_duration_ms
            < x.total_duration_ms by {
            if k > pos {
                assert(before[pos as int].total_duration_ms >= before[k].total_duration_ms);
            }
        }
    }
    out.insert(pos, x);
    proof {
        let after = out@;
        assert forall|k: int| 0 <= k < after.len() implies #[trigger] after[k] == (if k < pos {
            before[k]
        } else if k == pos {
            x
        } else {
            before[k - 1]
        }) by {}
        assert forall|a: int, b: int| 0 <= a < b < after.len() implies (#[trigger] after[a]).total_duration_ms
            >= (#[trigger] after[b]).total_duration_ms by {
            if a < pos && b > pos {
                assert(before[a].total_duration_ms >= before[b - 1].total_duration_ms);
            } else if a > pos {
                assert(before[a - 1].total_duration_ms >= before[b - 1].total_duration_ms);
            }
        }
    }
    pos
}

/// The entries of `out` carry exactly the process names of `orig[..n]`.
pub open spec fn same_names(out: Seq<AppStats>, orig: Seq<AppStats>, n: int) -> bool {
    &&& forall|k: int|
        0 <= k < out.len() ==> exists|j: int|
            0 <= j < n && (#[trigger] out[k]).process_name@ == orig[j].process_name@
    &&& forall|j: int|
        0 <= j < n ==> exists|k: int|
            0 <= k < out.len() && (#[trigger] out[k]).process_name@ == (#[trigger] orig[j]).process_name@
}

/// Where the elements of a sequence go when one element is inserted.
proof fn lemma_insert_index(before: Seq<AppStats>, pos: int, x: AppStats)
    requires
        0 <= pos <= before.len(),
    ensures
        forall|k: int|
            0 <= k < before.len() + 1 ==> #[trigger] before.insert(pos, x)[k] == (if k < pos {
                before[k]
            } else if k == pos {
                x
            } else {
                before[k - 1]
            }),
{
}

/// Inserting the next entry of `orig` keeps every entry exact.
proof fn lemma_insert_describes(before: Seq<AppStats>, pos: int, x: AppStats, spans: Seq<UsageSpan>)
    requires
        0 <= pos <= before.len(),
        describes(spans, x),
        forall|k: int| 0 <= k < before.len() ==> describes(spans, #[trigger] before[k]),
    ensures
        forall|k: int| 0 <= k < before.len() + 1 ==> describes(spans, #[trigger] before.insert(pos, x)[k]),
{
    lemma_insert_index(before, pos, x);
    let after = before.insert(pos, x);
    assert forall|k: int| 0 <= k < after.len() implies describes(spans, #[trigger] after[k]) by {
        if k > pos {
            assert(describes(spans, before[k - 1]));
        } else if k < pos {
            assert(describes(spans, before[k]));
        }
    }
}

/// Inserting the next entry of `orig` keeps the names in step.
proof fn lemma_insert_names(before: Seq<AppStats>, orig: Seq<AppStats>, i: int, pos: int)
    requires
        0 <= i < orig.len(),
        0 <= pos <= before.len(),
        same_names(before, orig, i),
    ensures
        same_names(before.insert(pos, orig[i]), orig, i + 1),
{
    let x = orig[i];
    lemma_insert_index(before, pos, x);
    let after = before.insert(pos, x);
    assert forall|k: int| 0 <= k < after.len() implies exists|j: int|
        0 <= j < i + 1 && (#[trigger] after[k]).process_name@ == orig[j].process_name@ by {
        if k == pos {
            assert(after[k].process_name@ == orig[i].process_name@);
        } else {
            let kk = if k < pos { k } else { k - 1 };
            let j = choose|j: int| 0 <= j < i && (#[trigger] before[kk]).process_name@ == orig[j].process_name@;
            assert(after[k].process_name@ == orig[j].process_name@);
        }
    }
    assert forall|j: int| 0 <= j < i + 1 implies exists|k: int|
        0 <= k < after.len() && (#[trigger] after[k]).process_name@ == (#[trigger] orig[j]).process_name@ by {
        if j == i {
            assert(after[pos].process_name@ == orig[j].process_name@);
        } else {
            let kk = choose|kk: int| 0 <= kk < before.len() && (#[trigger] before[kk]).process_name@ == (#[trigger] orig[j]).process_name@;
            if kk < pos {
                assert(after[kk].process_name@ == orig[j].process_name@);
            } else {
                assert(after[kk + 1].process_name@ == orig[j].process_name@);
            }
        }
    }
}

/// Inserting an entry of `orig` not yet taken keeps the names distinct.
proof fn lemma_insert_distinct(before: Seq<AppStats>, orig: Seq<AppStats>, i: int, pos: int)
    requires
        0 <= i < orig.len(),
        0 <= pos <= before.len(),
        same_names(before, orig, i),
        forall|a: int, b: int|
            0 <= a < b < orig.len() ==> (#[trigger] orig[a]).process_name@ != (#[trigger] orig[b]).process_name@,
        forall|a: int, b: int|
            0 <= a < b < before.len() ==> (#[trigger] before[a]).process_name@ != (#[trigger] before[b]).process_name@,
    ensures
        forall|a: int, b: int|
            0 <= a < b < before.len() + 1 ==> (#[trigger] before.insert(pos, orig[i])[a]).process_name@
                != (#[trigger] before.insert(pos, orig[i])[b]).process_name@,
{
    let x = orig[i];
    lemma_insert_index(before, pos, x);
    let after = before.insert(pos, x);
    assert forall|k: int| 0 <= k < before.len() implies (#[trigger] before[k]).process_name@
        != x.process_name@ by {
        let j = choose|j: int| 0 <= j < i && (#[trigger] before[k]).process_name@ == orig[j].process_name@;
        assert(orig[j].process_name@ != orig[i].process_name@);
    }
    assert forall|a: int, b: int| 0 <= a < b < after.len() implies (#[trigger] after[a]).process_name@
        != (#[trigger] after[b]).process_name@ by {
        if a != pos && b != pos {
            let aa = if a < pos { a } else { a - 1 };
            let bb = if b < pos { b } else { b - 1 };
            assert(before[aa].process_name@ != before[bb].process_name@);
        } else if a == pos {
            assert(after[b] == before[b - 1]);
        } else {
            assert(after[a] == before[a]);
        }
    }
}

/// Orders the statistics by decreasing total duration; entries with equal
/// totals keep their relative order.
#[verifier::spinoff_prover]
fn sort_by_total(stats: Vec<AppStats>, Ghost(spans): Ghost<Seq<UsageSpan>>) -> (r: Vec<AppStats>)
    requires
        is_stats_of(stats@, spans),
    ensures
        is_stats_of(r@, spans),
        sorted_by_total(r@),
        r@.len() == stats@.len(),
{
    let ghost orig = stats@;
    let ghost n = orig.len() as int;
    let mut rest = stats;
    let mut out: Vec<AppStats> = Vec::new();
    while rest.len() > 0
        invariant
            forall|k: int| 0 <= k < orig.len() ==> describes(spans, #[trigger] orig[k]),
            forall|a: int, b: int|
                0 <= a < b < orig.len() ==> (#[trigger] orig[a]).process_name@ != (#[trigger] orig[b]).process_name@,
            n == orig.len(),
            rest@ == orig.subrange(n - rest@.len(), n),
            out@.len() == n - rest@.len(),
            sorted_by_total(out@),
            same_names(out@, orig, out@.len() as int),
            forall|k: int| 0 <= k < out@.len() ==> describes(spans, #[trigger] out@[k]),
            forall|a: int, b: int|
                0 <= a < b < out@.len() ==> (#[trigger] out@[a]).process_name@ != (#[trigger] out@[b]).process_name@,
        decreases rest@.len(),
    {
        let ghost i = out@.len() as int;
        let ghost before = out@;
        let x = rest.remove(0);
        proof {
            assert(x == orig[i]);
            assert(rest@ =~= orig.subrange(i + 1, n));
        }
        let pos = insert_by_total(&mut out, x);
        proof {
            assert(describes(spans, orig[i]));
            lemma_insert_describes(before, pos as int, x, spans);
            lemma_insert_names(before, orig, i, pos as int);
            lemma_insert_distinct(before, orig, i, pos as int);
        }
    }
    proof {
        assert forall|p: Seq<char>| #[trigger] mentions(spans, p) implies exists|k: int|
            0 <= k < out@.len() && (#[trigger] out@[k]).process_name@ == p by {
            let j = choose|j: int| 0 <= j < orig.len() && (#[trigger] orig[j]).process_name@ == p;
            let k = choose|k: int| 0 <= k < out@.len() && (#[trigger] out@[k]).process_name@ == (#[trigger] orig[j]).process_name@;
        }
    }
    out
}

/// The monitor: activity state, active session and history.
pub struct Monitor {
    state: ActivityState,
    active: Option<Session>,
    sessions: Vec<Session>,
    idle_threshold_ms: u64,
}

impl View for Monitor {
    type V = MonitorModel;

    closed spec fn view(&self) -> MonitorModel {
        MonitorModel {
            state: self.state,
            active: self.active,
            history: self.sessions@,
            idle_threshold_ms: self.idle_threshold_ms,
        }
    }
}

impl Monitor {
    pub fn new(idle_threshold_ms: u64) -> (m: Self)
        ensures
            m@ == (MonitorModel {
                state: ActivityState::Active,
                active: None,
                history: Seq::empty(),
                idle_threshold_ms,
            }),
            m@.well_formed(),
    {
        Monitor { state: ActivityState::Active, active: None, sessions: Vec::new(), idle_threshold_ms }
    }

    pub fn idle_threshold_ms(&self) -> (t: u64)
        ensures
            t == self@.idle_threshold_ms,
    {
        self.idle_threshold_ms
    }

    /// Changes the activity state; locking or suspending closes the
    /// active session first.
    pub fn set_activity(&mut self, state: ActivityState, now: u64)
        ensures
            final(self)@ == old(self)@.after_set_activity(state, now),
            old(self)@.well_formed() ==> final(self)@.well_formed(),
    {
        if matches!(state, ActivityState::Locked | ActivityState::Suspended) {
            self.close_active(now);
        }
        self.state = state;
    }

    /// Processes one sample of the foreground window. Returns the session
    /// that this sample closed, if any.
    pub fn tick(
        &mut self,
        window_title: String,
        process_name: String,
        application_name: String,
        now: u64,
    ) -> (closed: Option<Session>)
        ensures
            final(self)@ == old(self)@.after_tick(
                window_title,
                process_name,
                application_name,
                now,
            ),
            closed == old(self)@.tick_result(process_name@, now),
            old(self)@.well_formed() ==> final(self)@.well_formed(),
            old(self)@.opens_session(process_name@) ==> final(self)@.active == Some(
                (Session {
                    window_title,
                    process_name,
                    application_name,
                    started_at: now,
                    ended_at: 0,
                    duration_ms: 0,
                    is_idle: old(self)@.state == ActivityState::Idle,
                }),
            ),
    {
        let is_idle = self.state == ActivityState::Idle;
        let need_new = match &self.active {
            None => true,
            Some(s) => s.process_name != process_name,
        };
        if need_new {
            let closed = self.close_active(now);
            let session = Session::new(window_title, process_name, application_name, now, is_idle);
            self.active = Some(session);
            closed
        } else {
            let mut s = self.active.take().unwrap();
            s.window_title = window_title;
            s.is_idle = is_idle;
            self.active = Some(s);
            None
        }
    }

    /// Closes the active session and moves it to the history.
    pub fn close_active(&mut self, now: u64) -> (closed: Option<Session>)
        ensures
            final(self)@ == old(self)@.after_close(now),
            closed == old(self)@.closing(now),
            old(self)@.well_formed() ==> final(self)@.well_formed(),
    {
        match self.active.take() {
            None => None,
            Some(mut session) => {
                session.finalize(now);
                let closed = Some(session.clone());
                self.sessions.push(session);
                closed
            },
        }
    }

    pub fn active_session(&self) -> (s: Option<&Session>)
        ensures
            s.is_some() == self@.active.is_some(),
            s matches Some(x) ==> *x == self@.active.unwrap(),
    {
        match &self.active {
            Some(x) => Some(x),
            None => None,
        }
    }

    pub fn sessions(&self) -> (s: &[Session])
        ensures
            s@ == self@.history,
    {
        self.sessions.as_slice()
    }

    /// Empties the history and drops the active session.
    pub fn clear(&mut self)
        ensures
            final(self)@ == old(self)@.after_clear(),
            final(self)@.well_formed(),
    {
        self.active = None;
        self.sessions.clear();
    }

    /// Aggregates the history and the open session, counted up to `now`, in
    /// order of first appearance. `None` when a total or a count overflows.
    fn collect_stats(&self, now: u64) -> (r: Option<Vec<AppStats>>)
        ensures
            r is Some <==> stats_fit(usage_spans(self@, now)),
            r matches Some(v) ==> is_stats_of(v@, usage_spans(self@, now)),
    {
        let ghost all = usage_spans(self@, now);
        let ghost closed = self@.history.map_values(|s: Session| closed_span(s));
        let mut acc: Vec<AppStats> = Vec::new();
        proof {
            assert(closed.take(0) =~= Seq::<UsageSpan>::empty());
        }
        let n = self.sessions.len();
        for i in 0..n
            invariant
                n == self@.history.len(),
                closed == self@.history.map_values(|s: Session| closed_span(s)),
                all == usage_spans(self@, now),
                is_stats_of(acc@, closed.take(i as int)),
        {
            let s = &self.sessions[i];
            proof {
                assert(closed.take(i + 1) =~= closed.take(i as int).push(closed_span(*s)));
                assert(all.take(i + 1) =~= closed.take(i + 1));
            }
            if !add_span(
                &mut acc,
                &s.process_name,
                &s.application_name,
                s.started_at,
                s.ended_at,
                s.duration_ms,
                Ghost(closed.take(i as int)),
            ) {
                proof {
                    lemma_prefix_bounded(all, i + 1, s.process_name@);
                }
                return None;
            }
        }
        proof {
            assert(closed.take(n as int) =~= closed);
        }
        match &self.active {
            Some(a) => {
                if !add_span(
                    &mut acc,
                    &a.process_name,
                    &a.application_name,
                    a.started_at,
                    now,
                    now.saturating_sub(a.started_at),
                    Ghost(closed),
                ) {
                    return None;
                }
            },
            None => {},
        }
        proof {
            assert forall|p: Seq<char>| #![trigger total_for(all, p)] #![trigger count_for(all, p)]
                total_for(all, p) <= u64::MAX && count_for(all, p) <= u64::MAX by {
                if mentions(all, p) {
                    let k = choose|k: int| 0 <= k < acc@.len() && (#[trigger] acc@[k]).process_name@ == p;
                    assert(describes(all, acc@[k]));
                } else {
                    lemma_absent(all, p);
                }
            }
        }
        Some(acc)
    }

    /// Statistics per application with the open session counted up to
    /// `now`, in order of decreasing total duration. `None` when a total or
    /// a count does not fit in a `u64`.
    pub fn app_stats_at(&self, now: u64) -> (r: Option<Vec<AppStats>>)
        ensures
            r is Some <==> stats_fit(usage_spans(self@, now)),
            r matches Some(v) ==> is_stats_of(v@, usage_spans(self@, now)) && sorted_by_total(v@),
    {
        match self.collect_stats(now) {
            Some(v) => Some(sort_by_total(v, Ghost(usage_spans(self@, now)))),
            None => None,
        }
    }

    /// Statistics per application, with the open session counted up to the
    /// current time. Empty when a total or a count would overflow.
    pub fn app_stats(&self) -> (r: Vec<AppStats>)
        ensures
            exists|now: u64|
                {
                    let spans = #[trigger] usage_spans(self@, now);
                    if stats_fit(spans) {
                        is_stats_of(r@, spans) && sorted_by_total(r@)
                    } else {
                        r@.len() == 0
                    }
                },
    {
        let now = now_millis();
        match self.app_stats_at(now) {
            Some(v) => v,
            None => Vec::new(),
        }
    }
}

#[verifier::external_type_specification]
#[verifier::external_body]
pub struct ExSystemTime(SystemTime);

#[verifier::external_type_specification]
#[verifier::external_body]
pub struct ExSystemTimeError(SystemTimeError);

/// Calls `std::time::SystemTime::now`, the wall clock. Nothing is claimed
/// of the instant it returns.
#[verifier::external_body]
fn system_time_now() -> SystemTime {
    SystemTime::now()
}

/// Calls `SystemTime::duration_since` with `UNIX_EPOCH`. Nothing is claimed
/// of the outcome: it depends on the clock reading passed in.
#[verifier::external_body]
fn since_unix_epoch(t: &SystemTime) -> Result<Duration, SystemTimeError> {
    t.duration_since(std::time::UNIX_EPOCH)
}

/// Calls `Duration::as_millis`. `Duration` is opaque here, so nothing is
/// claimed of the number of milliseconds.
#[verifier::external_body]
fn duration_as_millis(d: &Duration) -> u128 {
    d.as_millis()
}

/// Current time in milliseconds since the UNIX epoch (0 when the clock is
/// set before the epoch).
pub fn now_millis() -> u64 {
    let since_epoch = match since_unix_epoch(&system_time_now()) {
        Ok(d) => Some(duration_as_millis(&d)),
        Err(_) => None,
    };
    millis_or_zero(since_epoch)
}

/// The milliseconds since the epoch as a `u64` (keeping the low 64 bits),
/// or 0 when the clock reads before the epoch.
pub fn millis_or_zero(ms: Option<u128>) -> (r: u64)
    ensures
        r == match ms {
            Some(x) => x as u64,
            None => 0,
        },
{
    match ms {
        Some(x) => x as u64,
        None => 0,
    }
}

} // verus!
