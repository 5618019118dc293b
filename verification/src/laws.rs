//! Properties of the session engine that span several operations.

use crate::linux::{
    first_focused, first_focused_in, int_field_of, lookup, FieldValue, SwayNode,
};
use crate::monitor::{
    Session,
    count_for, mentions, total_for, UsageSpan, describes, finalized, is_stats_of, span_ms, usage_spans, ActivityState, AppStats, MonitorModel,
};
use vstd::prelude::*;

verus! {

/// Every operation keeps a well-formed monitor well formed: closed sessions
/// carry the duration of their own bounds and the open session is not
/// closed yet.
pub proof fn law_operations_keep_well_formed(
    m: MonitorModel,
    window_title: String,
    process_name: String,
    application_name: String,
    state: ActivityState,
    now: u64,
)
    requires
        m.well_formed(),
    ensures
        m.after_tick(window_title, process_name, application_name, now).well_formed(),
        m.after_close(now).well_formed(),
        m.after_set_activity(state, now).well_formed(),
        m.after_clear().well_formed(),
{
    let c = m.after_close(now);
    assert(c.well_formed()) by {
        if let Some(s) = m.active {
            assert forall|i: int| 0 <= i < c.history.len() implies (#[trigger] c.history[i]).duration_ms
                == span_ms(c.history[i].ended_at, c.history[i].started_at) by {
                if i < m.history.len() {
                    assert(c.history[i] == m.history[i]);
                }
            }
        }
    }
}

/// A second tick for the process already in the foreground neither closes
/// a session nor adds to the history: there is never more than one open
/// session per process.
pub proof fn law_same_process_does_not_duplicate(
    m: MonitorModel,
    title1: String,
    title2: String,
    process1: String,
    process2: String,
    app1: String,
    app2: String,
    t1: u64,
    t2: u64,
)
    requires
        process1@ == process2@,
    ensures
        ({
            let m1 = m.after_tick(title1, process1, app1, t1);
            let m2 = m1.after_tick(title2, process2, app2, t2);
            &&& m1.tick_result(process2@, t2) is None
            &&& m2.history == m1.history
            &&& m2.active.unwrap().window_title == title2
            &&& m2.active.unwrap().started_at == m1.active.unwrap().started_at
        }),
{
}

/// When the foreground process changes, the open session is closed at the
/// tick's instant, appended to the history and handed back, and a session
/// for the new process opens at that instant.
pub proof fn law_process_change_closes_and_opens(
    m: MonitorModel,
    window_title: String,
    process_name: String,
    application_name: String,
    now: u64,
)
    requires
        m.active is Some,
        m.active.unwrap().process_name@ != process_name@,
    ensures
        ({
            let closed = finalized(m.active.unwrap(), now);
            let m2 = m.after_tick(window_title, process_name, application_name, now);
            &&& m.tick_result(process_name@, now) == Some(closed)
            &&& m2.history == m.history.push(closed)
            &&& closed.ended_at == now
            &&& closed.duration_ms == span_ms(now, m.active.unwrap().started_at)
            &&& m2.active.unwrap().process_name == process_name
            &&& m2.active.unwrap().started_at == now
        }),
{
}

/// Locking or suspending leaves no open session; the one that was open is
/// the last entry of the history.
pub proof fn law_lock_and_suspend_close_the_session(m: MonitorModel, state: ActivityState, now: u64)
    requires
        state == ActivityState::Locked || state == ActivityState::Suspended,
    ensures
        m.after_set_activity(state, now).active is None,
        m.active is Some ==> m.after_set_activity(state, now).history == m.history.push(
            finalized(m.active.unwrap(), now),
        ),
        m.active is None ==> m.after_set_activity(state, now).history == m.history,
{
}

/// Becoming active or idle never touches the sessions.
pub proof fn law_active_and_idle_keep_sessions(m: MonitorModel, state: ActivityState, now: u64)
    requires
        state == ActivityState::Active || state == ActivityState::Idle,
    ensures
        m.after_set_activity(state, now).active == m.active,
        m.after_set_activity(state, now).history == m.history,
{
}

/// A tick while the system is idle marks the foreground session as idle,
/// and a tick while it is active marks it as not idle.
pub proof fn law_tick_records_idleness(
    m: MonitorModel,
    window_title: String,
    process_name: String,
    application_name: String,
    now: u64,
)
    ensures
        m.after_tick(window_title, process_name, application_name, now).active.unwrap().is_idle == (m.state
            == ActivityState::Idle),
        m.after_tick(window_title, process_name, application_name, now).active.unwrap().process_name@
            == process_name@,
        m.after_tick(window_title, process_name, application_name, now).active.unwrap().window_title
            == window_title,
{
}

/// The history only grows, by appending, under every operation but `clear`;
/// no operation changes the idle threshold.
pub proof fn law_history_is_append_only(
    m: MonitorModel,
    window_title: String,
    process_name: String,
    application_name: String,
    state: ActivityState,
    now: u64,
)
    ensures
        m.history.is_prefix_of(m.after_tick(window_title, process_name, application_name, now).history),
        m.history.is_prefix_of(m.after_close(now).history),
        m.history.is_prefix_of(m.after_set_activity(state, now).history),
        m.after_tick(window_title, process_name, application_name, now).idle_threshold_ms
            == m.idle_threshold_ms,
        m.after_close(now).idle_threshold_ms == m.idle_threshold_ms,
        m.after_set_activity(state, now).idle_threshold_ms == m.idle_threshold_ms,
        m.after_clear().idle_threshold_ms == m.idle_threshold_ms,
{
    assert(m.history.is_prefix_of(m.history));
    if let Some(s) = m.active {
        assert(m.history.is_prefix_of(m.history.push(finalized(s, now))));
    }
}

/// The session that closing hands back is the one appended to the history.
pub proof fn law_closed_session_is_recorded(m: MonitorModel, now: u64)
    requires
        m.active is Some,
    ensures
        m.after_close(now).active is None,
        m.after_close(now).history.len() == m.history.len() + 1,
        m.after_close(now).history.last() == m.closing(now).unwrap(),
{
}

/// After `clear` nothing is left to count: the statistics are empty.
pub proof fn law_clear_leaves_no_statistics(m: MonitorModel, now: u64, v: Seq<AppStats>)
    requires
        is_stats_of(v, usage_spans(m.after_clear(), now)),
    ensures
        v.len() == 0,
        m.after_clear().active is None,
        m.after_clear().history.len() == 0,
{
    let spans = usage_spans(m.after_clear(), now);
    assert(spans.len() == 0);
    if v.len() > 0 {
        assert(describes(spans, v[0]));
    }
}

/// Sum of the session counts of the entries.
pub open spec fn sum_counts(v: Seq<AppStats>) -> int
    decreases v.len(),
{
    if v.len() == 0 {
        0
    } else {
        sum_counts(v.drop_last()) + v.last().session_count
    }
}

/// Sum of the total durations of the entries.
pub open spec fn sum_totals(v: Seq<AppStats>) -> int
    decreases v.len(),
{
    if v.len() == 0 {
        0
    } else {
        sum_totals(v.drop_last()) + v.last().total_duration_ms
    }
}

/// Sum of the durations of the spans.
pub open spec fn sum_durations(spans: Seq<UsageSpan>) -> int
    decreases spans.len(),
{
    if spans.len() == 0 {
        0
    } else {
        sum_durations(spans.drop_last()) + spans.last().duration
    }
}

spec fn counts_over(names: Seq<Seq<char>>, spans: Seq<UsageSpan>) -> int
    decreases names.len(),
{
    if names.len() == 0 {
        0
    } else {
        counts_over(names.drop_last(), spans) + count_for(spans, names.last())
    }
}

spec fn totals_over(names: Seq<Seq<char>>, spans: Seq<UsageSpan>) -> int
    decreases names.len(),
{
    if names.len() == 0 {
        0
    } else {
        totals_over(names.drop_last(), spans) + total_for(spans, names.last())
    }
}

spec fn distinct(names: Seq<Seq<char>>) -> bool {
    forall|a: int, b: int| 0 <= a < b < names.len() ==> names[a] != names[b]
}

proof fn lemma_over_empty(names: Seq<Seq<char>>, spans: Seq<UsageSpan>)
    requires
        spans.len() == 0,
    ensures
        counts_over(names, spans) == 0,
        totals_over(names, spans) == 0,
    decreases names.len(),
{
    if names.len() > 0 {
        lemma_over_empty(names.drop_last(), spans);
    }
}

/// Adding the last span adds its weight once, to the one name it carries.
proof fn lemma_over_step(names: Seq<Seq<char>>, spans: Seq<UsageSpan>)
    requires
        spans.len() > 0,
        distinct(names),
    ensures
        counts_over(names, spans) == counts_over(names, spans.drop_last()) + if names.contains(
            spans.last().process,
        ) {
            1int
        } else {
            0int
        },
        totals_over(names, spans) == totals_over(names, spans.drop_last()) + if names.contains(
            spans.last().process,
        ) {
            spans.last().duration as int
        } else {
            0int
        },
    decreases names.len(),
{
    if names.len() > 0 {
        let d = names.drop_last();
        assert(distinct(d)) by {
            assert forall|a: int, b: int| 0 <= a < b < d.len() implies d[a] != d[b] by {
                assert(names[a] != names[b]);
            }
        }
        lemma_over_step(d, spans);
        let q = spans.last().process;
        if names.last() == q {
            assert(names.contains(q)) by {
                assert(names[names.len() - 1] == q);
            }
            assert(!d.contains(q)) by {
                if d.contains(q) {
                    let a = choose|a: int| 0 <= a < d.len() && d[a] == q;
                    assert(names[a] != names[names.len() - 1]);
                }
            }
        } else {
            assert(names.contains(q) == d.contains(q)) by {
                if names.contains(q) {
                    let a = choose|a: int| 0 <= a < names.len() && names[a] == q;
                    assert(a != names.len() - 1);
                    assert(d[a] == q);
                }
                if d.contains(q) {
                    let a = choose|a: int| 0 <= a < d.len() && d[a] == q;
                    assert(names[a] == q);
                }
            }
        }
    }
}

/// Over distinct names covering every span, the per-name aggregates add up
/// to the number of spans and to the sum of their durations.
proof fn lemma_over_covering(names: Seq<Seq<char>>, spans: Seq<UsageSpan>)
    requires
        distinct(names),
        forall|i: int| 0 <= i < spans.len() ==> names.contains(#[trigger] spans[i].process),
    ensures
        counts_over(names, spans) == spans.len(),
        totals_over(names, spans) == sum_durations(spans),
    decreases spans.len(),
{
    if spans.len() == 0 {
        lemma_over_empty(names, spans);
    } else {
        let d = spans.drop_last();
        assert forall|i: int| 0 <= i < d.len() implies names.contains(#[trigger] d[i].process) by {
            assert(d[i] == spans[i]);
        }
        lemma_over_covering(names, d);
        lemma_over_step(names, spans);
        assert(names.contains(spans[spans.len() - 1].process));
    }
}

proof fn lemma_sums_by_name(v: Seq<AppStats>, spans: Seq<UsageSpan>)
    requires
        forall|k: int| 0 <= k < v.len() ==> describes(spans, #[trigger] v[k]),
    ensures
        sum_counts(v) == counts_over(v.map_values(|e: AppStats| e.process_name@), spans),
        sum_totals(v) == totals_over(v.map_values(|e: AppStats| e.process_name@), spans),
    decreases v.len(),
{
    if v.len() > 0 {
        let d = v.drop_last();
        assert forall|k: int| 0 <= k < d.len() implies describes(spans, #[trigger] d[k]) by {
            assert(d[k] == v[k]);
        }
        lemma_sums_by_name(d, spans);
        assert(v.map_values(|e: AppStats| e.process_name@).drop_last() =~= d.map_values(
            |e: AppStats| e.process_name@,
        ));
        assert(describes(spans, v[v.len() - 1]));
    }
}

/// The statistics account for every span exactly once: the session counts
/// add up to the number of sessions counted (the history plus the open
/// one), and the totals add up to the sum of their durations.
pub proof fn law_stats_account_for_every_session(m: MonitorModel, now: u64, v: Seq<AppStats>)
    requires
        is_stats_of(v, usage_spans(m, now)),
    ensures
        sum_counts(v) == m.history.len() + if m.active is Some {
            1int
        } else {
            0int
        },
        sum_totals(v) == sum_durations(usage_spans(m, now)),
{
    let spans = usage_spans(m, now);
    let names = v.map_values(|e: AppStats| e.process_name@);
    assert(distinct(names)) by {
        assert forall|a: int, b: int| 0 <= a < b < names.len() implies names[a] != names[b] by {
            assert(v[a].process_name@ != v[b].process_name@);
        }
    }
    assert forall|i: int| 0 <= i < spans.len() implies names.contains(#[trigger] spans[i].process) by {
        let q = spans[i].process;
        assert(mentions(spans, q));
        let k = choose|k: int| 0 <= k < v.len() && (#[trigger] v[k]).process_name@ == q;
        assert(names[k] == q);
    }
    lemma_over_covering(names, spans);
    lemma_sums_by_name(v, spans);
}

/// The history is in time order: every session ends no earlier than it
/// starts, each ends before the next one starts, and the open session
/// starts after every closed one has ended.
pub open spec fn in_time_order(m: MonitorModel) -> bool {
    &&& forall|i: int| 0 <= i < m.history.len() ==> (#[trigger] m.history[i]).started_at <= m.history[i].ended_at
    &&& forall|i: int, j: int|
        0 <= i < j < m.history.len() ==> (#[trigger] m.history[i]).ended_at <= (#[trigger] m.history[j]).started_at
    &&& m.active matches Some(a) ==> forall|i: int|
        0 <= i < m.history.len() ==> (#[trigger] m.history[i]).ended_at <= a.started_at
}

/// Nothing in the monitor happened after instant `now`.
pub open spec fn settled_by(m: MonitorModel, now: u64) -> bool {
    &&& forall|i: int| 0 <= i < m.history.len() ==> (#[trigger] m.history[i]).ended_at <= now
    &&& m.active matches Some(a) ==> a.started_at <= now
}

/// A new monitor is in time order.
pub proof fn law_new_monitor_in_time_order(idle_threshold_ms: u64, now: u64)
    ensures
        ({
            let m = MonitorModel {
                state: ActivityState::Active,
                active: None,
                history: Seq::empty(),
                idle_threshold_ms,
            };
            in_time_order(m) && settled_by(m, now)
        }),
{
}

/// Closing at an instant no earlier than anything recorded keeps the
/// history in time order.
proof fn lemma_close_in_time_order(m: MonitorModel, now: u64)
    requires
        in_time_order(m),
        settled_by(m, now),
    ensures
        in_time_order(m.after_close(now)),
        settled_by(m.after_close(now), now),
{
    if let Some(a) = m.active {
        let c = m.after_close(now);
        let n = m.history.len() as int;
        assert(c.history[n] == finalized(a, now));
        assert forall|i: int| 0 <= i < c.history.len() implies (#[trigger] c.history[i]).started_at
            <= c.history[i].ended_at by {
            if i < n {
                assert(c.history[i] == m.history[i]);
            }
        }
        assert forall|i: int, j: int| 0 <= i < j < c.history.len() implies (#[trigger] c.history[i]).ended_at
            <= (#[trigger] c.history[j]).started_at by {
            assert(c.history[i] == m.history[i]);
            if j < n {
                assert(c.history[j] == m.history[j]);
            }
        }
        assert forall|i: int| 0 <= i < c.history.len() implies (#[trigger] c.history[i]).ended_at <= now by {
            if i < n {
                assert(c.history[i] == m.history[i]);
            }
        }
    }
}

/// Under operations whose instants never go backwards, the history stays
/// in time order and sessions never overlap: every operation at an instant
/// `now` no earlier than anything recorded keeps that order.
pub proof fn law_history_in_time_order(
    m: MonitorModel,
    window_title: String,
    process_name: String,
    application_name: String,
    state: ActivityState,
    now: u64,
    later: u64,
)
    requires
        in_time_order(m),
        settled_by(m, now),
        now <= later,
    ensures
        in_time_order(m.after_tick(window_title, process_name, application_name, now)),
        settled_by(m.after_tick(window_title, process_name, application_name, now), now),
        in_time_order(m.after_close(now)),
        settled_by(m.after_close(now), now),
        in_time_order(m.after_set_activity(state, now)),
        settled_by(m.after_set_activity(state, now), now),
        in_time_order(m.after_clear()),
        settled_by(m.after_clear(), now),
        settled_by(m, later),
{
    lemma_close_in_time_order(m, now);
    let c = m.after_close(now);
    let t = m.after_tick(window_title, process_name, application_name, now);
    if m.opens_session(process_name@) {
        assert(t.history == c.history);
    } else {
        assert(t.history == m.history);
    }
}

/// A tick that opens a session opens it with exactly the tick's arguments:
/// its title, process and application name, started at the tick's instant,
/// not yet ended, idle exactly when the monitor is idle. A tick for the
/// process already open keeps that session's process, application name and
/// start, and takes the new title.
pub proof fn law_tick_opens_with_its_arguments(
    m: MonitorModel,
    window_title: String,
    process_name: String,
    application_name: String,
    now: u64,
)
    ensures
        ({
            let a = m.after_tick(window_title, process_name, application_name, now).active.unwrap();
            (m.active is None || m.active.unwrap().process_name@ != process_name@) ==> {
                &&& a.window_title == window_title
                &&& a.process_name == process_name
                &&& a.application_name == application_name
                &&& a.started_at == now
                &&& a.ended_at == 0
                &&& a.duration_ms == 0
                &&& a.is_idle == (m.state == ActivityState::Idle)
            }
        }),
        ({
            let a = m.after_tick(window_title, process_name, application_name, now).active.unwrap();
            (m.active is Some && m.active.unwrap().process_name@ == process_name@) ==> {
                &&& a.window_title == window_title
                &&& a.process_name == m.active.unwrap().process_name
                &&& a.application_name == m.active.unwrap().application_name
                &&& a.started_at == m.active.unwrap().started_at
                &&& a.is_idle == (m.state == ActivityState::Idle)
            }
        }),
{
}

/// Closing a session sets its end and its duration and nothing else: the
/// session appended to the history, and handed back, keeps the title,
/// process, application name, start and idle mark of the open session.
pub proof fn law_closing_keeps_the_session(m: MonitorModel, s: Session, now: u64)
    requires
        m.active == Some(s),
    ensures
        ({
            let c = m.closing(now).unwrap();
            &&& m.after_close(now).history.last() == c
            &&& c.window_title == s.window_title
            &&& c.process_name == s.process_name
            &&& c.application_name == s.application_name
            &&& c.started_at == s.started_at
            &&& c.is_idle == s.is_idle
            &&& c.ended_at == now
            &&& c.duration_ms == if now >= s.started_at {
                now - s.started_at
            } else {
                0
            }
        }),
        ({
            let h = m.after_set_activity(ActivityState::Locked, now).history;
            &&& h.last().is_idle == s.is_idle
            &&& h.last().application_name == s.application_name
            &&& h.last().window_title == s.window_title
            &&& h.last().started_at == s.started_at
        }),
{
}

/// The first entry named `key` (an entry before it has another name).
pub open spec fn first_entry_at(fields: Seq<(String, FieldValue)>, key: Seq<char>, i: int) -> bool {
    &&& 0 <= i < fields.len()
    &&& fields[i].0@ == key
    &&& forall|j: int| 0 <= j < i ==> fields[j].0@ != key
}

proof fn lemma_lookup_first(fields: Seq<(String, FieldValue)>, key: Seq<char>, i: int)
    requires
        first_entry_at(fields, key, i),
    ensures
        lookup(fields, key) == Some(fields[i].1),
    decreases fields.len(),
{
    if i > 0 {
        let rest = fields.subrange(1, fields.len() as int);
        assert(fields[0].0@ != key);
        assert forall|j: int| 0 <= j < i - 1 implies rest[j].0@ != key by {
            assert(rest[j] == fields[j + 1]);
        }
        assert(rest[i - 1] == fields[i]);
        lemma_lookup_first(rest, key, i - 1);
    }
}

proof fn lemma_lookup_absent(fields: Seq<(String, FieldValue)>, key: Seq<char>)
    requires
        forall|j: int| 0 <= j < fields.len() ==> fields[j].0@ != key,
    ensures
        lookup(fields, key) is None,
    decreases fields.len(),
{
    if fields.len() > 0 {
        let rest = fields.subrange(1, fields.len() as int);
        assert forall|j: int| 0 <= j < rest.len() implies rest[j].0@ != key by {
            assert(rest[j] == fields[j + 1]);
        }
        lemma_lookup_absent(rest, key);
    }
}

/// Reading an integer property of a GNOME window: the first entry with that
/// name decides. An unsigned 32-bit value is read as it is, a 64-bit one
/// keeps its low 32 bits, a non-negative 32-bit signed one is read as its
/// value, and a negative one, another type or a missing entry gives none.
pub proof fn law_integer_property(fields: Seq<(String, FieldValue)>, key: Seq<char>, i: int)
    requires
        first_entry_at(fields, key, i),
    ensures
        fields[i].1 matches FieldValue::U32(n) ==> int_field_of(fields, key) == Some(n),
        fields[i].1 matches FieldValue::U64(n) ==> int_field_of(fields, key) == Some((n % 0x1_0000_0000) as u32),
        fields[i].1 matches FieldValue::I32(n) ==> int_field_of(fields, key) == if n >= 0 {
            Some(n as u32)
        } else {
            None
        },
        (fields[i].1 is Bool || fields[i].1 is Str || fields[i].1 is Other) ==> int_field_of(fields, key) is None,
{
    lemma_lookup_first(fields, key, i);
    if let FieldValue::U64(n) = fields[i].1 {
        assert((n as u32) == (n % 0x1_0000_0000) as u32) by (bit_vector);
    }
}

/// A window with no entry of that name has no integer property.
pub proof fn law_missing_integer_property(fields: Seq<(String, FieldValue)>, key: Seq<char>)
    requires
        forall|j: int| 0 <= j < fields.len() ==> fields[j].0@ != key,
    ensures
        int_field_of(fields, key) is None,
{
    lemma_lookup_absent(fields, key);
}

/// The children of a Sway node, in search order: tiled, then floating.
pub open spec fn children(node: SwayNode) -> Seq<SwayNode> {
    (match node.nodes {
        Some(v) => v@,
        None => Seq::empty(),
    }) + (match node.floating_nodes {
        Some(v) => v@,
        None => Seq::empty(),
    })
}

/// All nodes of a Sway tree in pre-order: the node, then the subtrees of its
/// tiled children in order, then those of its floating children.
pub open spec fn preorder(node: SwayNode) -> Seq<SwayNode>
    decreases node,
{
    let tiled = match node.nodes {
        Some(v) => preorder_all(v@),
        None => Seq::empty(),
    };
    let floating = match node.floating_nodes {
        Some(v) => preorder_all(v@),
        None => Seq::empty(),
    };
    seq![node] + tiled + floating
}

/// The pre-order of each tree of a list, one after the other.
pub open spec fn preorder_all(list: Seq<SwayNode>) -> Seq<SwayNode>
    decreases list,
{
    if list.len() == 0 {
        Seq::empty()
    } else {
        preorder(list[0]) + preorder_all(list.subrange(1, list.len() as int))
    }
}

spec fn focused_node(n: SwayNode) -> bool {
    n.focused == Some(true)
}

spec fn first_marked(s: Seq<SwayNode>) -> Option<SwayNode>
    decreases s.len(),
{
    if s.len() == 0 {
        None
    } else if focused_node(s[0]) {
        Some(s[0])
    } else {
        first_marked(s.subrange(1, s.len() as int))
    }
}

proof fn lemma_first_marked_concat(a: Seq<SwayNode>, b: Seq<SwayNode>)
    ensures
        first_marked(a + b) == match first_marked(a) {
            Some(n) => Some(n),
            None => first_marked(b),
        },
    decreases a.len(),
{
    if a.len() > 0 {
        assert((a + b)[0] == a[0]);
        assert((a + b).subrange(1, (a + b).len() as int) =~= a.subrange(1, a.len() as int) + b);
        lemma_first_marked_concat(a.subrange(1, a.len() as int), b);
    } else {
        assert(a + b =~= b);
    }
}

proof fn lemma_first_marked_index(s: Seq<SwayNode>)
    ensures
        first_marked(s) is Some <==> exists|i: int| 0 <= i < s.len() && focused_node(#[trigger] s[i]),
        first_marked(s) matches Some(n) ==> exists|i: int|
            0 <= i < s.len() && s[i] == n && focused_node(n) && forall|j: int|
                0 <= j < i ==> !focused_node(#[trigger] s[j]),
    decreases s.len(),
{
    if s.len() > 0 {
        let r = s.subrange(1, s.len() as int);
        lemma_first_marked_index(r);
        if !focused_node(s[0]) {
            if exists|i: int| 0 <= i < s.len() && focused_node(#[trigger] s[i]) {
                let i = choose|i: int| 0 <= i < s.len() && focused_node(#[trigger] s[i]);
                assert(i > 0);
                assert(r[i - 1] == s[i]);
            }
            if let Some(n) = first_marked(r) {
                let i = choose|i: int|
                    0 <= i < r.len() && r[i] == n && focused_node(n) && forall|j: int|
                        0 <= j < i ==> !focused_node(#[trigger] r[j]);
                assert(s[i + 1] == n);
                assert forall|j: int| 0 <= j < i + 1 implies !focused_node(#[trigger] s[j]) by {
                    if j > 0 {
                        assert(s[j] == r[j - 1]);
                    }
                }
            }
            if exists|i: int| 0 <= i < r.len() && focused_node(#[trigger] r[i]) {
                let i = choose|i: int| 0 <= i < r.len() && focused_node(#[trigger] r[i]);
                assert(s[i + 1] == r[i]);
            }
        } else {
            assert(focused_node(s[0]));
        }
    }
}

proof fn lemma_search_is_preorder(node: SwayNode)
    ensures
        first_focused(node) == first_marked(preorder(node)),
    decreases node, 1int,
{
    let tiled = match node.nodes {
        Some(v) => v@,
        None => Seq::empty(),
    };
    let floating = match node.floating_nodes {
        Some(v) => v@,
        None => Seq::empty(),
    };
    if let Some(v) = node.nodes {
        assert(decreases_to!(node => node.nodes));
        lemma_search_in_is_preorder(v@);
    } else {
        assert(first_focused_in(tiled) is None);
        assert(preorder_all(tiled) =~= Seq::<SwayNode>::empty());
    }
    if let Some(v) = node.floating_nodes {
        assert(decreases_to!(node => node.floating_nodes));
        lemma_search_in_is_preorder(v@);
    } else {
        assert(first_focused_in(floating) is None);
        assert(preorder_all(floating) =~= Seq::<SwayNode>::empty());
    }
    let p = preorder(node);
    assert(p == seq![node] + preorder_all(tiled) + preorder_all(floating)) by {
        if node.nodes is None {
            assert(preorder_all(tiled) =~= Seq::<SwayNode>::empty());
        }
        if node.floating_nodes is None {
            assert(preorder_all(floating) =~= Seq::<SwayNode>::empty());
        }
    }
    lemma_first_marked_concat(seq![node] + preorder_all(tiled), preorder_all(floating));
    lemma_first_marked_concat(seq![node], preorder_all(tiled));
    let one = seq![node];
    assert(one.subrange(1, 1) =~= Seq::<SwayNode>::empty());
    assert(one[0] == node);
    assert(first_marked(one.subrange(1, 1)) is None);
    assert(first_focused_in(tiled) == match node.nodes {
        Some(v) => first_focused_in(v@),
        None => None,
    });
}

proof fn lemma_search_in_is_preorder(list: Seq<SwayNode>)
    ensures
        first_focused_in(list) == first_marked(preorder_all(list)),
    decreases list, 0int,
{
    if list.len() > 0 {
        let rest = list.subrange(1, list.len() as int);
        lemma_search_is_preorder(list[0]);
        lemma_search_in_is_preorder(rest);
        lemma_first_marked_concat(preorder(list[0]), preorder_all(rest));
    }
}

/// The Sway search finds a window exactly when some node of the tree is
/// focused, and then the first focused node in pre-order: the node itself,
/// then each tiled subtree in order, then each floating subtree.
pub proof fn law_sway_search_is_first_focused_in_preorder(node: SwayNode)
    ensures
        first_focused(node) is Some <==> exists|i: int|
            0 <= i < preorder(node).len() && (#[trigger] preorder(node)[i]).focused == Some(true),
        first_focused(node) matches Some(n) ==> exists|i: int|
            0 <= i < preorder(node).len() && preorder(node)[i] == n && n.focused == Some(true) && forall|j: int|
                0 <= j < i ==> (#[trigger] preorder(node)[j]).focused != Some(true),
{
    lemma_search_is_preorder(node);
    lemma_first_marked_index(preorder(node));
    let p = preorder(node);
    assert forall|i: int| 0 <= i < p.len() implies focused_node(#[trigger] p[i]) == (p[i].focused == Some(true)) by {}
}

} // verus!
