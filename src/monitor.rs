use crate::model::{initial_state, MonitorStatus, ProbeRecord};
use std::collections::VecDeque;
use vstd::prelude::*;

verus! {

/// Seconds between two scheduler ticks.
pub const TICK_SECONDS: u64 = 10;

/// Seconds in one day.
pub const SECONDS_PER_DAY: u64 = 86400;

/// History is never trimmed below this many records.
pub const MIN_RETENTION: u64 = 60;

/// Number of consecutive disagreeing results that flip a settled state.
pub const DEBOUNCE_COUNT: usize = 3;

/// Event emitted whenever the debounced state of a target is (re)established.
#[derive(Debug)]
pub enum MonitorEvent {
    /// Target id and its new state.
    StateChanged(String, bool),
}

/// Records kept per target: `ceil(days * 86400 / 10)`, at least 60.
pub open spec fn retention_records(days: nat) -> nat {
    let ticks = (days * 86400 + 9) / 10;
    if ticks < 60 {
        60
    } else {
        ticks
    }
}

/// The retention limit in records for `days` days of history, saturated at
/// the largest length a collection can have.
pub fn retention_limit(days: u64) -> (r: usize)
    ensures
        r as nat == if retention_records(days as nat) <= usize::MAX {
            retention_records(days as nat)
        } else {
            usize::MAX as nat
        },
{
    assert(days as int * 86400 <= 0xFFFF_FFFF_FFFF_FFFFint * 86400) by (nonlinear_arith)
        requires days <= 0xFFFF_FFFF_FFFF_FFFFu64;
    let secs: u128 = days as u128 * SECONDS_PER_DAY as u128;
    let ticks: u128 = (secs + (TICK_SECONDS as u128 - 1)) / TICK_SECONDS as u128;
    let limit: u128 = if ticks < MIN_RETENTION as u128 {
        MIN_RETENTION as u128
    } else {
        ticks
    };
    if limit <= usize::MAX as u128 {
        limit as usize
    } else {
        usize::MAX
    }
}

/// Records are ordered newest first.
pub open spec fn newest_first(rs: Seq<ProbeRecord>) -> bool {
    forall|i: int, j: int| 0 <= i < j < rs.len() ==> rs[i].timestamp_ms >= rs[j].timestamp_ms
}

/// History after pushing `rec` in front and trimming to `limit` records.
pub open spec fn pushed(rs: Seq<ProbeRecord>, rec: ProbeRecord, limit: nat) -> Seq<ProbeRecord> {
    let all = seq![rec] + rs;
    if all.len() <= limit {
        all
    } else {
        all.take(limit as int)
    }
}

/// Inserts `rec` as the newest record and drops the oldest ones beyond `limit`.
pub fn push_record(records: &mut VecDeque<ProbeRecord>, rec: ProbeRecord, limit: usize)
    ensures
        final(records)@ == pushed(old(records)@, rec, limit as nat),
        final(records)@.len() <= limit,
        newest_first(old(records)@) && (old(records)@.len() > 0 ==> rec.timestamp_ms
            >= old(records)@[0].timestamp_ms) ==> newest_first(final(records)@),
{
    let ghost r = rec;
    records.push_front(rec);
    records.truncate(limit);
    proof {
        lemma_pushed_newest_first(old(records)@, r, limit as nat);
    }
}

/// Pushing a record no older than the newest keeps a history newest first.
pub proof fn lemma_pushed_newest_first(rs: Seq<ProbeRecord>, rec: ProbeRecord, limit: nat)
    ensures
        newest_first(rs) && (rs.len() > 0 ==> rec.timestamp_ms >= rs[0].timestamp_ms)
            ==> newest_first(pushed(rs, rec, limit)),
{
    let all = seq![rec] + rs;
    if newest_first(rs) && (rs.len() > 0 ==> rec.timestamp_ms >= rs[0].timestamp_ms) {
        assert forall|i: int, j: int| 0 <= i < j < all.len() implies all[i].timestamp_ms
            >= all[j].timestamp_ms by {
            if i == 0 {
                assert(all[j] == rs[j - 1]);
                if j > 1 {
                    assert(rs[0].timestamp_ms >= rs[j - 1].timestamp_ms);
                }
            } else {
                assert(all[i] == rs[i - 1]);
                assert(all[j] == rs[j - 1]);
            }
        }
        let p = pushed(rs, rec, limit);
        assert forall|i: int, j: int| 0 <= i < j < p.len() implies p[i].timestamp_ms
            >= p[j].timestamp_ms by {
            assert(p[i] == all[i] && p[j] == all[j]);
        }
    }
}

/// The newest `k` records all have outcome `v`.
pub open spec fn newest_all(rs: Seq<ProbeRecord>, k: nat, v: bool) -> bool {
    rs.len() >= k && forall|i: int| 0 <= i < k ==> #[trigger] rs[i].success == v
}

/// Debounced state after a probe with outcome `success`, given whether the
/// history was empty before it, the history after it, the state before it and
/// the persisted state of the target.
pub open spec fn next_state(
    first: bool,
    rs: Seq<ProbeRecord>,
    cur: bool,
    persisted: Option<bool>,
    success: bool,
) -> bool {
    if first {
        success
    } else if rs.len() >= 3 {
        if newest_all(rs, 3, !cur) {
            !cur
        } else {
            cur
        }
    } else if cur != success {
        !cur
    } else {
        cur
    }
}

/// Whether that probe emits a `StateChanged` event: on every flip, and on the
/// first probe when nothing was persisted.
pub open spec fn emits(
    first: bool,
    rs: Seq<ProbeRecord>,
    cur: bool,
    persisted: Option<bool>,
    success: bool,
) -> bool {
    if first {
        persisted is None || cur != success
    } else {
        next_state(first, rs, cur, persisted, success) != cur
    }
}

/// What the caller does after a probe: forward the event, and dispatch
/// webhooks when `alert` is set (whenever an event is emitted).
#[derive(Debug)]
pub struct ProbeOutcome {
    pub event: Option<MonitorEvent>,
    pub alert: bool,
}

/// `e` is the event announcing state `s` for target id `id`.
pub open spec fn is_state_changed(e: MonitorEvent, id: Seq<char>, s: bool) -> bool {
    match e {
        MonitorEvent::StateChanged(i, b) => i@ == id && b == s,
    }
}

/// The full effect of one probe completion on one target's state.
pub open spec fn probe_applied(
    pre: MonitorStatus,
    rec: ProbeRecord,
    limit: nat,
    post: MonitorStatus,
    out: ProbeOutcome,
) -> bool {
    let first = pre.records@.len() == 0;
    let rs = pushed(pre.records@, rec, limit);
    let persisted = pre.target.last_known_state;
    &&& post.target == pre.target
    &&& post.records@ == rs
    &&& post.current_state == next_state(first, rs, pre.current_state, persisted, rec.success)
    &&& match out.event {
        Some(e) => emits(first, rs, pre.current_state, persisted, rec.success)
            && is_state_changed(e, pre.target.id@, post.current_state),
        None => !emits(first, rs, pre.current_state, persisted, rec.success),
    }
    &&& out.alert == (out.event is Some)
}

/// Records one probe result and applies the debounce rules to the target's state.
pub fn apply_probe(status: &mut MonitorStatus, rec: ProbeRecord, limit: usize) -> (out:
    ProbeOutcome)
    ensures
        probe_applied(*old(status), rec, limit as nat, *final(status), out),
{
    let first = status.records.len() == 0;
    let success = rec.success;
    push_record(&mut status.records, rec, limit);
    let cur = status.current_state;
    if first {
        if status.target.last_known_state.is_none() || cur != success {
            status.current_state = success;
            return ProbeOutcome {
                event: Some(MonitorEvent::StateChanged(status.target.id.clone(), success)),
                alert: true,
            };
        }
        status.current_state = success;
        return ProbeOutcome { event: None, alert: false };
    }
    let n = status.records.len();
    let mut flip = false;
    if n >= DEBOUNCE_COUNT {
        let mut all = true;
        let mut i: usize = 0;
        while i < DEBOUNCE_COUNT
            invariant
                0 <= i <= DEBOUNCE_COUNT,
                status.records@.len() >= 3,
                all == forall|j: int| 0 <= j < i ==> #[trigger] status.records@[j].success
                    != cur,
            decreases DEBOUNCE_COUNT - i,
        {
            if status.records[i].success == cur {
                all = false;
            }
            i = i + 1;
        }
        flip = all;
    } else if cur != success {
        flip = true;
    }
    if flip {
        status.current_state = !cur;
        ProbeOutcome {
            event: Some(MonitorEvent::StateChanged(status.target.id.clone(), !cur)),
            alert: true,
        }
    } else {
        ProbeOutcome { event: None, alert: false }
    }
}

/// After a probe, a target's history never holds more records than the
/// retention computed from the configured days.
pub proof fn lemma_history_within_retention(
    pre: MonitorStatus,
    rec: ProbeRecord,
    days: u64,
    limit: usize,
    post: MonitorStatus,
    out: ProbeOutcome,
)
    requires
        limit as nat == if retention_records(days as nat) <= usize::MAX {
            retention_records(days as nat)
        } else {
            usize::MAX as nat
        },
        probe_applied(pre, rec, limit as nat, post, out),
    ensures
        post.records@.len() <= retention_records(days as nat),
{
}

/// Pushing a probe no older than the newest record keeps the history newest first.
pub proof fn lemma_history_newest_first(
    pre: MonitorStatus,
    rec: ProbeRecord,
    limit: nat,
    post: MonitorStatus,
    out: ProbeOutcome,
)
    requires
        probe_applied(pre, rec, limit, post, out),
        newest_first(pre.records@),
        pre.records@.len() > 0 ==> rec.timestamp_ms >= pre.records@[0].timestamp_ms,
    ensures
        newest_first(post.records@),
{
    lemma_pushed_newest_first(pre.records@, rec, limit);
}

/// The debounced state toggles only when the newest three records all
/// disagree with it, when fewer than three records exist and the newest
/// disagrees, or on the first probe.
pub proof fn lemma_toggle_rules(
    pre: MonitorStatus,
    rec: ProbeRecord,
    limit: nat,
    post: MonitorStatus,
    out: ProbeOutcome,
)
    requires
        limit >= 1,
        probe_applied(pre, rec, limit, post, out),
        post.current_state != pre.current_state,
    ensures
        pre.records@.len() == 0 || newest_all(post.records@, 3, !pre.current_state) || (
        post.records@.len() < 3 && post.records@[0].success != pre.current_state),
{
    let all = seq![rec] + pre.records@;
    assert(post.records@[0] == all[0]);
}

/// Every toggle of the debounced state comes with exactly one event, which
/// announces the new state for the target's id.
pub proof fn lemma_toggle_emits_event(
    pre: MonitorStatus,
    rec: ProbeRecord,
    limit: nat,
    post: MonitorStatus,
    out: ProbeOutcome,
)
    requires
        probe_applied(pre, rec, limit, post, out),
        post.current_state != pre.current_state,
    ensures
        match out.event {
            Some(e) => is_state_changed(e, pre.target.id@, post.current_state),
            None => false,
        },
{
}

/// The first probe since startup sets the state to its own outcome; with
/// nothing persisted it always announces that state once, with an alert.
pub proof fn lemma_first_probe_sets_state(
    pre: MonitorStatus,
    rec: ProbeRecord,
    limit: nat,
    post: MonitorStatus,
    out: ProbeOutcome,
)
    requires
        pre.records@.len() == 0,
        probe_applied(pre, rec, limit, post, out),
    ensures
        post.current_state == rec.success,
        pre.target.last_known_state is None ==> out.alert && match out.event {
            Some(e) => is_state_changed(e, pre.target.id@, rec.success),
            None => false,
        },
{
}

/// A target persisted as UP whose first probe fails goes DOWN and emits one
/// event announcing DOWN.
pub proof fn lemma_first_probe_down(
    pre: MonitorStatus,
    rec: ProbeRecord,
    limit: nat,
    post: MonitorStatus,
    out: ProbeOutcome,
)
    requires
        pre.records@.len() == 0,
        pre.target.last_known_state == Some(true),
        pre.current_state == initial_state(pre.target),
        !rec.success,
        probe_applied(pre, rec, limit, post, out),
    ensures
        !post.current_state,
        match out.event {
            Some(e) => is_state_changed(e, pre.target.id@, false),
            None => false,
        },
{
}

} // verus!
