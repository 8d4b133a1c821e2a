use vstd::prelude::*;

use crate::bench::{
    count_held, count_received, entry_ok, lemma_count_push, lemma_count_update, lemma_counts_bounded,
    row_of, BenchView, Entry, ReplyOutcome,
};

verus! {

/// In every well-formed state no more slots are held than the capacity.
pub proof fn lemma_outstanding_within_capacity(v: BenchView)
    requires
        v.wf(),
    ensures
        v.outstanding() <= v.capacity,
{
}

/// While every slot is held, no further request is admitted: with a
/// capacity of one, request `k + 1` waits until request `k` is answered.
pub proof fn lemma_full_pool_admits_nothing(v: BenchView, now: u64)
    requires
        v.wf(),
        v.outstanding() >= v.capacity,
    ensures
        v.send_step(now) == v,
        !v.may_send(),
{
}

/// Issuing a request, matching a reply and ending the run each lead from a
/// well-formed state to a well-formed one, so the bound on held slots
/// holds at every instant of a run.
pub proof fn lemma_steps_keep_wf(v: BenchView, now: u64, id: nat)
    requires
        v.wf(),
    ensures
        v.send_step(now).wf(),
        v.reply_step(id, now).0.wf(),
        (BenchView { finished: true, ..v }).wf(),
{
    let e = Entry { sent_at: now, received_at: None, holds_permit: true };
    lemma_count_push(v.entries, e);
    let w = v.send_step(now);
    assert forall|i: int| 0 <= i < w.entries.len() implies #[trigger] entry_ok(w.entries[i]) by {
        if i < v.entries.len() {
            assert(entry_ok(v.entries[i]));
        }
    }
    if !v.finished && id < v.entries.len() && v.entries[id as int].holds_permit {
        let old_e = v.entries[id as int];
        assert(entry_ok(old_e));
        let ne = if now <= old_e.sent_at {
            Entry { holds_permit: false, ..old_e }
        } else {
            Entry { received_at: Some(now), holds_permit: false, ..old_e }
        };
        lemma_count_update(v.entries, id as int, ne);
        let u = v.reply_step(id, now).0;
        assert(u.entries == v.entries.update(id as int, ne));
        assert forall|i: int| 0 <= i < u.entries.len() implies #[trigger] entry_ok(u.entries[i]) by {
            if i != id {
                assert(entry_ok(v.entries[i]));
            }
        }
    }
}

/// The report of a run holds each id of `[0, total)` exactly once: row
/// `i` carries id `i`.
pub proof fn lemma_report_ids(v: BenchView)
    requires
        v.wf(),
    ensures
        forall|i: nat| i < v.total ==> (#[trigger] row_of(v.entries, i)).id as nat == i,
{
}

/// Every duration in the report is strictly positive.
pub proof fn lemma_report_rtt_positive(v: BenchView, i: nat)
    requires
        v.wf(),
    ensures
        row_of(v.entries, i).rtt matches Some(d) ==> d > 0,
{
    if i < v.entries.len() {
        assert(entry_ok(v.entries[i as int]));
    }
}

/// No more replies are matched than requests issued, so the loss
/// `total - received` is never negative.
pub proof fn lemma_received_within_total(v: BenchView)
    requires
        v.wf(),
    ensures
        v.received() <= v.entries.len() <= v.total,
{
    lemma_counts_bounded(v.entries);
}

/// A second reply carrying the same id changes nothing, whenever it comes:
/// no second receive time is recorded and no slot is freed twice.
pub proof fn lemma_repeated_reply_no_effect(v: BenchView, id: nat, first: u64, second: u64)
    requires
        v.wf(),
    ensures
        ({
            let w = v.reply_step(id, first).0;
            &&& w.reply_step(id, second).0 == w
            &&& !(w.reply_step(id, second).1 is Matched)
            &&& !(w.reply_step(id, second).1 is NonPositiveRtt)
        }),
{
}

} // verus!
