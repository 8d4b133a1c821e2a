use vstd::prelude::*;

use crate::stats::{ascending, sorted, summarize, summary_of, Summary};
use crate::wire::{be_value, decode_id, encode_id};

verus! {

/// The accounting record of one request. Times are nanoseconds since the
/// start of the run.
#[derive(Clone, Copy, Debug, PartialEq, Eq, Structural)]
pub struct Entry {
    pub sent_at: u64,
    pub received_at: Option<u64>,
    /// Whether this request still owns its in-flight slot.
    pub holds_permit: bool,
}

/// Number of entries that still own an in-flight slot.
pub open spec fn count_held(s: Seq<Entry>) -> nat
    decreases s.len(),
{
    if s.len() == 0 {
        0
    } else {
        count_held(s.drop_last()) + if s.last().holds_permit { 1nat } else { 0nat }
    }
}

/// Number of entries whose reply was matched.
pub open spec fn count_received(s: Seq<Entry>) -> nat
    decreases s.len(),
{
    if s.len() == 0 {
        0
    } else {
        count_received(s.drop_last()) + if s.last().received_at.is_some() { 1nat } else { 0nat }
    }
}

/// An entry is consistent when a matched reply came strictly after the
/// send and no longer owns a slot.
pub open spec fn entry_ok(e: Entry) -> bool {
    match e.received_at {
        Some(r) => r > e.sent_at && !e.holds_permit,
        None => true,
    }
}

pub proof fn lemma_count_push(s: Seq<Entry>, e: Entry)
    ensures
        count_held(s.push(e)) == count_held(s) + if e.holds_permit { 1nat } else { 0nat },
        count_received(s.push(e)) == count_received(s) + if e.received_at.is_some() { 1nat } else { 0nat },
{
    assert(s.push(e).drop_last() =~= s);
}

pub proof fn lemma_count_update(s: Seq<Entry>, i: int, e: Entry)
    requires
        0 <= i < s.len(),
    ensures
        count_held(s.update(i, e)) + (if s[i].holds_permit { 1nat } else { 0nat })
            == count_held(s) + (if e.holds_permit { 1nat } else { 0nat }),
        count_received(s.update(i, e)) + (if s[i].received_at.is_some() { 1nat } else { 0nat })
            == count_received(s) + (if e.received_at.is_some() { 1nat } else { 0nat }),
    decreases s.len(),
{
    if i == s.len() - 1 {
        assert(s.update(i, e).drop_last() =~= s.drop_last());
    } else {
        lemma_count_update(s.drop_last(), i, e);
        assert(s.update(i, e).drop_last() =~= s.drop_last().update(i, e));
    }
}

pub proof fn lemma_counts_bounded(s: Seq<Entry>)
    ensures
        count_held(s) <= s.len(),
        count_received(s) <= s.len(),
    decreases s.len(),
{
    if s.len() > 0 {
        lemma_counts_bounded(s.drop_last());
    }
}

/// The round-trip duration of an entry whose reply was matched.
pub open spec fn rtt_of(e: Entry) -> Option<u64> {
    match e.received_at {
        Some(r) => Some((r - e.sent_at) as u64),
        None => None,
    }
}

/// The round-trip durations of the matched entries, in id order.
pub open spec fn rtts_of(s: Seq<Entry>) -> Seq<u64>
    decreases s.len(),
{
    if s.len() == 0 {
        Seq::empty()
    } else {
        match rtt_of(s.last()) {
            Some(d) => rtts_of(s.drop_last()).push(d),
            None => rtts_of(s.drop_last()),
        }
    }
}

pub proof fn lemma_rtts_len(s: Seq<Entry>)
    ensures
        rtts_of(s).len() == count_received(s),
    decreases s.len(),
{
    if s.len() > 0 {
        lemma_rtts_len(s.drop_last());
    }
}

/// One line of the detail report. A request that was never issued has no
/// send time; a lost one has no receive time and no duration.
#[derive(Clone, Copy, Debug, PartialEq, Eq, Structural)]
pub struct Row {
    pub id: u32,
    pub sent_at: Option<u64>,
    pub received_at: Option<u64>,
    pub rtt: Option<u64>,
}

/// The report row of request `id`.
pub open spec fn row_of(entries: Seq<Entry>, id: nat) -> Row {
    if id < entries.len() {
        let e = entries[id as int];
        Row { id: id as u32, sent_at: Some(e.sent_at), received_at: e.received_at, rtt: rtt_of(e) }
    } else {
        Row { id: id as u32, sent_at: None, received_at: None, rtt: None }
    }
}

/// The outcome of a run: how many replies were matched, how many requests
/// were lost, and the summary of the durations when there is one.
#[derive(Clone, Copy, Debug, PartialEq, Eq, Structural)]
pub struct Stats {
    pub received_count: u32,
    pub loss: u32,
    pub summary: Option<Summary>,
}

/// What the sender is told to do next.
#[derive(Clone, Copy, Debug)]
pub enum SendAction {
    /// The entry for `id` was recorded: transmit `payload` to the target.
    Transmit { id: u32, payload: [u8; 4] },
    /// Every slot is taken: wait until a reply frees one.
    Blocked,
    /// Every id was sent, or the run has ended.
    Done,
}

/// What became of one incoming reply.
#[derive(Clone, Copy, Debug, PartialEq, Eq, Structural)]
pub enum ReplyOutcome {
    /// The reply claimed the entry of `id`, which took `rtt` nanoseconds.
    Matched { id: u32, rtt: u64 },
    /// The reply came no later than its request: the slot is freed and
    /// the request is counted as lost.
    NonPositiveRtt { id: u32 },
    /// The entry of `id` was already claimed: nothing changes.
    Duplicate { id: u32 },
    /// No request with this id was sent: nothing changes.
    Unknown { id: u32 },
    /// The run has ended: nothing changes.
    AfterShutdown,
}

/// Why a run cannot start.
#[derive(Clone, Copy, Debug, PartialEq, Eq, Structural)]
pub enum ConfigError {
    /// With no slot, no request could ever be sent.
    ZeroCapacity,
}

/// The state of one benchmark run: the admission counter, the accounting
/// store indexed by request id, and whether the run has ended.
pub struct Bench {
    capacity: u32,
    total: u32,
    outstanding: u32,
    received: u32,
    finished: bool,
    entries: Vec<Entry>,
}

/// The abstract state of a run.
pub struct BenchView {
    pub capacity: nat,
    pub total: nat,
    pub finished: bool,
    pub entries: Seq<Entry>,
}

impl BenchView {
    /// Slots acquired and not yet released.
    pub open spec fn outstanding(self) -> nat {
        count_held(self.entries)
    }

    /// Replies matched so far.
    pub open spec fn received(self) -> nat {
        count_received(self.entries)
    }

    pub open spec fn wf(self) -> bool {
        &&& self.capacity > 0
        &&& self.total <= u32::MAX
        &&& self.entries.len() <= self.total
        &&& self.outstanding() <= self.capacity
        &&& forall|i: int| 0 <= i < self.entries.len() ==> #[trigger] entry_ok(self.entries[i])
    }

    /// Whether a new request may be issued now.
    pub open spec fn may_send(self) -> bool {
        !self.finished && self.entries.len() < self.total && self.outstanding() < self.capacity
    }

    /// The state after `try_send` at time `now`: a new entry, sent at `now`
    /// and owning a slot, where one may be issued; else no change.
    pub open spec fn send_step(self, now: u64) -> BenchView {
        if self.may_send() {
            BenchView {
                entries: self.entries.push(Entry { sent_at: now, received_at: None, holds_permit: true }),
                ..self
            }
        } else {
            self
        }
    }

    /// What a reply carrying request id `id` does at time `now`.
    pub open spec fn reply_step(self, id: nat, now: u64) -> (BenchView, ReplyOutcome) {
        if self.finished {
            (self, ReplyOutcome::AfterShutdown)
        } else if id >= self.entries.len() {
            (self, ReplyOutcome::Unknown { id: id as u32 })
        } else if !self.entries[id as int].holds_permit {
            (self, ReplyOutcome::Duplicate { id: id as u32 })
        } else {
            let e = self.entries[id as int];
            if now <= e.sent_at {
                (
                    BenchView {
                        entries: self.entries.update(id as int, Entry { holds_permit: false, ..e }),
                        ..self
                    },
                    ReplyOutcome::NonPositiveRtt { id: id as u32 },
                )
            } else {
                (
                    BenchView {
                        entries: self.entries.update(
                            id as int,
                            Entry { received_at: Some(now), holds_permit: false, ..e },
                        ),
                        ..self
                    },
                    ReplyOutcome::Matched { id: id as u32, rtt: (now - e.sent_at) as u64 },
                )
            }
        }
    }
}

impl View for Bench {
    type V = BenchView;

    closed spec fn view(&self) -> BenchView {
        BenchView {
            capacity: self.capacity as nat,
            total: self.total as nat,
            finished: self.finished,
            entries: self.entries@,
        }
    }
}

impl Bench {
    /// The counters agree with the accounting store.
    pub closed spec fn counters_agree(&self) -> bool {
        &&& self.outstanding as nat == self@.outstanding()
        &&& self.received as nat == self@.received()
    }

    pub open spec fn wf(&self) -> bool {
        self@.wf() && self.counters_agree()
    }

    /// Starts a run of `total` requests with at most `capacity` of them in
    /// flight at once.
    pub fn new(total: u32, capacity: u32) -> (r: Result<Bench, ConfigError>)
        ensures
            capacity == 0 <==> r == Err::<Bench, ConfigError>(ConfigError::ZeroCapacity),
            r matches Ok(b) ==> b.wf() && b@ == (BenchView {
                capacity: capacity as nat,
                total: total as nat,
                finished: false,
                entries: Seq::empty(),
            }),
    {
        if capacity == 0 {
            return Err(ConfigError::ZeroCapacity);
        }
        let b = Bench { capacity, total, outstanding: 0, received: 0, finished: false, entries: Vec::new() };
        assert(b@.entries =~= Seq::<Entry>::empty());
        Ok(b)
    }

    /// Issues the next request at time `now` if the run is not over, ids
    /// remain and a slot is free. The entry is recorded before the payload
    /// is handed out, so a reply can never overtake it.
    pub fn try_send(&mut self, now: u64) -> (r: SendAction)
        requires
            old(self).wf(),
        ensures
            final(self).wf(),
            final(self)@ == old(self)@.send_step(now),
            match r {
                SendAction::Transmit { id, payload } => old(self)@.may_send()
                    && id as nat == old(self)@.entries.len()
                    && be_value(payload@) == id as nat,
                SendAction::Blocked => !old(self)@.finished
                    && old(self)@.entries.len() < old(self)@.total
                    && old(self)@.outstanding() >= old(self)@.capacity,
                SendAction::Done => old(self)@.finished || old(self)@.entries.len() >= old(self)@.total,
            },
    {
        if self.finished || self.entries.len() >= self.total as usize {
            return SendAction::Done;
        }
        if self.outstanding >= self.capacity {
            return SendAction::Blocked;
        }
        let id = self.entries.len() as u32;
        let e = Entry { sent_at: now, received_at: None, holds_permit: true };
        proof {
            lemma_count_push(self.entries@, e);
        }
        self.entries.push(e);
        self.outstanding = self.outstanding + 1;
        proof {
            assert forall|i: int| 0 <= i < self@.entries.len() implies #[trigger] entry_ok(self@.entries[i]) by {
                if i < old(self)@.entries.len() {
                    assert(entry_ok(old(self)@.entries[i]));
                }
            }
        }
        SendAction::Transmit { id, payload: encode_id(id) }
    }

    /// Matches a reply received at time `now`. Only the first reply for a
    /// request that still owns its slot changes anything: it frees the slot
    /// and, when it came strictly after the send, records the receive time.
    pub fn on_reply(&mut self, payload: [u8; 4], now: u64) -> (r: ReplyOutcome)
        requires
            old(self).wf(),
        ensures
            final(self).wf(),
            (final(self)@, r) == old(self)@.reply_step(be_value(payload@), now),
    {
        let id = decode_id(payload);
        if self.finished {
            return ReplyOutcome::AfterShutdown;
        }
        if id as usize >= self.entries.len() {
            return ReplyOutcome::Unknown { id };
        }
        let i = id as usize;
        let e = self.entries[i];
        if !e.holds_permit {
            return ReplyOutcome::Duplicate { id };
        }
        assert(entry_ok(self@.entries[i as int]));
        proof {
            lemma_counts_bounded(self@.entries);
        }
        if now <= e.sent_at {
            let ne = Entry { holds_permit: false, ..e };
            proof {
                lemma_count_update(self.entries@, i as int, ne);
            }
            self.entries.set(i, ne);
            self.outstanding = self.outstanding - 1;
            proof {
                assert forall|j: int| 0 <= j < self@.entries.len() implies #[trigger] entry_ok(self@.entries[j]) by {
                    if j != i {
                        assert(entry_ok(old(self)@.entries[j]));
                    }
                }
            }
            ReplyOutcome::NonPositiveRtt { id }
        } else {
            let ne = Entry { received_at: Some(now), holds_permit: false, ..e };
            proof {
                lemma_count_update(self.entries@, i as int, ne);
                lemma_counts_bounded(self.entries@.update(i as int, ne));
            }
            self.entries.set(i, ne);
            self.outstanding = self.outstanding - 1;
            self.received = self.received + 1;
            proof {
                assert forall|j: int| 0 <= j < self@.entries.len() implies #[trigger] entry_ok(self@.entries[j]) by {
                    if j != i {
                        assert(entry_ok(old(self)@.entries[j]));
                    }
                }
            }
            ReplyOutcome::Matched { id, rtt: now - e.sent_at }
        }
    }

    /// Ends the run: later replies are ignored and no request is issued.
    pub fn finish(&mut self)
        requires
            old(self).wf(),
        ensures
            final(self).wf(),
            final(self)@ == (BenchView { finished: true, ..old(self)@ }),
    {
        self.finished = true;
    }

    /// The number of requests the run issues.
    pub fn total(&self) -> (r: u32)
        ensures
            r as nat == self@.total,
    {
        self.total
    }

    /// The number of requests that may be in flight at once.
    pub fn capacity(&self) -> (r: u32)
        ensures
            r as nat == self@.capacity,
    {
        self.capacity
    }

    /// The number of requests issued so far.
    pub fn sent_count(&self) -> (r: u32)
        requires
            self.wf(),
        ensures
            r as nat == self@.entries.len(),
    {
        self.entries.len() as u32
    }

    /// Slots acquired and not yet released.
    pub fn outstanding(&self) -> (r: u32)
        requires
            self.wf(),
        ensures
            r as nat == self@.outstanding(),
    {
        self.outstanding
    }

    /// Replies matched so far.
    pub fn received_count(&self) -> (r: u32)
        requires
            self.wf(),
        ensures
            r as nat == self@.received(),
    {
        self.received
    }

    /// Whether the run has ended.
    pub fn is_finished(&self) -> (r: bool)
        ensures
            r == self@.finished,
    {
        self.finished
    }

    /// The accounting entry of request `id`, if it was issued.
    pub fn entry(&self, id: u32) -> (r: Option<Entry>)
        ensures
            id < self@.entries.len() ==> r == Some(self@.entries[id as int]),
            id >= self@.entries.len() ==> r is None,
    {
        if (id as usize) < self.entries.len() {
            Some(self.entries[id as usize])
        } else {
            None
        }
    }

    /// The round-trip durations of the matched requests, in id order.
    pub fn rtts(&self) -> (r: Vec<u64>)
        requires
            self.wf(),
        ensures
            r@ == rtts_of(self@.entries),
    {
        let mut out: Vec<u64> = Vec::new();
        let mut i: usize = 0;
        while i < self.entries.len()
            invariant
                i <= self@.entries.len(),
                self.wf(),
                out@ == rtts_of(self@.entries.subrange(0, i as int)),
            decreases self@.entries.len() - i,
        {
            let e = self.entries[i];
            proof {
                assert(self@.entries.subrange(0, i + 1).drop_last() =~= self@.entries.subrange(0, i as int));
                assert(entry_ok(self@.entries[i as int]));
            }
            match e.received_at {
                Some(r) => {
                    out.push(r - e.sent_at);
                },
                None => {},
            }
            i = i + 1;
        }
        assert(self@.entries.subrange(0, i as int) =~= self@.entries);
        out
    }

    /// One row per request id in `[0, total)`, in id order.
    pub fn report(&self) -> (r: Vec<Row>)
        requires
            self.wf(),
        ensures
            r@.len() == self@.total,
            forall|i: int| 0 <= i < self@.total ==> #[trigger] r@[i] == row_of(self@.entries, i as nat),
    {
        let mut out: Vec<Row> = Vec::new();
        let mut i: u32 = 0;
        while i < self.total
            invariant
                i <= self@.total,
                self.wf(),
                out@.len() == i,
                forall|j: int| 0 <= j < i ==> #[trigger] out@[j] == row_of(self@.entries, j as nat),
            decreases self@.total - i,
        {
            let row = if (i as usize) < self.entries.len() {
                let e = self.entries[i as usize];
                proof {
                    assert(entry_ok(self@.entries[i as int]));
                }
                let rtt = match e.received_at {
                    Some(r) => Some(r - e.sent_at),
                    None => None,
                };
                Row { id: i, sent_at: Some(e.sent_at), received_at: e.received_at, rtt }
            } else {
                Row { id: i, sent_at: None, received_at: None, rtt: None }
            };
            out.push(row);
            i = i + 1;
        }
        out
    }

    /// The received count, the loss and the summary of the measured
    /// durations, taken in ascending order.
    pub fn statistics(&self) -> (r: Stats)
        requires
            self.wf(),
        ensures
            r.received_count as nat == self@.received(),
            r.loss as nat == self@.total - self@.received(),
            self@.received() == 0 <==> r.summary is None,
            r.summary matches Some(x) ==> x == summary_of(ascending(rtts_of(self@.entries))),
    {
        let durations = sorted(self.rtts());
        proof {
            lemma_rtts_len(self@.entries);
            lemma_counts_bounded(self@.entries);
            durations@.to_multiset_ensures();
            rtts_of(self@.entries).to_multiset_ensures();
        }
        let summary = summarize(&durations);
        Stats { received_count: self.received, loss: self.total - self.received, summary }
    }
}

} // verus!
