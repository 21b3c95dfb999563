//! The in-process loop engine: bookkeeping, pacing and listing.
//!
//! A **loop** is a worker that delivers a fixed message to its agent every
//! interval, the first message only after one full interval. Loops live in a
//! map keyed by agent instance hierarchy (AIH); ids are scoped per AIH, so
//! `end` only sees loops begun under the same AIH. There is no persistence
//! and no auto-cleanup: a loop that is never ended lives until the process
//! exits. The worker's own handle (`H`) is kept opaque here.
//!
//! Time is counted in milliseconds of a monotonic clock; the registry
//! remembers the latest reading it was given and accepts no earlier one.
use vstd::prelude::*;

use crate::text::string_views;

use crate::mcp::common::{id_for, well_formed_id, TextReply};
use crate::mcp::json::{encode_object_rows, json_object_rows, row_views, FieldView, JsonField};
use crate::mcp::list_tools::listing_body;
use crate::mcp::registry::{AihRegistry, EntryKey};

verus! {

/// The envelope a loop delivers: the message verbatim, wrapped in a
/// `quas-wex-exort` element that names the loop.
pub open spec fn loop_envelope(id: Seq<char>, message: Seq<char>) -> Seq<char> {
    "<quas-wex-exort loop-id=\""@ + id + "\">\n"@ + message + "\n</quas-wex-exort>"@
}

/// The envelope carries the loop's id and the whole message verbatim,
/// whatever their length: it is exactly 46 characters longer than the id and
/// the message together, the id stands from position 25 on and the message
/// right after the 3 characters that follow the id. So two deliveries of one
/// loop with different messages differ.
pub proof fn lemma_envelope_carries_message(id: Seq<char>, message: Seq<char>)
    ensures
        loop_envelope(id, message).len() == id.len() + message.len() + 46,
        loop_envelope(id, message).subrange(25, 25int + id.len()) == id,
        loop_envelope(id, message).subrange(28int + id.len(), 28int + id.len() + message.len()) == message,
        forall|other: Seq<char>| loop_envelope(id, other) == loop_envelope(id, message) ==> other == message,
{
    reveal_strlit("<quas-wex-exort loop-id=\"");
    reveal_strlit("\">\n");
    reveal_strlit("\n</quas-wex-exort>");
    let e = loop_envelope(id, message);
    assert(e.subrange(25, 25int + id.len()) =~= id);
    assert(e.subrange(28int + id.len(), 28int + id.len() + message.len()) =~= message);
    assert forall|other: Seq<char>| loop_envelope(id, other) == loop_envelope(id, message) implies other == message by {
        let f = loop_envelope(id, other);
        assert(f.len() == id.len() + other.len() + 46);
        assert(f.subrange(28int + id.len(), 28int + id.len() + other.len()) =~= other);
    }
}

/// The text loop `id` delivers each interval.
pub fn loop_message(id: &str, message: &str) -> (r: String)
    ensures
        r@ == loop_envelope(id@, message@),
        r@.len() == id@.len() + message@.len() + 46,
        r@.subrange(28int + id@.len(), 28int + id@.len() + message@.len()) == message@,
{
    let mut r = "<quas-wex-exort loop-id=\"".to_string();
    r.append(id);
    r.append("\">\n");
    r.append(message);
    r.append("\n</quas-wex-exort>");
    proof {
        lemma_envelope_carries_message(id@, message@);
    }
    r
}

/// When a cycle that starts at `now_ms` delivers: one full interval later.
pub open spec fn next_delivery(now_ms: u64, interval_seconds: u64) -> u128 {
    (now_ms + interval_seconds * 1000) as u128
}

/// What happens to a loop's worker.
pub enum LoopEvent {
    /// A new cycle starts at the given clock reading.
    CycleStart { now_ms: u64 },
    /// The cycle's deadline was reached.
    Due,
    /// The loop was ended.
    Ended,
}

/// What the worker does next.
pub enum LoopAction {
    /// Wait until the clock reads `until_ms`.
    SleepUntil { until_ms: u128 },
    /// Send `text` to the agent.
    Deliver { text: String },
    /// Stop for good.
    Stop,
}

/// One step of a loop's worker: every cycle waits one full interval, then
/// delivers the message in its envelope; an ended loop stops.
pub fn loop_step(id: &str, message: &str, interval_seconds: u64, event: LoopEvent) -> (r: LoopAction)
    ensures
        event matches LoopEvent::CycleStart { now_ms } ==> (r matches LoopAction::SleepUntil { until_ms }
            && until_ms == next_delivery(now_ms, interval_seconds)),
        event is Due ==> (r matches LoopAction::Deliver { text } && text@ == loop_envelope(id@, message@)),
        event is Due ==> (r matches LoopAction::Deliver { text } && text@.len() == id@.len() + message@.len() + 46
            && text@.subrange(28int + id@.len(), 28int + id@.len() + message@.len()) == message@),
        event is Ended ==> r is Stop,
{
    match event {
        LoopEvent::CycleStart { now_ms } => LoopAction::SleepUntil {
            until_ms: now_ms as u128 + interval_seconds as u128 * 1000,
        },
        LoopEvent::Due => LoopAction::Deliver { text: loop_message(id, message) },
        LoopEvent::Ended => LoopAction::Stop,
    }
}

/// Pacing over a run of a loop's worker. Suppose each cycle starts no
/// earlier than the loop began and no earlier than the previous delivery
/// finished, each delivery happens no earlier than the deadline
/// (`next_delivery`) that `loop_step` set when its cycle started, and
/// finishes no earlier than it happens. Then the first delivery comes at
/// least one full interval after the loop began, each later one at least one
/// full interval after the previous one finished, and any two deliveries `j`
/// and `k > j` are at least `k - j` intervals apart. All times are clock
/// readings in milliseconds.
pub proof fn lemma_loop_pacing(
    begun_ms: int,
    interval_seconds: u64,
    starts: Seq<u64>,
    delivered: Seq<int>,
    finished: Seq<int>,
)
    requires
        delivered.len() == starts.len(),
        finished.len() == starts.len(),
        forall|k: int| 0 <= k < starts.len() ==> begun_ms <= #[trigger] starts[k],
        forall|k: int| 0 < k < starts.len() ==> finished[k - 1] <= #[trigger] starts[k],
        forall|k: int| 0 <= k < starts.len() ==> next_delivery(starts[k], interval_seconds) <= #[trigger] delivered[k],
        forall|k: int| 0 <= k < starts.len() ==> delivered[k] <= #[trigger] finished[k],
    ensures
        starts.len() > 0 ==> begun_ms + interval_seconds * 1000 <= delivered[0],
        forall|k: int| 0 < k < starts.len() ==> finished[k - 1] + interval_seconds * 1000 <= #[trigger] delivered[k],
        forall|j: int, k: int| #![trigger delivered[j], delivered[k]] 0 <= j <= k < starts.len() ==>
            delivered[j] + (k - j) * (interval_seconds * 1000) <= delivered[k],
{
    assert forall|k: int| 0 <= k < starts.len() implies starts[k] + interval_seconds * 1000 <= #[trigger] delivered[k] by {
        assert(next_delivery(starts[k], interval_seconds) == starts[k] + interval_seconds * 1000);
    }
    assert forall|j: int, k: int| #![trigger delivered[j], delivered[k]] 0 <= j <= k < starts.len() implies
        delivered[j] + (k - j) * (interval_seconds * 1000) <= delivered[k] by {
        lemma_spacing(interval_seconds * 1000, starts, delivered, finished, j, k);
    }
}

proof fn lemma_spacing(step: int, starts: Seq<u64>, delivered: Seq<int>, finished: Seq<int>, j: int, k: int)
    requires
        0 <= j <= k < starts.len(),
        delivered.len() == starts.len(),
        finished.len() == starts.len(),
        forall|i: int| 0 < i < starts.len() ==> finished[i - 1] <= #[trigger] starts[i],
        forall|i: int| 0 <= i < starts.len() ==> starts[i] + step <= #[trigger] delivered[i],
        forall|i: int| 0 <= i < starts.len() ==> delivered[i] <= #[trigger] finished[i],
    ensures
        delivered[j] + (k - j) * step <= delivered[k],
    decreases k - j,
{
    if j < k {
        lemma_spacing(step, starts, delivered, finished, j, k - 1);
        assert(delivered[k - 1] <= finished[k - 1]);
        assert(finished[k - 1] <= starts[k]);
        assert(starts[k] + step <= delivered[k]);
        assert((k - j) * step == (k - 1 - j) * step + step) by (nonlinear_arith);
    } else {
        assert((k - j) * step == 0) by (nonlinear_arith)
            requires
                j == k,
        ;
    }
}

/// One live loop: its worker handle, its interval and the clock reading at
/// which it next delivers.
pub struct LoopSlot<H> {
    pub handle: H,
    pub interval_seconds: u64,
    pub next_at_ms: u128,
}

/// Whole seconds from `now_ms` until `next_at_ms`, saturating at zero.
pub open spec fn seconds_until(next_at_ms: u128, now_ms: u64) -> int {
    if next_at_ms > now_ms {
        (next_at_ms - now_ms) / 1000
    } else {
        0
    }
}

/// The per-process loop registry, keyed by AIH then loop id.
pub struct LoopRegistry<H> {
    by_aih: AihRegistry<LoopSlot<H>>,
    clock_ms: u64,
}

impl<H> View for LoopRegistry<H> {
    type V = Map<EntryKey, LoopSlot<H>>;

    closed spec fn view(&self) -> Map<EntryKey, LoopSlot<H>> {
        self.by_aih@
    }
}

impl<H> LoopRegistry<H> {
    /// The latest clock reading the registry was given.
    pub closed spec fn clock(&self) -> u64 {
        self.clock_ms
    }

    /// The registry's internal invariant: no loop is due later than one
    /// interval after the latest clock reading.
    #[verifier::type_invariant]
    spec fn wf(&self) -> bool {
        forall|k: EntryKey| #[trigger] self.by_aih@.contains_key(k) ==>
            self.by_aih@[k].next_at_ms <= next_delivery(self.clock_ms, self.by_aih@[k].interval_seconds)
    }

    /// An empty registry.
    pub fn new() -> (r: Self)
        ensures
            r.clock() == 0,
            r@ == Map::<EntryKey, LoopSlot<H>>::empty(),
    {
        LoopRegistry { by_aih: AihRegistry::new(), clock_ms: 0 }
    }

    /// The latest clock reading the registry was given.
    pub fn clock_ms(&self) -> (r: u64)
        ensures
            r == self.clock(),
    {
        self.clock_ms
    }

    /// Record a new loop for `aih`, begun at `now_ms`, that delivers every
    /// `interval_seconds` (first after one full interval), and return its
    /// fresh id.
    pub fn begin(&mut self, aih: String, interval_seconds: u64, now_ms: u64, handle: H) -> (id: String)
        requires
            now_ms >= old(self).clock(),
        ensures
            final(self).clock() == now_ms,
            well_formed_id(id@),
            exists|n: u64| id@ == id_for(n),
            final(self)@ == old(self)@.insert(
                (aih@, id@),
                LoopSlot { handle, interval_seconds, next_at_ms: next_delivery(now_ms, interval_seconds) },
            ),
    {
        proof {
            use_type_invariant(&*self);
        }
        self.clock_ms = now_ms;
        let slot = LoopSlot {
            handle,
            interval_seconds,
            next_at_ms: now_ms as u128 + interval_seconds as u128 * 1000,
        };
        let mut by_aih = AihRegistry::new();
        std::mem::swap(&mut by_aih, &mut self.by_aih);
        let id = by_aih.register(aih, slot);
        self.by_aih = by_aih;
        id
    }

    /// A new cycle of loop `id` starts at `now_ms`: it next delivers one full
    /// interval later. Nothing changes for a loop that has ended.
    pub fn cycle_started(&mut self, aih: &str, id: &str, now_ms: u64)
        requires
            now_ms >= old(self).clock(),
        ensures
            final(self).clock() == now_ms,
            old(self)@.contains_key((aih@, id@)) ==> final(self)@ == old(self)@.insert(
                (aih@, id@),
                LoopSlot {
                    next_at_ms: next_delivery(now_ms, old(self)@[(aih@, id@)].interval_seconds),
                    ..old(self)@[(aih@, id@)]
                },
            ),
            !old(self)@.contains_key((aih@, id@)) ==> final(self)@ == old(self)@,
    {
        proof {
            use_type_invariant(&*self);
        }
        self.clock_ms = now_ms;
        let mut by_aih = AihRegistry::new();
        std::mem::swap(&mut by_aih, &mut self.by_aih);
        match by_aih.take(aih, id) {
            Some(slot) => {
                let next = now_ms as u128 + slot.interval_seconds as u128 * 1000;
                let slot = LoopSlot { handle: slot.handle, interval_seconds: slot.interval_seconds, next_at_ms: next };
                by_aih.insert(aih.to_string(), id.to_string(), slot);
                proof {
                    assert(by_aih@ =~= old(self)@.insert(
                        (aih@, id@),
                        LoopSlot {
                            next_at_ms: next_delivery(now_ms, old(self)@[(aih@, id@)].interval_seconds),
                            ..old(self)@[(aih@, id@)]
                        },
                    ));
                }
            },
            None => {},
        }
        self.by_aih = by_aih;
    }

    /// End a loop: claim (remove) it and hand back its worker handle, so any
    /// later `end` for that id gets "loop not found".
    pub fn end(&mut self, aih: &str, id: &str) -> (r: (TextReply, Option<H>))
        ensures
            final(self).clock() == old(self).clock(),
            final(self)@ == old(self)@.remove((aih@, id@)),
            old(self)@.contains_key((aih@, id@)) ==> {
                &&& !r.0.is_error
                &&& r.0.text@ == "ended"@
                &&& r.1 == Some(old(self)@[(aih@, id@)].handle)
            },
            !old(self)@.contains_key((aih@, id@)) ==> {
                &&& r.0.is_error
                &&& r.0.text@ == "loop not found"@
                &&& r.1 is None
            },
    {
        proof {
            use_type_invariant(&*self);
        }
        let mut by_aih = AihRegistry::new();
        std::mem::swap(&mut by_aih, &mut self.by_aih);
        let taken = by_aih.take(aih, id);
        self.by_aih = by_aih;
        match taken {
            Some(slot) => (TextReply::success("ended".to_string()), Some(slot.handle)),
            None => (TextReply::error("loop not found".to_string()), None),
        }
    }

    /// The ids of the AIH's loops, each once.
    pub fn ids(&self, aih: &str) -> (r: Vec<String>)
        ensures
            string_views(r@).no_duplicates(),
            forall|id: Seq<char>| string_views(r@).contains(id) <==> self@.contains_key((aih@, id)),
    {
        self.by_aih.ids(aih)
    }

    /// The AIH's loops at clock reading `now_ms`: each id once, with the
    /// whole seconds until its next delivery (saturating at zero), which
    /// never exceed its interval.
    pub fn list(&self, aih: &str, now_ms: u64) -> (rows: Vec<(String, u64)>)
        requires
            now_ms >= self.clock(),
        ensures
            string_views(row_ids(rows@)).no_duplicates(),
            forall|id: Seq<char>| string_views(row_ids(rows@)).contains(id) <==> self@.contains_key((aih@, id)),
            forall|i: int| 0 <= i < rows@.len() ==> listed_row(self@, aih@, #[trigger] rows@[i], now_ms),
    {
        proof {
            use_type_invariant(self);
        }
        let ids = self.by_aih.ids(aih);
        let mut rows: Vec<(String, u64)> = Vec::new();
        let mut i: usize = 0;
        while i < ids.len()
            invariant
                forall|k: EntryKey| #[trigger] self@.contains_key(k) ==>
                    self@[k].next_at_ms <= next_delivery(self.clock(), self@[k].interval_seconds),
                now_ms >= self.clock(),
                i <= ids@.len(),
                forall|id: Seq<char>| string_views(ids@).contains(id) <==> self@.contains_key((aih@, id)),
                rows@.len() == i,
                row_ids(rows@) == ids@.take(i as int),
                forall|j: int| 0 <= j < rows@.len() ==> listed_row(self@, aih@, #[trigger] rows@[j], now_ms),
            decreases ids@.len() - i,
        {
            let id = ids[i].clone();
            proof {
                assert(string_views(ids@)[i as int] == id@);
                assert(string_views(ids@).contains(id@));
            }
            match self.by_aih.get(aih, id.as_str()) {
                Some(slot) => {
                    let ghost k = (aih@, id@);
                    assert(slot.next_at_ms <= next_delivery(self.clock_ms, slot.interval_seconds));
                    let secs: u128 = if slot.next_at_ms > now_ms as u128 {
                        (slot.next_at_ms - now_ms as u128) / 1000
                    } else {
                        0
                    };
                    assert(secs <= slot.interval_seconds) by (nonlinear_arith)
                        requires
                            slot.next_at_ms <= self.clock_ms + slot.interval_seconds * 1000,
                            now_ms >= self.clock_ms,
                            secs == (if slot.next_at_ms > now_ms { (slot.next_at_ms - now_ms) / 1000 } else { 0int }),
                    ;
                    let ghost before = rows@;
                    rows.push((id, secs as u64));
                    proof {
                        assert(listed_row(self@, aih@, rows@[i as int], now_ms));
                        assert forall|j: int| 0 <= j < rows@.len() implies listed_row(self@, aih@, #[trigger] rows@[j], now_ms) by {
                            if j < i {
                                assert(rows@[j] == before[j]);
                            }
                        }
                        assert(row_ids(rows@) =~= ids@.take(i + 1)) by {
                            assert(ids@.take(i + 1) =~= ids@.take(i as int).push(ids@[i as int]));
                            assert(row_ids(rows@) =~= row_ids(before).push(rows@[i as int].0));
                        }
                    }
                },
                None => {
                    assert(false);
                },
            }
            i = i + 1;
        }
        proof {
            assert(ids@.take(ids@.len() as int) =~= ids@);
        }
        rows
    }
}

/// `row` lists a live loop of `aih` with the whole seconds until its next
/// delivery at clock reading `now_ms`, which do not exceed its interval.
pub open spec fn listed_row<H>(m: Map<EntryKey, LoopSlot<H>>, aih: Seq<char>, row: (String, u64), now_ms: u64) -> bool {
    &&& m.contains_key((aih, row.0@))
    &&& row.1 == seconds_until(m[(aih, row.0@)].next_at_ms, now_ms)
    &&& row.1 <= m[(aih, row.0@)].interval_seconds
}

/// The ids of listed rows.
pub open spec fn row_ids(rows: Seq<(String, u64)>) -> Seq<String> {
    rows.map_values(|r: (String, u64)| r.0)
}

/// The rows of a loop listing as JSON object rows.
pub open spec fn loop_rows(rows: Seq<(String, u64)>) -> Seq<(Seq<char>, FieldView)> {
    rows.map_values(|r: (String, u64)| (r.0@, FieldView::Count(r.1)))
}

/// The reply listing loops: a JSON array with one
/// `{"loop_id", "seconds_until_next_run"}` object per row, in order.
pub fn loop_list_reply(rows: &Vec<(String, u64)>) -> (r: TextReply)
    ensures
        !r.is_error,
        r.text@ == json_object_rows("loop_id"@, "seconds_until_next_run"@, loop_rows(rows@)),
{
    let mut out: Vec<(String, JsonField)> = Vec::new();
    let mut i: usize = 0;
    while i < rows.len()
        invariant
            i <= rows@.len(),
            row_views(out@) == loop_rows(rows@.take(i as int)),
        decreases rows@.len() - i,
    {
        let row = (rows[i].0.clone(), JsonField::Count(rows[i].1));
        proof {
            assert(rows@.take(i + 1) =~= rows@.take(i as int).push(rows@[i as int]));
            assert(row_views(out@.push(row)) =~= row_views(out@).push((row.0@, row.1@)));
        }
        out.push(row);
        proof {
            assert(row_views(out@) =~= loop_rows(rows@.take(i + 1)));
        }
        i = i + 1;
    }
    proof {
        assert(rows@.take(rows@.len() as int) =~= rows@);
    }
    proof {
        reveal_strlit("loop_id");
        reveal_strlit("seconds_until_next_run");
        assert("loop_id"@[0] != "seconds_until_next_run"@[0]);
    }
    let encoded = encode_object_rows("loop_id", "seconds_until_next_run", &out);
    TextReply::success(listing_body(encoded))
}

} // verus!
