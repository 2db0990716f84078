//! What holds of every run.
//!
//! A run is the simulator of a run that has not begun, and the events that
//! the caller has handed to it so far, each one the answer that the simulator
//! was waiting for. The functions here read off such a run what the chain
//! client and the sink have seen of it; the laws relate them.

use crate::record::{record_line, BlockMetricsRecord};
use crate::simulation::{
    exit_status, lemma_step_preserves_wf, ActionView, Event, Phase, SimError, Simulator,
};
use crate::start::{BlockHash, ResolutionError, StartPoint};
use vstd::prelude::*;

verus! {

/// Whether `start` is a well-formed simulator of a run that has not begun.
pub open spec fn is_fresh(start: Simulator) -> bool {
    start.wf() && start.phase is Created
}

/// The simulator after it has taken `events` in their order.
pub open spec fn state_after(start: Simulator, events: Seq<Event>) -> Simulator
    decreases events.len(),
{
    if events.len() == 0 {
        start
    } else {
        state_after(start, events.drop_last()).after(events.last())
    }
}

/// Whether each of `events` answers what the simulator was waiting for when
/// it came.
pub open spec fn admitted(start: Simulator, events: Seq<Event>) -> bool
    decreases events.len(),
{
    events.len() > 0 ==> {
        &&& admitted(start, events.drop_last())
        &&& state_after(start, events.drop_last()).accepts(events.last())
    }
}

/// The action with which the simulator answered the last of `events`.
pub open spec fn last_reaction(start: Simulator, events: Seq<Event>) -> ActionView
    recommends
        events.len() > 0,
{
    state_after(start, events.drop_last()).reaction(events.last())
}

/// The lines that the sink holds: each line that the simulator asked to
/// append and that the sink then took, in their order.
pub open spec fn persisted(start: Simulator, events: Seq<Event>) -> Seq<Seq<u8>>
    decreases events.len(),
{
    if events.len() == 0 {
        Seq::empty()
    } else {
        let before = events.drop_last();
        let earlier = persisted(start, before);
        if events.last() == Event::Appended(true) && before.len() > 0 {
            match last_reaction(start, before) {
                ActionView::Append { line } => earlier.push(line),
                _ => earlier,
            }
        } else {
            earlier
        }
    }
}

/// The records that the metrics queries reported, in their order.
pub open spec fn delivered(events: Seq<Event>) -> Seq<BlockMetricsRecord>
    decreases events.len(),
{
    if events.len() == 0 {
        Seq::empty()
    } else {
        match events.last() {
            Event::Queried(Some(record)) => delivered(events.drop_last()).push(record),
            _ => delivered(events.drop_last()),
        }
    }
}

/// The parent of each block that the simulator asked to build, in the order
/// of the requests.
pub open spec fn parents(start: Simulator, events: Seq<Event>) -> Seq<BlockHash>
    decreases events.len(),
{
    if events.len() == 0 {
        Seq::empty()
    } else {
        let earlier = parents(start, events.drop_last());
        match last_reaction(start, events) {
            ActionView::Build { parent } => earlier.push(parent),
            _ => earlier,
        }
    }
}

/// The hash of each block that was built, in their order.
pub open spec fn built(events: Seq<Event>) -> Seq<BlockHash>
    decreases events.len(),
{
    if events.len() == 0 {
        Seq::empty()
    } else {
        match events.last() {
            Event::Built(Ok(block)) => built(events.drop_last()).push(block),
            _ => built(events.drop_last()),
        }
    }
}

/// How often the simulator asked for the sink to be flushed.
pub open spec fn flushes(start: Simulator, events: Seq<Event>) -> nat
    decreases events.len(),
{
    if events.len() == 0 {
        0
    } else {
        let earlier = flushes(start, events.drop_last());
        match last_reaction(start, events) {
            ActionView::Flush => earlier + 1,
            _ => earlier,
        }
    }
}

/// Whether the shutdown monitor has reported a request to stop.
pub open spec fn cancelled(events: Seq<Event>) -> bool
    decreases events.len(),
{
    events.len() > 0 && (cancelled(events.drop_last()) || events.last() == Event::ShutdownPolled(
        true,
    ))
}

/// The hash of the block from which the run starts: the hash that the start
/// request spells out, or else the one that the chain client reported.
pub open spec fn origin(start: Simulator, events: Seq<Event>) -> BlockHash {
    match start.start {
        StartPoint::Hash(hash) => hash,
        _ => match events[1] {
            Event::StartResolved(Some(hash)) => hash,
            _ => BlockHash::zero(),
        },
    }
}

/// Whether the run has ended or is ending: the last flush has been asked
/// for.
pub open spec fn is_over(simulator: Simulator) -> bool {
    simulator.phase is Closing || simulator.phase is Finished
}

/// Whether a block is being stepped.
pub open spec fn in_step(simulator: Simulator) -> bool {
    simulator.phase is Building || simulator.phase is Importing || simulator.phase is Querying
        || simulator.phase is Emitted
}

/// Every run keeps the simulator well formed.
pub proof fn lemma_run_keeps_wf(start: Simulator, events: Seq<Event>)
    requires
        start.wf(),
        admitted(start, events),
    ensures
        state_after(start, events).wf(),
    decreases events.len(),
{
    if events.len() > 0 {
        lemma_run_keeps_wf(start, events.drop_last());
        lemma_step_preserves_wf(state_after(start, events.drop_last()), events.last());
    }
}

/// The failure that `event` reports to a simulator that waits for it, if it
/// reports one.
pub open spec fn failure_of(simulator: Simulator, event: Event) -> Option<SimError> {
    match event {
        Event::StartResolved(None) => Some(SimError::Resolution(ResolutionError::BlockNotFound)),
        Event::Built(Err(error)) => Some(SimError::Build(error)),
        Event::Imported(false) => Some(SimError::Import),
        Event::Queried(None) => Some(SimError::Query),
        Event::Appended(false) => Some(SimError::Io),
        Event::Flushed(false) => if simulator.phase is Flushing {
            Some(SimError::Io)
        } else {
            None
        },
        _ => None,
    }
}

/// What the proof about the lines of the sink carries from event to event.
spec fn lines_inv(start: Simulator, events: Seq<Event>) -> bool {
    let state = state_after(start, events);
    let emitted = state.run.blocks_emitted as int;
    let lines = persisted(start, events);
    let records = delivered(events);
    &&& lines.len() == emitted
    &&& emitted <= records.len() <= emitted + 1
    &&& forall|k: int| 0 <= k < lines.len() ==> #[trigger] lines[k] == record_line(records[k])
    &&& state.phase is Emitted ==> {
        &&& events.len() >= 1
        &&& records.len() == emitted + 1
        &&& last_reaction(start, events) == (ActionView::Append {
            line: record_line(records.last()),
        })
    }
    &&& !(state.phase is Emitted) && !is_over(state) ==> records.len() == emitted
}

proof fn lemma_lines_inv(start: Simulator, events: Seq<Event>)
    requires
        is_fresh(start),
        admitted(start, events),
    ensures
        lines_inv(start, events),
    decreases events.len(),
{
    lemma_run_keeps_wf(start, events);
    if events.len() > 0 {
        let before = events.drop_last();
        let event = events.last();
        lemma_lines_inv(start, before);
        lemma_run_keeps_wf(start, before);
        let prev = state_after(start, before);
        let state = state_after(start, events);
        let lines = persisted(start, events);
        let records = delivered(events);
        assert(state == prev.step(event).0);
        if event == Event::Appended(true) {
            let line = record_line(delivered(before).last());
            assert(lines == persisted(start, before).push(line));
        }
    }
}

/// What the proof about the chain of blocks carries from event to event.
spec fn chain_inv(start: Simulator, events: Seq<Event>) -> bool {
    let state = state_after(start, events);
    let asked = parents(start, events);
    let made = built(events);
    &&& made.len() <= asked.len() <= made.len() + 1
    &&& forall|k: int| 0 < k < asked.len() ==> #[trigger] asked[k] == made[k - 1]
    &&& asked.len() > 0 ==> asked[0] == origin(start, events)
    &&& state.phase is Created || state.phase is Resolving || start.start is Hash || events.len()
        >= 2
    &&& match state.phase {
        Phase::Created => events.len() == 0,
        Phase::Resolving => {
            &&& events.len() == 1
            &&& asked.len() == 0
            &&& made.len() == 0
            &&& !(start.start is Hash)
        },
        Phase::Idle | Phase::Flushing | Phase::Reporting => {
            &&& events.len() >= 1
            &&& asked.len() == made.len()
            &&& made.len() > 0 ==> state.run.current_parent_hash == made.last()
            &&& made.len() == 0 ==> state.run.current_parent_hash == origin(start, events)
        },
        Phase::Building => asked.len() == made.len() + 1,
        Phase::Importing | Phase::Querying | Phase::Emitted => {
            &&& asked.len() == made.len()
            &&& made.len() > 0
            &&& state.candidate == made.last()
        },
        Phase::Closing | Phase::Finished => true,
    }
}

proof fn lemma_chain_inv(start: Simulator, events: Seq<Event>)
    requires
        is_fresh(start),
        admitted(start, events),
    ensures
        chain_inv(start, events),
    decreases events.len(),
{
    if events.len() > 0 {
        let before = events.drop_last();
        let event = events.last();
        lemma_chain_inv(start, before);
        let prev = state_after(start, before);
        let state = state_after(start, events);
        assert(state == prev.step(event).0);
        assert(last_reaction(start, events) == prev.step(event).1);
        if before.len() >= 2 {
            assert(before[1] == events[1]);
        }
        if before.len() == 1 {
            assert(events[1] == event);
        }
    }
}

/// How many flushes have fallen due in a run because `flush_interval`
/// records had gathered: one for every full `flush_interval` of emitted
/// blocks.
#[verifier::opaque]
spec fn flushes_due(simulator: Simulator) -> int {
    simulator.run.blocks_emitted as int / simulator.flush_interval as int
}

/// What the proof about the number of flushes carries from event to event.
spec fn flush_inv(start: Simulator, events: Seq<Event>) -> bool {
    let state = state_after(start, events);
    flushes(start, events) == flushes_due(state) + (if is_over(state) {
        1int
    } else {
        0int
    })
}

proof fn lemma_flushes_due_step(prev: Simulator, next: Simulator)
    requires
        prev.flush_interval > 0,
        next.flush_interval == prev.flush_interval,
    ensures
        next.run.blocks_emitted == prev.run.blocks_emitted ==> flushes_due(next) == flushes_due(
            prev,
        ),
        next.run.blocks_emitted == prev.run.blocks_emitted + 1 ==> flushes_due(next)
            == flushes_due(prev) + (if next.run.blocks_emitted % next.flush_interval == 0 {
            1int
        } else {
            0int
        }),
        prev.run.blocks_emitted == 0 ==> flushes_due(prev) == 0,
        ((prev.run.blocks_emitted + 1) % (prev.flush_interval as int) == 0) <==> (
        prev.run.blocks_emitted % prev.flush_interval + 1 == prev.flush_interval),
{
    reveal(flushes_due);
    let emitted = prev.run.blocks_emitted as int;
    let interval = prev.flush_interval as int;
    assert(((emitted + 1) % interval == 0) <==> (emitted % interval + 1 == interval))
        by (nonlinear_arith)
        requires
            emitted >= 0,
            interval > 0,
    ;
    assert((emitted + 1) % interval == 0 ==> (emitted + 1) / interval == emitted / interval + 1)
        by (nonlinear_arith)
        requires
            emitted >= 0,
            interval > 0,
    ;
    assert((emitted + 1) % interval != 0 ==> (emitted + 1) / interval == emitted / interval)
        by (nonlinear_arith)
        requires
            emitted >= 0,
            interval > 0,
    ;
    assert(0int / interval == 0) by (nonlinear_arith)
        requires
            interval > 0,
    ;
}

proof fn lemma_flush_inv(start: Simulator, events: Seq<Event>)
    requires
        is_fresh(start),
        admitted(start, events),
    ensures
        flush_inv(start, events),
    decreases events.len(),
{
    lemma_run_keeps_wf(start, events);
    if events.len() == 0 {
        lemma_flushes_due_step(start, start);
    } else {
        let before = events.drop_last();
        let event = events.last();
        lemma_flush_inv(start, before);
        lemma_run_keeps_wf(start, before);
        let prev = state_after(start, before);
        let state = state_after(start, events);
        assert(state == prev.step(event).0);
        assert(last_reaction(start, events) == prev.step(event).1);
        lemma_flushes_due_step(prev, state);
    }
}

/// What the proof about completed runs carries from event to event.
spec fn completion_inv(start: Simulator, events: Seq<Event>) -> bool {
    let state = state_after(start, events);
    let emitted = state.run.blocks_emitted as int;
    let asked = parents(start, events);
    &&& !is_over(state) ==> !cancelled(events)
    &&& !is_over(state) ==> asked.len() == emitted + (if in_step(state) {
        1int
    } else {
        0int
    })
    &&& is_over(state) ==> emitted <= asked.len() <= emitted + 1
    &&& is_over(state) && state.failure is None && !cancelled(events) ==> emitted == state.horizon
        && asked.len() == emitted
}

proof fn lemma_completion_inv(start: Simulator, events: Seq<Event>)
    requires
        is_fresh(start),
        admitted(start, events),
    ensures
        completion_inv(start, events),
    decreases events.len(),
{
    lemma_run_keeps_wf(start, events);
    if events.len() > 0 {
        let before = events.drop_last();
        let event = events.last();
        lemma_completion_inv(start, before);
        lemma_run_keeps_wf(start, before);
        let prev = state_after(start, before);
        let state = state_after(start, events);
        assert(state == prev.step(event).0);
        assert(last_reaction(start, events) == prev.step(event).1);
    }
}

/// A run changes nothing of what it was asked to do: the start point, the
/// horizon and the two intervals stay as they were.
pub proof fn lemma_run_keeps_settings(start: Simulator, events: Seq<Event>)
    requires
        admitted(start, events),
    ensures
        state_after(start, events).start == start.start,
        state_after(start, events).horizon == start.horizon,
        state_after(start, events).progress_interval == start.progress_interval,
        state_after(start, events).flush_interval == start.flush_interval,
    decreases events.len(),
{
    if events.len() > 0 {
        lemma_run_keeps_settings(start, events.drop_last());
        let prev = state_after(start, events.drop_last());
        assert(state_after(start, events) == prev.step(events.last()).0);
    }
}

/// The sink holds one line for each emitted block, and no other line: the
/// lines it holds are, in their order, the lines of the records that the
/// metrics queries reported. At most one reported record has no line in the
/// sink, and that is the last one reported.
pub proof fn lemma_sink_holds_one_line_per_block(start: Simulator, events: Seq<Event>)
    requires
        is_fresh(start),
        admitted(start, events),
    ensures
        persisted(start, events).len() == state_after(start, events).run.blocks_emitted,
        persisted(start, events).len() <= delivered(events).len() <= persisted(start, events).len()
            + 1,
        forall|k: int|
            0 <= k < persisted(start, events).len() ==> #[trigger] persisted(start, events)[k]
                == record_line(delivered(events)[k]),
{
    lemma_lines_inv(start, events);
}

/// The chain of a run has no gap: every block but the first is built on the
/// block built before it, and the first on the block from which the run
/// starts. No block is asked for before the one before it is built and its
/// line is in the sink.
pub proof fn lemma_chain_is_continuous(start: Simulator, events: Seq<Event>)
    requires
        is_fresh(start),
        admitted(start, events),
    ensures
        built(events).len() <= parents(start, events).len() <= built(events).len() + 1,
        persisted(start, events).len() <= parents(start, events).len() <= persisted(
            start,
            events,
        ).len() + 1,
        forall|k: int|
            0 < k < parents(start, events).len() ==> #[trigger] parents(start, events)[k] == built(
                events,
            )[k - 1],
        parents(start, events).len() > 0 ==> parents(start, events)[0] == origin(start, events),
{
    lemma_chain_inv(start, events);
    lemma_completion_inv(start, events);
    lemma_lines_inv(start, events);
}

/// The sink is flushed once for every full `flush_interval` of emitted
/// blocks, and exactly once more when the run ends, however it ends and
/// wherever the count of blocks stands.
pub proof fn lemma_flushes_follow_the_interval(start: Simulator, events: Seq<Event>)
    requires
        is_fresh(start),
        admitted(start, events),
    ensures
        flushes(start, events) == state_after(start, events).run.blocks_emitted as int
            / start.flush_interval as int + (if is_over(state_after(start, events)) {
            1int
        } else {
            0int
        }),
{
    lemma_flush_inv(start, events);
    lemma_run_keeps_settings(start, events);
    reveal(flushes_due);
}

/// When the sink takes a line, a flush follows at once if and only if the
/// number of emitted blocks has reached a multiple of `flush_interval`.
pub proof fn lemma_flush_falls_due(simulator: Simulator)
    requires
        simulator.wf(),
        simulator.phase is Emitted,
    ensures
        simulator.after(Event::Appended(true)).phase is Flushing <==> (
        simulator.run.blocks_emitted + 1) % (simulator.flush_interval as int) == 0,
        simulator.after(Event::Appended(true)).phase is Flushing ==> simulator.reaction(
            Event::Appended(true),
        ) == ActionView::Flush,
{
    lemma_flushes_due_step(simulator, simulator);
}

/// A request to stop that the shutdown monitor reports between two blocks
/// ends the run without error: the sink is flushed, no further block is
/// built, the sink holds the lines of the blocks emitted until then and no
/// more, and the exit code is 0.
pub proof fn lemma_cancellation_ends_run(start: Simulator, events: Seq<Event>)
    requires
        is_fresh(start),
        admitted(start, events),
        state_after(start, events).phase is Idle,
    ensures
        ({
            let emitted = state_after(start, events).run.blocks_emitted;
            let polled = events.push(Event::ShutdownPolled(true));
            let ended = polled.push(Event::Flushed(true));
            &&& admitted(start, ended)
            &&& last_reaction(start, polled) == ActionView::Flush
            &&& state_after(start, ended).phase is Finished
            &&& last_reaction(start, ended) == (ActionView::Stop { outcome: Ok(emitted) })
            &&& exit_status(Ok(emitted)) == 0
            &&& persisted(start, ended) == persisted(start, events)
            &&& persisted(start, ended).len() == emitted
            &&& parents(start, ended) == parents(start, events)
        }),
{
    lemma_run_keeps_wf(start, events);
    lemma_lines_inv(start, events);
    let state = state_after(start, events);
    let polled = events.push(Event::ShutdownPolled(true));
    let ended = polled.push(Event::Flushed(true));
    assert(polled.drop_last() == events);
    assert(ended.drop_last() == polled);
    assert(state_after(start, polled) == state.step(Event::ShutdownPolled(true)).0);
    assert(admitted(start, polled));
    assert(admitted(start, ended));
    let emitted = state.run.blocks_emitted;
    assert(last_reaction(start, polled) == ActionView::Flush);
    assert(state_after(start, ended).phase is Finished);
    assert(last_reaction(start, ended) == (ActionView::Stop { outcome: Ok(emitted) }));
    assert(persisted(start, polled) == persisted(start, events));
    assert(persisted(start, ended) == persisted(start, polled));
    assert(parents(start, polled) == parents(start, events));
    assert(parents(start, ended) == parents(start, polled));
}

/// A failure ends the run at once: the sink is flushed for the last time and
/// the run stops with that failure and exit code 1, whether or not the flush
/// succeeds. Nothing is retried, no block is skipped, and the sink holds the
/// lines of the blocks emitted before the failure and no more.
pub proof fn lemma_failure_ends_run(
    start: Simulator,
    events: Seq<Event>,
    failure: Event,
    flushed: bool,
)
    requires
        is_fresh(start),
        admitted(start, events),
        state_after(start, events).accepts(failure),
        failure_of(state_after(start, events), failure) is Some,
    ensures
        ({
            let error = failure_of(state_after(start, events), failure)->0;
            let failed = events.push(failure);
            let ended = failed.push(Event::Flushed(flushed));
            &&& admitted(start, ended)
            &&& last_reaction(start, failed) == ActionView::Flush
            &&& state_after(start, ended).phase is Finished
            &&& last_reaction(start, ended) == (ActionView::Stop { outcome: Err(error) })
            &&& exit_status(Err(error)) == 1
            &&& persisted(start, ended) == persisted(start, events)
            &&& parents(start, ended) == parents(start, events)
        }),
{
    lemma_run_keeps_wf(start, events);
    let state = state_after(start, events);
    let failed = events.push(failure);
    let ended = failed.push(Event::Flushed(flushed));
    assert(failed.drop_last() == events);
    assert(ended.drop_last() == failed);
    assert(state_after(start, failed) == state.step(failure).0);
    assert(admitted(start, failed));
    assert(admitted(start, ended));
    assert(failure != Event::Appended(true));
    assert(last_reaction(start, failed) == ActionView::Flush);
    assert(state_after(start, failed).phase is Closing);
    assert(state_after(start, ended).phase is Finished);
    assert(persisted(start, failed) == persisted(start, events));
    assert(persisted(start, ended) == persisted(start, failed));
    assert(parents(start, failed) == parents(start, events));
    assert(parents(start, ended) == parents(start, failed));
}

/// A run that ends without a failure and without a request to stop has
/// emitted exactly as many blocks as its horizon asks for, and has asked for
/// exactly that many blocks to be built.
pub proof fn lemma_complete_run_reaches_horizon(start: Simulator, events: Seq<Event>)
    requires
        is_fresh(start),
        admitted(start, events),
        is_over(state_after(start, events)),
        state_after(start, events).failure is None,
        !cancelled(events),
    ensures
        state_after(start, events).run.blocks_emitted == start.horizon,
        parents(start, events).len() == start.horizon,
{
    lemma_completion_inv(start, events);
    lemma_run_keeps_settings(start, events);
}

} // verus!
