//! The run of a simulation as a state machine.
//!
//! The [`Simulator`] makes every decision of a run and performs none of its
//! work. The caller performs each [`Action`] on the chain client, the sink or
//! the shutdown monitor, and hands the outcome back as the [`Event`] that
//! answers it; [`Simulator::advance`] then gives the next action, until it
//! gives [`Action::Stop`].
//!
//! One block is stepped in four stages, each of which must succeed before the
//! next begins: the block is built on the current parent from inherent
//! extrinsics only, imported, queried for its metrics, and its record is
//! appended to the sink. Only then does the block become the parent of the
//! next one. Any failure ends the run: nothing is retried and no block is
//! skipped. The shutdown monitor is polled between blocks, never within one.
//! The sink is flushed after every `flush_interval` appended records and once
//! more when the run ends, however it ends.

use crate::config::{horizon_fits, horizon_of, resolve_horizon, ConfigError, BLOCKS_PER_DAY};
use crate::record::{record_line, BlockMetricsRecord};
use crate::start::{
    resolve_start_point, start_point_matches, BlockHash, ResolutionError, StartPoint,
};
use vstd::prelude::*;
use vstd::utf8::encode_utf8;

verus! {

/// Why a block could not be built.
#[derive(Clone, Copy, Debug, PartialEq, Eq)]
pub enum BuildError {
    /// The chain client holds no header for the parent.
    ParentHeaderMissing,
    /// The inherent extrinsics could not be made or the block not assembled.
    ExtrinsicAssembly,
}

/// Why a run failed.
#[derive(Clone, Copy, Debug, PartialEq, Eq)]
pub enum SimError {
    /// The horizon inputs do not name one block count.
    Config(ConfigError),
    /// No starting block could be found.
    Resolution(ResolutionError),
    /// A block could not be built on its parent.
    Build(BuildError),
    /// The chain client rejected a built block.
    Import,
    /// The metrics of an imported block could not be queried.
    Query,
    /// The sink could not be written or flushed.
    Io,
}

/// What a run is asked to do, as the user states it.
#[derive(Clone, Debug, PartialEq, Eq)]
pub struct SimulationConfig {
    /// The starting block: the hash after `0x`, or a height in decimal; the
    /// tip of the chain if absent.
    pub start_point: Option<String>,
    /// The horizon as a number of blocks.
    pub horizon_blocks: Option<u64>,
    /// The horizon as a number of days.
    pub horizon_days: Option<u64>,
    /// Progress is reported after every so many blocks.
    pub progress_interval: u64,
    /// The sink is flushed after every so many records.
    pub flush_interval: u64,
}

/// What changes from block to block in a run.
#[derive(Clone, Copy, Debug, PartialEq, Eq)]
pub struct RunState {
    /// Hash of the block on which the next one is built. Before the start
    /// point is resolved it is all zeros and stands for nothing.
    pub current_parent_hash: BlockHash,
    /// Number of blocks whose record the sink has taken.
    pub blocks_emitted: u64,
    /// Number of records that the sink has taken since its last flush.
    pub sink_cursor: u64,
}

/// Where a run stands: which answer the simulator waits for.
#[derive(Clone, Copy, Debug, PartialEq, Eq)]
pub enum Phase {
    /// Nothing has been asked yet.
    Created,
    /// The chain client has been asked for the hash of the starting block.
    Resolving,
    /// Between two blocks: the shutdown monitor has been asked.
    Idle,
    /// A block is being built on the current parent.
    Building,
    /// The built block is being imported.
    Importing,
    /// The metrics of the imported block are being queried.
    Querying,
    /// The record of the block has been handed to the sink.
    Emitted,
    /// The sink is being flushed because `flush_interval` records are due.
    Flushing,
    /// Progress is being reported.
    Reporting,
    /// The run is over and the sink is being flushed for the last time.
    Closing,
    /// The run has stopped.
    Finished,
}

/// The outcome of the action that the simulator asked for last.
#[derive(Debug, PartialEq, Eq)]
pub enum Event {
    /// The caller is ready to run. It answers no action and comes first.
    Begin,
    /// The chain client's answer to [`Action::QueryTip`] or
    /// [`Action::ResolveHeight`]: the hash, or `None` if it holds no such
    /// block.
    StartResolved(Option<BlockHash>),
    /// Whether the shutdown monitor has seen a request to stop.
    ShutdownPolled(bool),
    /// The hash of the block that was built, or why none was.
    Built(Result<BlockHash, BuildError>),
    /// Whether the chain client took the block.
    Imported(bool),
    /// The metrics of the block, or `None` if the query failed.
    Queried(Option<BlockMetricsRecord>),
    /// Whether the sink took the line.
    Appended(bool),
    /// Whether the sink was flushed.
    Flushed(bool),
    /// Progress has been reported.
    Reported,
}

/// What the caller is to do next.
#[derive(Debug, PartialEq, Eq)]
pub enum Action {
    /// Ask the chain client for the hash of its best block.
    QueryTip,
    /// Ask the chain client for the hash of the block at this height.
    ResolveHeight(u64),
    /// Ask the shutdown monitor, without waiting, whether to stop.
    PollShutdown,
    /// Fetch the header of `parent` and build a block on it that holds the
    /// inherent extrinsics and nothing else.
    Build { parent: BlockHash },
    /// Import the block that was just built and wait until that is done.
    Import { block: BlockHash },
    /// Query the metrics of the imported block.
    Query { block: BlockHash },
    /// Append this line to the sink.
    Append { line: Vec<u8> },
    /// Flush the sink.
    Flush,
    /// Report that this many blocks are done.
    Report { blocks: u64 },
    /// Stop. The outcome is the number of blocks emitted, or the failure.
    Stop { outcome: Result<u64, SimError> },
}

/// An [`Action`] as contracts see it: the line is a sequence of bytes.
pub enum ActionView {
    QueryTip,
    ResolveHeight(u64),
    PollShutdown,
    Build { parent: BlockHash },
    Import { block: BlockHash },
    Query { block: BlockHash },
    Append { line: Seq<u8> },
    Flush,
    Report { blocks: u64 },
    Stop { outcome: Result<u64, SimError> },
}

impl View for Action {
    type V = ActionView;

    open spec fn view(&self) -> ActionView {
        match *self {
            Action::QueryTip => ActionView::QueryTip,
            Action::ResolveHeight(height) => ActionView::ResolveHeight(height),
            Action::PollShutdown => ActionView::PollShutdown,
            Action::Build { parent } => ActionView::Build { parent },
            Action::Import { block } => ActionView::Import { block },
            Action::Query { block } => ActionView::Query { block },
            Action::Append { line } => ActionView::Append { line: line@ },
            Action::Flush => ActionView::Flush,
            Action::Report { blocks } => ActionView::Report { blocks },
            Action::Stop { outcome } => ActionView::Stop { outcome },
        }
    }
}

/// The decisions of one run.
#[derive(Clone, Copy, Debug, PartialEq, Eq)]
pub struct Simulator {
    /// Where the run starts.
    pub start: StartPoint,
    /// Number of blocks to produce.
    pub horizon: u64,
    /// Progress is reported after every so many blocks.
    pub progress_interval: u64,
    /// The sink is flushed after every so many records.
    pub flush_interval: u64,
    /// Which answer the simulator waits for.
    pub phase: Phase,
    /// Hash of the block that is being stepped. It stands for nothing
    /// outside the phases `Importing`, `Querying` and `Emitted`.
    pub candidate: BlockHash,
    /// The failure that ended the run, if one did.
    pub failure: Option<SimError>,
    /// What changes from block to block.
    pub run: RunState,
}

/// The process exit code for the outcome of a run: 0 when the run completed
/// or was stopped on request, 1 when it failed.
pub open spec fn exit_status(outcome: Result<u64, SimError>) -> i32 {
    if outcome is Ok {
        0
    } else {
        1
    }
}

/// The process exit code for the outcome of a run: 0 when the run completed
/// or was stopped on request, 1 when it failed.
pub fn exit_code(outcome: &Result<u64, SimError>) -> (code: i32)
    ensures
        code == exit_status(*outcome),
{
    match outcome {
        Ok(_) => 0,
        Err(_) => 1,
    }
}

impl SimulationConfig {
    /// Whether a simulator can be made for this configuration: both
    /// intervals are positive and the horizon can be held in a `u64`.
    pub open spec fn within_limits(&self) -> bool {
        &&& self.progress_interval > 0
        &&& self.flush_interval > 0
        &&& horizon_fits(self.horizon_blocks, self.horizon_days)
    }

    /// Whether a simulator can be made for this configuration.
    pub fn fits(&self) -> (fits: bool)
        ensures
            fits == self.within_limits(),
    {
        let horizon_fits: bool = match (self.horizon_blocks, self.horizon_days) {
            (None, Some(days)) => days <= u64::MAX / BLOCKS_PER_DAY,
            _ => true,
        };
        self.progress_interval > 0 && self.flush_interval > 0 && horizon_fits
    }
}

impl Simulator {
    /// The simulator of a run that has not begun.
    pub open spec fn initial(
        start: StartPoint,
        horizon: u64,
        progress_interval: u64,
        flush_interval: u64,
    ) -> Simulator {
        Simulator {
            start,
            horizon,
            progress_interval,
            flush_interval,
            phase: Phase::Created,
            candidate: BlockHash::zero(),
            failure: None,
            run: RunState {
                current_parent_hash: BlockHash::zero(),
                blocks_emitted: 0,
                sink_cursor: 0,
            },
        }
    }

    /// What holds of a simulator at every moment of a run.
    pub open spec fn wf(self) -> bool {
        &&& self.progress_interval > 0
        &&& self.flush_interval > 0
        &&& self.run.blocks_emitted <= self.horizon
        &&& self.run.sink_cursor <= self.flush_interval
        &&& match self.phase {
            Phase::Created | Phase::Resolving => {
                &&& self.failure is None
                &&& self.run.blocks_emitted == 0
                &&& self.run.sink_cursor == 0
            },
            Phase::Idle | Phase::Building | Phase::Importing | Phase::Querying | Phase::Emitted => {
                &&& self.failure is None
                &&& self.run.blocks_emitted < self.horizon
                &&& self.run.sink_cursor == self.run.blocks_emitted % self.flush_interval
            },
            Phase::Flushing => {
                &&& self.failure is None
                &&& self.run.blocks_emitted > 0
                &&& self.run.sink_cursor == self.flush_interval
                &&& self.run.blocks_emitted % self.flush_interval == 0
            },
            Phase::Reporting => {
                &&& self.failure is None
                &&& self.run.blocks_emitted > 0
                &&& self.run.sink_cursor == self.run.blocks_emitted % self.flush_interval
                &&& self.run.blocks_emitted % self.progress_interval == 0
            },
            Phase::Closing | Phase::Finished => true,
        }
    }

    /// Whether `event` answers what the simulator waits for.
    pub open spec fn accepts(self, event: Event) -> bool {
        match self.phase {
            Phase::Created => event is Begin,
            Phase::Resolving => event is StartResolved,
            Phase::Idle => event is ShutdownPolled,
            Phase::Building => event is Built,
            Phase::Importing => event is Imported,
            Phase::Querying => event is Queried,
            Phase::Emitted => event is Appended,
            Phase::Flushing => event is Flushed,
            Phase::Reporting => event is Reported,
            Phase::Closing => event is Flushed,
            Phase::Finished => false,
        }
    }

    /// The outcome of the run as it stands: the failure, or the number of
    /// blocks emitted.
    pub open spec fn outcome(self) -> Result<u64, SimError> {
        match self.failure {
            Some(error) => Err(error),
            None => Ok(self.run.blocks_emitted),
        }
    }

    /// The run ends: the sink is flushed for the last time.
    pub open spec fn close(self, failure: Option<SimError>) -> (Simulator, ActionView) {
        (Simulator { phase: Phase::Closing, failure, ..self }, ActionView::Flush)
    }

    /// Between two blocks: the next block is due if the horizon is not
    /// reached, and the shutdown monitor is asked first.
    pub open spec fn next_block(self) -> (Simulator, ActionView) {
        if self.run.blocks_emitted < self.horizon {
            (Simulator { phase: Phase::Idle, ..self }, ActionView::PollShutdown)
        } else {
            self.close(None)
        }
    }

    /// A block is done and the sink needs no flush: progress is reported if
    /// it is due.
    pub open spec fn block_done(self) -> (Simulator, ActionView) {
        if self.run.blocks_emitted % self.progress_interval == 0 {
            (
                Simulator { phase: Phase::Reporting, ..self },
                ActionView::Report { blocks: self.run.blocks_emitted },
            )
        } else {
            self.next_block()
        }
    }

    /// The starting block is known: the first block is built on it.
    pub open spec fn start_at(self, hash: BlockHash) -> (Simulator, ActionView) {
        Simulator { run: RunState { current_parent_hash: hash, ..self.run }, ..self }.next_block()
    }

    /// The state after `event` and the action that follows it.
    pub open spec fn step(self, event: Event) -> (Simulator, ActionView)
        recommends
            self.accepts(event),
    {
        match event {
            Event::Begin => match self.start {
                StartPoint::Tip => (
                    Simulator { phase: Phase::Resolving, ..self },
                    ActionView::QueryTip,
                ),
                StartPoint::Height(height) => (
                    Simulator { phase: Phase::Resolving, ..self },
                    ActionView::ResolveHeight(height),
                ),
                StartPoint::Hash(hash) => self.start_at(hash),
            },
            Event::StartResolved(Some(hash)) => self.start_at(hash),
            Event::StartResolved(None) => self.close(
                Some(SimError::Resolution(ResolutionError::BlockNotFound)),
            ),
            Event::ShutdownPolled(requested) => if requested {
                self.close(None)
            } else {
                (
                    Simulator { phase: Phase::Building, ..self },
                    ActionView::Build { parent: self.run.current_parent_hash },
                )
            },
            Event::Built(Ok(block)) => (
                Simulator { phase: Phase::Importing, candidate: block, ..self },
                ActionView::Import { block },
            ),
            Event::Built(Err(error)) => self.close(Some(SimError::Build(error))),
            Event::Imported(taken) => if taken {
                (
                    Simulator { phase: Phase::Querying, ..self },
                    ActionView::Query { block: self.candidate },
                )
            } else {
                self.close(Some(SimError::Import))
            },
            Event::Queried(Some(record)) => (
                Simulator { phase: Phase::Emitted, ..self },
                ActionView::Append { line: record_line(record) },
            ),
            Event::Queried(None) => self.close(Some(SimError::Query)),
            Event::Appended(taken) => if taken {
                let emitted = Simulator {
                    run: RunState {
                        current_parent_hash: self.candidate,
                        blocks_emitted: (self.run.blocks_emitted + 1) as u64,
                        sink_cursor: (self.run.sink_cursor + 1) as u64,
                    },
                    ..self
                };
                if emitted.run.sink_cursor >= emitted.flush_interval {
                    (Simulator { phase: Phase::Flushing, ..emitted }, ActionView::Flush)
                } else {
                    emitted.block_done()
                }
            } else {
                self.close(Some(SimError::Io))
            },
            Event::Flushed(done) => if self.phase is Flushing {
                if done {
                    Simulator { run: RunState { sink_cursor: 0, ..self.run }, ..self }.block_done()
                } else {
                    self.close(Some(SimError::Io))
                }
            } else {
                let ended = Simulator {
                    phase: Phase::Finished,
                    failure: if self.failure is None && !done {
                        Some(SimError::Io)
                    } else {
                        self.failure
                    },
                    run: RunState {
                        sink_cursor: if done {
                            0
                        } else {
                            self.run.sink_cursor
                        },
                        ..self.run
                    },
                    ..self
                };
                (ended, ActionView::Stop { outcome: ended.outcome() })
            },
            Event::Reported => self.next_block(),
        }
    }

    /// The state after `event`.
    pub open spec fn after(self, event: Event) -> Simulator
        recommends
            self.accepts(event),
    {
        self.step(event).0
    }

    /// The action that follows `event`.
    pub open spec fn reaction(self, event: Event) -> ActionView
        recommends
            self.accepts(event),
    {
        self.step(event).1
    }
}


/// Whether `point` is what the start request of `config` resolves to, as far
/// as its text settles it: the tip if there is no request.
pub open spec fn start_request_matches(
    config: SimulationConfig,
    point: Result<StartPoint, ResolutionError>,
) -> bool {
    match config.start_point {
        None => point == Ok::<StartPoint, ResolutionError>(StartPoint::Tip),
        Some(text) => start_point_matches(encode_utf8(text@), point),
    }
}

/// What [`Simulator::configure`] makes of a configuration: the error of the
/// horizon if it has one, else the error of the start request if it has one,
/// else the simulator of a run that has not begun.
pub open spec fn configured(config: SimulationConfig, made: Result<Simulator, SimError>) -> bool {
    match horizon_of(config.horizon_blocks, config.horizon_days) {
        Err(error) => made == Err::<Simulator, SimError>(SimError::Config(error)),
        Ok(horizon) => match made {
            Ok(simulator) => {
                &&& start_request_matches(config, Ok(simulator.start))
                &&& simulator == Simulator::initial(
                    simulator.start,
                    horizon as u64,
                    config.progress_interval,
                    config.flush_interval,
                )
            },
            Err(SimError::Resolution(error)) => start_request_matches(config, Err(error)),
            Err(_) => false,
        },
    }
}

/// Every step of a run keeps the simulator well formed.
pub proof fn lemma_step_preserves_wf(simulator: Simulator, event: Event)
    requires
        simulator.wf(),
        simulator.accepts(event),
    ensures
        simulator.after(event).wf(),
{
    let emitted = simulator.run.blocks_emitted as int;
    let cursor = simulator.run.sink_cursor as int;
    let interval = simulator.flush_interval as int;
    if simulator.phase is Emitted {
        assert(cursor == emitted % interval);
        assert(cursor + 1 >= interval ==> (emitted + 1) % interval == 0) by (nonlinear_arith)
            requires
                interval > 0,
                emitted >= 0,
                cursor == emitted % interval,
        ;
        assert(cursor + 1 < interval ==> (emitted + 1) % interval == cursor + 1)
            by (nonlinear_arith)
            requires
                interval > 0,
                emitted >= 0,
                cursor == emitted % interval,
        ;
    }
}

impl Simulator {
    /// The simulator of a run from `start` over `horizon` blocks.
    pub fn new(start: StartPoint, horizon: u64, progress_interval: u64, flush_interval: u64) -> (made:
        Simulator)
        requires
            progress_interval > 0,
            flush_interval > 0,
        ensures
            made == Simulator::initial(start, horizon, progress_interval, flush_interval),
            made.wf(),
    {
        Simulator {
            start,
            horizon,
            progress_interval,
            flush_interval,
            phase: Phase::Created,
            candidate: BlockHash::zeroed(),
            failure: None,
            run: RunState {
                current_parent_hash: BlockHash::zeroed(),
                blocks_emitted: 0,
                sink_cursor: 0,
            },
        }
    }

    /// Resolves a configuration into the simulator of its run: first the
    /// horizon, then the start request as far as its text settles it.
    pub fn configure(config: &SimulationConfig) -> (made: Result<Simulator, SimError>)
        requires
            config.within_limits(),
        ensures
            configured(*config, made),
            made matches Ok(simulator) ==> simulator.wf(),
    {
        let horizon: u64 = match resolve_horizon(config.horizon_blocks, config.horizon_days) {
            Ok(horizon) => horizon,
            Err(error) => {
                return Err(SimError::Config(error));
            },
        };
        let point: Result<StartPoint, ResolutionError> = match &config.start_point {
            Some(text) => resolve_start_point(Some(text.as_str())),
            None => resolve_start_point(None),
        };
        match point {
            Ok(start) => Ok(
                Simulator::new(start, horizon, config.progress_interval, config.flush_interval),
            ),
            Err(error) => Err(SimError::Resolution(error)),
        }
    }

    /// Whether `event` answers what the simulator waits for.
    pub fn expects(&self, event: &Event) -> (expected: bool)
        ensures
            expected == self.accepts(*event),
    {
        match self.phase {
            Phase::Created => matches!(event, Event::Begin),
            Phase::Resolving => matches!(event, Event::StartResolved(_)),
            Phase::Idle => matches!(event, Event::ShutdownPolled(_)),
            Phase::Building => matches!(event, Event::Built(_)),
            Phase::Importing => matches!(event, Event::Imported(_)),
            Phase::Querying => matches!(event, Event::Queried(_)),
            Phase::Emitted => matches!(event, Event::Appended(_)),
            Phase::Flushing => matches!(event, Event::Flushed(_)),
            Phase::Reporting => matches!(event, Event::Reported),
            Phase::Closing => matches!(event, Event::Flushed(_)),
            Phase::Finished => false,
        }
    }

    /// The outcome of the run once it has stopped: the failure, or the
    /// number of blocks emitted.
    pub fn result(&self) -> (outcome: Result<u64, SimError>)
        ensures
            outcome == self.outcome(),
    {
        match self.failure {
            Some(error) => Err(error),
            None => Ok(self.run.blocks_emitted),
        }
    }

    fn enter_close(&mut self, failure: Option<SimError>) -> (action: Action)
        ensures
            (*final(self), action@) == old(self).close(failure),
    {
        self.phase = Phase::Closing;
        self.failure = failure;
        Action::Flush
    }

    fn enter_next_block(&mut self) -> (action: Action)
        ensures
            (*final(self), action@) == old(self).next_block(),
    {
        if self.run.blocks_emitted < self.horizon {
            self.phase = Phase::Idle;
            Action::PollShutdown
        } else {
            self.enter_close(None)
        }
    }

    fn enter_block_done(&mut self) -> (action: Action)
        requires
            old(self).progress_interval > 0,
        ensures
            (*final(self), action@) == old(self).block_done(),
    {
        if self.run.blocks_emitted % self.progress_interval == 0 {
            self.phase = Phase::Reporting;
            Action::Report { blocks: self.run.blocks_emitted }
        } else {
            self.enter_next_block()
        }
    }

    fn enter_start_at(&mut self, hash: BlockHash) -> (action: Action)
        ensures
            (*final(self), action@) == old(self).start_at(hash),
    {
        self.run.current_parent_hash = hash;
        self.enter_next_block()
    }

    /// Takes the outcome of the action asked for last and gives the next
    /// action.
    pub fn advance(&mut self, event: Event) -> (action: Action)
        requires
            old(self).wf(),
            old(self).accepts(event),
        ensures
            final(self).wf(),
            *final(self) == old(self).after(event),
            action@ == old(self).reaction(event),
    {
        proof {
            lemma_step_preserves_wf(*old(self), event);
        }
        match event {
            Event::Begin => match self.start {
                StartPoint::Tip => {
                    self.phase = Phase::Resolving;
                    Action::QueryTip
                },
                StartPoint::Height(height) => {
                    self.phase = Phase::Resolving;
                    Action::ResolveHeight(height)
                },
                StartPoint::Hash(hash) => self.enter_start_at(hash),
            },
            Event::StartResolved(Some(hash)) => self.enter_start_at(hash),
            Event::StartResolved(None) => self.enter_close(
                Some(SimError::Resolution(ResolutionError::BlockNotFound)),
            ),
            Event::ShutdownPolled(requested) => {
                if requested {
                    self.enter_close(None)
                } else {
                    self.phase = Phase::Building;
                    Action::Build { parent: self.run.current_parent_hash }
                }
            },
            Event::Built(Ok(block)) => {
                self.phase = Phase::Importing;
                self.candidate = block;
                Action::Import { block }
            },
            Event::Built(Err(error)) => self.enter_close(Some(SimError::Build(error))),
            Event::Imported(taken) => {
                if taken {
                    self.phase = Phase::Querying;
                    Action::Query { block: self.candidate }
                } else {
                    self.enter_close(Some(SimError::Import))
                }
            },
            Event::Queried(Some(record)) => {
                self.phase = Phase::Emitted;
                Action::Append { line: record.to_json_line() }
            },
            Event::Queried(None) => self.enter_close(Some(SimError::Query)),
            Event::Appended(taken) => {
                if taken {
                    self.run.current_parent_hash = self.candidate;
                    self.run.blocks_emitted = self.run.blocks_emitted + 1;
                    self.run.sink_cursor = self.run.sink_cursor + 1;
                    if self.run.sink_cursor >= self.flush_interval {
                        self.phase = Phase::Flushing;
                        Action::Flush
                    } else {
                        self.enter_block_done()
                    }
                } else {
                    self.enter_close(Some(SimError::Io))
                }
            },
            Event::Flushed(done) => {
                if matches!(self.phase, Phase::Flushing) {
                    if done {
                        self.run.sink_cursor = 0;
                        self.enter_block_done()
                    } else {
                        self.enter_close(Some(SimError::Io))
                    }
                } else {
                    self.phase = Phase::Finished;
                    if self.failure.is_none() && !done {
                        self.failure = Some(SimError::Io);
                    }
                    if done {
                        self.run.sink_cursor = 0;
                    }
                    Action::Stop { outcome: self.result() }
                }
            },
            Event::Reported => self.enter_next_block(),
        }
    }
}

} // verus!
