use subtensor_sim::config::ConfigError;
use subtensor_sim::record::{BlockMetricsRecord, SubnetMetric};
use subtensor_sim::simulation::{
    exit_code, Action, BuildError, Event, Phase, SimError, SimulationConfig, Simulator,
};
use subtensor_sim::start::{BlockHash, ResolutionError, StartPoint};

/// A chain and a sink that answer as the script says. Blocks are counted
/// from 1; a failure `at` a number strikes while that block is stepped.
#[derive(Default)]
struct Script {
    tip: u8,
    known_height: Option<u64>,
    fail_build_at: Option<(u64, bool)>,
    reject_import_at: Option<u64>,
    fail_query_at: Option<u64>,
    fail_append_at: Option<u64>,
    fail_flush_number: Option<u64>,
    cancel_after: Option<u64>,
}

#[derive(Default)]
struct Seen {
    tip_queries: u64,
    heights: Vec<u64>,
    polls: u64,
    parents: Vec<BlockHash>,
    built: Vec<BlockHash>,
    imported: Vec<BlockHash>,
    queried: Vec<BlockHash>,
    lines: Vec<Vec<u8>>,
    lines_at_flush: Vec<usize>,
    reports: Vec<u64>,
    outcome: Option<Result<u64, SimError>>,
}

fn hash_of(seed: u8) -> BlockHash {
    BlockHash { bytes: [seed; 32] }
}

fn child_of(parent: &BlockHash, number: u64) -> BlockHash {
    let mut bytes: [u8; 32] = parent.bytes;
    bytes[0] = bytes[0].wrapping_add(1);
    bytes[1] = number as u8;
    bytes[2] = (number >> 8) as u8;
    BlockHash { bytes }
}

fn record_of(number: u64, block: &BlockHash) -> BlockMetricsRecord {
    BlockMetricsRecord {
        block_number: 1000 + number,
        state_root: *block,
        timestamp_ms: 12_000 * number,
        subnets: vec![SubnetMetric {
            id: 1,
            stake_total: 500 + number as u128,
            emission_per_block: 3,
            participant_count: 8,
        }],
    }
}

fn drive(simulator: &mut Simulator, script: &Script) -> Seen {
    let mut seen: Seen = Seen::default();
    let mut event: Event = Event::Begin;
    loop {
        assert!(simulator.expects(&event), "{:?} in {:?}", event, simulator.phase);
        let number: u64 = seen.parents.len() as u64;
        event = match simulator.advance(event) {
            Action::QueryTip => {
                seen.tip_queries += 1;
                Event::StartResolved(Some(hash_of(script.tip)))
            }
            Action::ResolveHeight(height) => {
                seen.heights.push(height);
                if script.known_height == Some(height) {
                    Event::StartResolved(Some(hash_of(script.tip)))
                } else {
                    Event::StartResolved(None)
                }
            }
            Action::PollShutdown => {
                seen.polls += 1;
                Event::ShutdownPolled(script.cancel_after == Some(number))
            }
            Action::Build { parent } => {
                seen.parents.push(parent);
                match script.fail_build_at {
                    Some((at, header_missing)) if at == number + 1 => {
                        Event::Built(Err(if header_missing {
                            BuildError::ParentHeaderMissing
                        } else {
                            BuildError::ExtrinsicAssembly
                        }))
                    }
                    _ => {
                        let block: BlockHash = child_of(&parent, number + 1);
                        seen.built.push(block);
                        Event::Built(Ok(block))
                    }
                }
            }
            Action::Import { block } => {
                seen.imported.push(block);
                Event::Imported(script.reject_import_at != Some(number))
            }
            Action::Query { block } => {
                seen.queried.push(block);
                if script.fail_query_at == Some(number) {
                    Event::Queried(None)
                } else {
                    Event::Queried(Some(record_of(number, &block)))
                }
            }
            Action::Append { line } => {
                if script.fail_append_at == Some(number) {
                    Event::Appended(false)
                } else {
                    seen.lines.push(line);
                    Event::Appended(true)
                }
            }
            Action::Flush => {
                seen.lines_at_flush.push(seen.lines.len());
                Event::Flushed(script.fail_flush_number != Some(seen.lines_at_flush.len() as u64))
            }
            Action::Report { blocks } => {
                seen.reports.push(blocks);
                Event::Reported
            }
            Action::Stop { outcome } => {
                seen.outcome = Some(outcome);
                assert_eq!(simulator.phase, Phase::Finished);
                assert_eq!(simulator.result(), outcome);
                assert!(!simulator.expects(&Event::Begin));
                assert!(!simulator.expects(&Event::Flushed(true)));
                return seen;
            }
        };
    }
}

fn run(start: StartPoint, horizon: u64, progress: u64, flush: u64, script: &Script) -> Seen {
    let mut simulator: Simulator = Simulator::new(start, horizon, progress, flush);
    drive(&mut simulator, script)
}

fn expected_line(number: u64, block: &BlockHash) -> Vec<u8> {
    record_of(number, block).to_json_line()
}

#[test]
fn one_day_attempts_7200_steps() {
    let config: SimulationConfig = SimulationConfig {
        start_point: None,
        horizon_blocks: None,
        horizon_days: Some(1),
        progress_interval: 100,
        flush_interval: 100,
    };
    let mut simulator: Simulator = Simulator::configure(&config).unwrap();
    assert_eq!(simulator.horizon, 7200);
    let seen: Seen = drive(&mut simulator, &Script { tip: 9, ..Script::default() });
    assert_eq!(seen.parents.len(), 7200);
    assert_eq!(seen.built.len(), 7200);
    assert_eq!(seen.imported.len(), 7200);
    assert_eq!(seen.queried.len(), 7200);
    assert_eq!(seen.lines.len(), 7200);
    assert_eq!(seen.polls, 7200);
    assert_eq!(seen.reports.len(), 72);
    assert_eq!(seen.lines_at_flush.len(), 73);
    assert_eq!(seen.outcome, Some(Ok(7200)));
}

#[test]
fn omitted_start_builds_first_on_the_tip() {
    let seen: Seen = run(StartPoint::Tip, 3, 100, 100, &Script { tip: 0x5A, ..Script::default() });
    assert_eq!(seen.tip_queries, 1);
    assert!(seen.heights.is_empty());
    assert_eq!(seen.parents[0], hash_of(0x5A));
    assert_eq!(seen.outcome, Some(Ok(3)));
}

#[test]
fn import_failure_on_third_of_ten_blocks() {
    let script: Script = Script { tip: 1, reject_import_at: Some(3), ..Script::default() };
    let seen: Seen = run(StartPoint::Tip, 10, 100, 100, &script);
    assert_eq!(seen.lines.len(), 2);
    assert_eq!(seen.parents.len(), 3);
    assert_eq!(seen.imported.len(), 3);
    assert_eq!(seen.queried.len(), 2);
    assert_eq!(seen.lines_at_flush, vec![2]);
    assert_eq!(seen.outcome, Some(Err(SimError::Import)));
    assert_eq!(exit_code(&seen.outcome.unwrap()), 1);
    assert_ne!(exit_code(&seen.outcome.unwrap()), 0);
}

#[test]
fn given_hash_needs_no_lookup() {
    let seen: Seen = run(StartPoint::Hash(hash_of(0x77)), 2, 100, 100, &Script::default());
    assert_eq!(seen.tip_queries, 0);
    assert!(seen.heights.is_empty());
    assert_eq!(seen.parents[0], hash_of(0x77));
    assert_eq!(seen.outcome, Some(Ok(2)));
}

#[test]
fn given_height_is_looked_up() {
    let script: Script = Script { tip: 0x33, known_height: Some(42), ..Script::default() };
    let seen: Seen = run(StartPoint::Height(42), 2, 100, 100, &script);
    assert_eq!(seen.heights, vec![42]);
    assert_eq!(seen.tip_queries, 0);
    assert_eq!(seen.parents[0], hash_of(0x33));
    assert_eq!(seen.outcome, Some(Ok(2)));
}

#[test]
fn unknown_height_ends_the_run_before_any_block() {
    let script: Script = Script { known_height: Some(42), ..Script::default() };
    let seen: Seen = run(StartPoint::Height(43), 5, 100, 100, &script);
    assert_eq!(seen.heights, vec![43]);
    assert_eq!(seen.polls, 0);
    assert!(seen.parents.is_empty());
    assert!(seen.lines.is_empty());
    assert_eq!(seen.lines_at_flush, vec![0]);
    assert_eq!(seen.outcome, Some(Err(SimError::Resolution(ResolutionError::BlockNotFound))));
    assert_eq!(exit_code(&seen.outcome.unwrap()), 1);
}

#[test]
fn every_block_is_built_on_the_one_before() {
    let seen: Seen = run(StartPoint::Tip, 25, 10, 4, &Script { tip: 3, ..Script::default() });
    assert_eq!(seen.parents.len(), 25);
    assert_eq!(seen.parents[0], hash_of(3));
    for k in 1..seen.parents.len() {
        assert_eq!(seen.parents[k], seen.built[k - 1]);
    }
    assert_eq!(seen.imported, seen.built);
    assert_eq!(seen.queried, seen.built);
}

#[test]
fn sink_gets_one_line_per_block_in_order() {
    let seen: Seen = run(StartPoint::Tip, 12, 5, 5, &Script { tip: 4, ..Script::default() });
    assert_eq!(seen.lines.len(), 12);
    for k in 0..12usize {
        assert_eq!(seen.lines[k], expected_line(k as u64 + 1, &seen.built[k]));
        let text: String = String::from_utf8(seen.lines[k].clone()).unwrap();
        assert_eq!(text.lines().count(), 1);
        let number: String = format!("{{\"block_number\":{},", 1001 + k);
        assert!(text.starts_with(&number));
    }
    assert_eq!(seen.outcome, Some(Ok(12)));
}

#[test]
fn flush_after_every_interval_and_once_at_the_end() {
    let seen: Seen = run(StartPoint::Tip, 7, 100, 3, &Script::default());
    assert_eq!(seen.lines_at_flush, vec![3, 6, 7]);
    let seen: Seen = run(StartPoint::Tip, 6, 100, 3, &Script::default());
    assert_eq!(seen.lines_at_flush, vec![3, 6, 6]);
    let seen: Seen = run(StartPoint::Tip, 2, 100, 3, &Script::default());
    assert_eq!(seen.lines_at_flush, vec![2]);
    let seen: Seen = run(StartPoint::Tip, 3, 100, 1, &Script::default());
    assert_eq!(seen.lines_at_flush, vec![1, 2, 3, 3]);
    let seen: Seen = run(StartPoint::Tip, 0, 100, 1, &Script::default());
    assert_eq!(seen.lines_at_flush, vec![0]);
}

#[test]
fn flush_count_follows_the_formula() {
    for horizon in 0..30u64 {
        for interval in 1..8u64 {
            let seen: Seen = run(StartPoint::Tip, horizon, 100, interval, &Script::default());
            assert_eq!(seen.lines_at_flush.len() as u64, horizon / interval + 1);
            assert_eq!(seen.lines.len() as u64, horizon);
        }
    }
}

#[test]
fn sink_cursor_counts_records_since_the_last_flush() {
    let mut simulator: Simulator = Simulator::new(StartPoint::Hash(hash_of(1)), 5, 100, 2);
    let mut cursors: Vec<u64> = Vec::new();
    let mut event: Event = Event::Begin;
    loop {
        event = match simulator.advance(event) {
            Action::PollShutdown => {
                cursors.push(simulator.run.sink_cursor);
                Event::ShutdownPolled(false)
            }
            Action::Build { parent } => Event::Built(Ok(child_of(&parent, 1))),
            Action::Import { .. } => Event::Imported(true),
            Action::Query { block } => Event::Queried(Some(record_of(1, &block))),
            Action::Append { .. } => Event::Appended(true),
            Action::Flush => Event::Flushed(true),
            Action::Stop { .. } => break,
            other => panic!("{:?}", other),
        };
    }
    assert_eq!(cursors, vec![0, 1, 0, 1, 0]);
    assert_eq!(simulator.run.sink_cursor, 0);
    assert_eq!(simulator.run.blocks_emitted, 5);
}

#[test]
fn cancellation_between_blocks_stops_without_error() {
    for done in 0..5u64 {
        let script: Script = Script { cancel_after: Some(done), ..Script::default() };
        let seen: Seen = run(StartPoint::Tip, 5, 100, 2, &script);
        assert_eq!(seen.lines.len() as u64, done);
        assert_eq!(seen.parents.len() as u64, done);
        assert_eq!(seen.polls, done + 1);
        assert_eq!(seen.outcome, Some(Ok(done)));
        assert_eq!(exit_code(&seen.outcome.unwrap()), 0);
        assert_eq!(seen.lines_at_flush.last(), Some(&(done as usize)));
        assert_eq!(seen.lines_at_flush.len() as u64, done / 2 + 1);
    }
}

#[test]
fn shutdown_is_polled_once_before_each_block_only() {
    let seen: Seen = run(StartPoint::Tip, 4, 100, 100, &Script::default());
    assert_eq!(seen.polls, 4);
    let seen: Seen = run(StartPoint::Tip, 0, 100, 100, &Script::default());
    assert_eq!(seen.polls, 0);
    assert_eq!(seen.outcome, Some(Ok(0)));
}

#[test]
fn progress_is_reported_at_every_interval() {
    let seen: Seen = run(StartPoint::Tip, 10, 3, 100, &Script::default());
    assert_eq!(seen.reports, vec![3, 6, 9]);
    let seen: Seen = run(StartPoint::Tip, 4, 2, 2, &Script::default());
    assert_eq!(seen.reports, vec![2, 4]);
    let seen: Seen = run(StartPoint::Tip, 4, 5, 2, &Script::default());
    assert!(seen.reports.is_empty());
}

#[test]
fn missing_parent_header_is_a_build_error() {
    let script: Script = Script { fail_build_at: Some((1, true)), ..Script::default() };
    let seen: Seen = run(StartPoint::Tip, 4, 100, 100, &script);
    assert!(seen.lines.is_empty());
    assert!(seen.imported.is_empty());
    assert_eq!(seen.outcome, Some(Err(SimError::Build(BuildError::ParentHeaderMissing))));
    assert_eq!(seen.lines_at_flush, vec![0]);
}

#[test]
fn failed_assembly_is_a_build_error() {
    let script: Script = Script { fail_build_at: Some((3, false)), ..Script::default() };
    let seen: Seen = run(StartPoint::Tip, 4, 100, 100, &script);
    assert_eq!(seen.lines.len(), 2);
    assert_eq!(seen.parents.len(), 3);
    assert_eq!(seen.outcome, Some(Err(SimError::Build(BuildError::ExtrinsicAssembly))));
}

#[test]
fn failed_query_emits_nothing_for_that_block() {
    let script: Script = Script { fail_query_at: Some(2), ..Script::default() };
    let seen: Seen = run(StartPoint::Tip, 4, 100, 100, &script);
    assert_eq!(seen.lines.len(), 1);
    assert_eq!(seen.imported.len(), 2);
    assert_eq!(seen.queried.len(), 2);
    assert_eq!(seen.outcome, Some(Err(SimError::Query)));
    assert_eq!(exit_code(&seen.outcome.unwrap()), 1);
}

#[test]
fn failed_append_is_an_io_error() {
    let script: Script = Script { fail_append_at: Some(2), ..Script::default() };
    let seen: Seen = run(StartPoint::Tip, 4, 100, 1, &script);
    assert_eq!(seen.lines.len(), 1);
    assert_eq!(seen.lines_at_flush, vec![1, 1]);
    assert_eq!(seen.outcome, Some(Err(SimError::Io)));
}

#[test]
fn failed_periodic_flush_is_an_io_error() {
    let script: Script = Script { fail_flush_number: Some(2), ..Script::default() };
    let seen: Seen = run(StartPoint::Tip, 9, 100, 2, &script);
    assert_eq!(seen.lines.len(), 4);
    assert_eq!(seen.lines_at_flush, vec![2, 4, 4]);
    assert_eq!(seen.parents.len(), 4);
    assert_eq!(seen.outcome, Some(Err(SimError::Io)));
}

#[test]
fn failed_last_flush_is_an_io_error() {
    let script: Script = Script { fail_flush_number: Some(1), ..Script::default() };
    let seen: Seen = run(StartPoint::Tip, 2, 100, 5, &script);
    assert_eq!(seen.lines.len(), 2);
    assert_eq!(seen.outcome, Some(Err(SimError::Io)));
    assert_eq!(exit_code(&seen.outcome.unwrap()), 1);
}

#[test]
fn first_failure_is_the_one_reported() {
    let script: Script =
        Script { reject_import_at: Some(1), fail_flush_number: Some(1), ..Script::default() };
    let seen: Seen = run(StartPoint::Tip, 2, 100, 5, &script);
    assert_eq!(seen.lines_at_flush, vec![0]);
    assert_eq!(seen.outcome, Some(Err(SimError::Import)));
}

#[test]
fn parent_moves_only_when_the_record_is_taken() {
    let mut simulator: Simulator = Simulator::new(StartPoint::Hash(hash_of(1)), 2, 100, 100);
    assert_eq!(simulator.phase, Phase::Created);
    assert_eq!(simulator.advance(Event::Begin), Action::PollShutdown);
    assert_eq!(simulator.phase, Phase::Idle);
    assert_eq!(simulator.run.current_parent_hash, hash_of(1));
    assert_eq!(
        simulator.advance(Event::ShutdownPolled(false)),
        Action::Build { parent: hash_of(1) }
    );
    assert_eq!(simulator.phase, Phase::Building);
    assert_eq!(simulator.advance(Event::Built(Ok(hash_of(2)))), Action::Import { block: hash_of(2) });
    assert_eq!(simulator.phase, Phase::Importing);
    assert_eq!(simulator.run.current_parent_hash, hash_of(1));
    assert_eq!(simulator.advance(Event::Imported(true)), Action::Query { block: hash_of(2) });
    assert_eq!(simulator.phase, Phase::Querying);
    let record: BlockMetricsRecord = record_of(1, &hash_of(2));
    let line: Vec<u8> = record.to_json_line();
    assert_eq!(simulator.advance(Event::Queried(Some(record))), Action::Append { line });
    assert_eq!(simulator.phase, Phase::Emitted);
    assert_eq!(simulator.run.current_parent_hash, hash_of(1));
    assert_eq!(simulator.run.blocks_emitted, 0);
    assert_eq!(simulator.advance(Event::Appended(true)), Action::PollShutdown);
    assert_eq!(simulator.run.current_parent_hash, hash_of(2));
    assert_eq!(simulator.run.blocks_emitted, 1);
    assert_eq!(simulator.run.sink_cursor, 1);
    assert_eq!(simulator.advance(Event::ShutdownPolled(true)), Action::Flush);
    assert_eq!(simulator.phase, Phase::Closing);
    assert_eq!(simulator.advance(Event::Flushed(true)), Action::Stop { outcome: Ok(1) });
    assert_eq!(simulator.phase, Phase::Finished);
    assert_eq!(simulator.run.sink_cursor, 0);
}

#[test]
fn simulator_expects_the_answer_to_its_last_action() {
    let mut simulator: Simulator = Simulator::new(StartPoint::Tip, 1, 1, 1);
    assert!(simulator.expects(&Event::Begin));
    assert!(!simulator.expects(&Event::StartResolved(None)));
    assert_eq!(simulator.advance(Event::Begin), Action::QueryTip);
    assert!(simulator.expects(&Event::StartResolved(Some(hash_of(1)))));
    assert!(simulator.expects(&Event::StartResolved(None)));
    assert!(!simulator.expects(&Event::Begin));
    assert!(!simulator.expects(&Event::ShutdownPolled(false)));
    simulator.advance(Event::StartResolved(Some(hash_of(1))));
    assert!(simulator.expects(&Event::ShutdownPolled(true)));
    assert!(!simulator.expects(&Event::Built(Ok(hash_of(2)))));
    simulator.advance(Event::ShutdownPolled(false));
    assert!(simulator.expects(&Event::Built(Err(BuildError::ExtrinsicAssembly))));
    assert!(!simulator.expects(&Event::Imported(true)));
    simulator.advance(Event::Built(Ok(hash_of(2))));
    assert!(simulator.expects(&Event::Imported(false)));
    assert!(!simulator.expects(&Event::Queried(None)));
    simulator.advance(Event::Imported(true));
    assert!(simulator.expects(&Event::Queried(None)));
    assert!(!simulator.expects(&Event::Appended(true)));
    simulator.advance(Event::Queried(Some(record_of(1, &hash_of(2)))));
    assert!(simulator.expects(&Event::Appended(false)));
    assert!(!simulator.expects(&Event::Flushed(true)));
    assert_eq!(simulator.advance(Event::Appended(true)), Action::Flush);
    assert_eq!(simulator.phase, Phase::Flushing);
    assert!(simulator.expects(&Event::Flushed(false)));
    assert!(!simulator.expects(&Event::Reported));
    assert_eq!(simulator.advance(Event::Flushed(true)), Action::Report { blocks: 1 });
    assert!(simulator.expects(&Event::Reported));
    assert!(!simulator.expects(&Event::Flushed(true)));
    assert_eq!(simulator.advance(Event::Reported), Action::Flush);
    assert_eq!(simulator.phase, Phase::Closing);
    assert!(simulator.expects(&Event::Flushed(true)));
    assert_eq!(simulator.advance(Event::Flushed(true)), Action::Stop { outcome: Ok(1) });
}

#[test]
fn exit_code_is_0_or_1() {
    assert_eq!(exit_code(&Ok(0)), 0);
    assert_eq!(exit_code(&Ok(7200)), 0);
    assert_eq!(exit_code(&Err(SimError::Config(ConfigError::MissingHorizon))), 1);
    assert_eq!(exit_code(&Err(SimError::Config(ConfigError::AmbiguousHorizon))), 1);
    assert_eq!(exit_code(&Err(SimError::Resolution(ResolutionError::InvalidHashLength))), 1);
    assert_eq!(exit_code(&Err(SimError::Build(BuildError::ParentHeaderMissing))), 1);
    assert_eq!(exit_code(&Err(SimError::Import)), 1);
    assert_eq!(exit_code(&Err(SimError::Query)), 1);
    assert_eq!(exit_code(&Err(SimError::Io)), 1);
}

fn config(start: Option<&str>, blocks: Option<u64>, days: Option<u64>) -> SimulationConfig {
    SimulationConfig {
        start_point: start.map(|text| text.to_string()),
        horizon_blocks: blocks,
        horizon_days: days,
        progress_interval: 100,
        flush_interval: 50,
    }
}

#[test]
fn configure_resolves_horizon_and_start() {
    let simulator: Simulator = Simulator::configure(&config(Some("17"), Some(9), None)).unwrap();
    assert_eq!(simulator, Simulator::new(StartPoint::Height(17), 9, 100, 50));
    assert_eq!(simulator.phase, Phase::Created);
    assert_eq!(simulator.run.blocks_emitted, 0);
    assert_eq!(simulator.run.sink_cursor, 0);
    assert_eq!(simulator.failure, None);
    let text: String = format!("0x{}", "1f".repeat(32));
    let simulator: Simulator =
        Simulator::configure(&config(Some(text.as_str()), None, Some(2))).unwrap();
    assert_eq!(simulator, Simulator::new(StartPoint::Hash(hash_of(0x1f)), 14_400, 100, 50));
    let simulator: Simulator = Simulator::configure(&config(None, Some(0), None)).unwrap();
    assert_eq!(simulator, Simulator::new(StartPoint::Tip, 0, 100, 50));
}

#[test]
fn configure_refuses_a_horizon_that_is_not_one() {
    assert_eq!(
        Simulator::configure(&config(None, Some(1), Some(1))),
        Err(SimError::Config(ConfigError::AmbiguousHorizon))
    );
    assert_eq!(
        Simulator::configure(&config(None, None, None)),
        Err(SimError::Config(ConfigError::MissingHorizon))
    );
}

#[test]
fn configure_reports_the_horizon_before_the_start() {
    assert_eq!(
        Simulator::configure(&config(Some("0xzz"), None, None)),
        Err(SimError::Config(ConfigError::MissingHorizon))
    );
}

#[test]
fn configure_refuses_a_start_that_cannot_be_read() {
    assert_eq!(
        Simulator::configure(&config(Some("0x1234"), Some(5), None)),
        Err(SimError::Resolution(ResolutionError::InvalidHashLength))
    );
    assert_eq!(
        Simulator::configure(&config(Some("0x123"), Some(5), None)),
        Err(SimError::Resolution(ResolutionError::InvalidHashEncoding))
    );
    assert_eq!(
        Simulator::configure(&config(Some("tip"), Some(5), None)),
        Err(SimError::Resolution(ResolutionError::InvalidHeight))
    );
}

#[test]
fn configuration_fits_unless_an_interval_is_zero_or_the_days_are_too_many() {
    assert!(config(None, Some(u64::MAX), None).fits());
    assert!(config(None, None, Some(2_562_047_788_015_215)).fits());
    assert!(!config(None, None, Some(2_562_047_788_015_216)).fits());
    assert!(!config(None, None, Some(u64::MAX)).fits());
    assert!(config(None, Some(1), Some(u64::MAX)).fits());
    assert!(config(None, None, None).fits());
    let mut zero_flush: SimulationConfig = config(None, Some(1), None);
    zero_flush.flush_interval = 0;
    assert!(!zero_flush.fits());
    let mut zero_progress: SimulationConfig = config(None, Some(1), None);
    zero_progress.progress_interval = 0;
    assert!(!zero_progress.fits());
}
