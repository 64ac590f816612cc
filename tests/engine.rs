use ssui_lib::engine::{ChunkPhase, EngineAction, FailureOutcome, TransferConfig, TransferEngine, check_config};
use ssui_lib::error::TransferError;
use ssui_lib::merge::{finalize, merge_parts};
use ssui_lib::progress::ProgressRecord;
use ssui_lib::retry::MAX_WAIT_TIME;

fn config(max_concurrent: usize, max_retries: usize, parallel_failures: usize) -> TransferConfig {
    TransferConfig { max_concurrent, max_retries, parallel_failures }
}

/// Runs a transfer to its end, failing chunk `failing` the given number of
/// times; returns the last action and the indices fetched, in order.
fn run(engine: &mut TransferEngine, failing: usize, failures: usize) -> (EngineAction, Vec<usize>) {
    let mut fetched = Vec::new();
    let mut failed = 0;
    loop {
        match engine.next_action() {
            EngineAction::Fetch(r) => {
                fetched.push(r.index);
                if r.index == failing && failed < failures {
                    failed += 1;
                    match engine.chunk_failed(r.index) {
                        FailureOutcome::RetryAfter(ms) => {
                            assert!(ms <= MAX_WAIT_TIME);
                            assert_eq!(engine.phase(r.index), ChunkPhase::Backoff);
                            engine.backoff_elapsed(r.index);
                        }
                        FailureOutcome::Failed(_) => {}
                    }
                } else {
                    engine.chunk_succeeded(r.index);
                }
            }
            other => return (other, fetched),
        }
    }
}

#[test]
fn ten_chunks_with_one_flaky_chunk_complete() {
    let mut e = TransferEngine::new(10_000_000, 1_000_000, config(4, 3, 4), &ProgressRecord::new()).unwrap();
    let (last, fetched) = run(&mut e, 3, 2);
    assert_eq!(last, EngineAction::Finalize);
    assert_eq!(fetched.iter().filter(|&&i| i == 3).count(), 3);
    assert_eq!(e.progress(), (10, 10));
    let parts: Vec<Vec<u8>> = (0..10u8).map(|i| vec![i; 1_000_000]).collect();
    let out = finalize(&parts, e.total_size(), None).unwrap();
    assert_eq!(out.len(), 10_000_000);
    assert_eq!(out[3_000_000], 3);
    let mut idx = e.record().indices();
    idx.sort();
    assert_eq!(idx, (0..10).collect::<Vec<usize>>());
}

#[test]
fn chunk_failing_max_retries_times_completes() {
    let mut e = TransferEngine::new(100, 10, config(2, 3, 2), &ProgressRecord::new()).unwrap();
    let (last, _) = run(&mut e, 5, 3);
    assert_eq!(last, EngineAction::Finalize);
}

#[test]
fn chunk_failing_once_more_exhausts_retries() {
    let mut e = TransferEngine::new(100, 10, config(2, 3, 2), &ProgressRecord::new()).unwrap();
    let (last, _) = run(&mut e, 5, 4);
    assert_eq!(last, EngineAction::Abort(TransferError::RetriesExhausted));
}

#[test]
fn no_retries_fail_at_first_failure() {
    let mut e = TransferEngine::new(100, 10, config(2, 0, 0), &ProgressRecord::new()).unwrap();
    let (last, _) = run(&mut e, 0, 1);
    assert_eq!(last, EngineAction::Abort(TransferError::RetriesExhausted));
}

#[test]
fn complete_record_fetches_nothing() {
    let all: Vec<usize> = (0..10).collect();
    let rec = ProgressRecord::from_indices(&all);
    let mut e = TransferEngine::new(10_000_000, 1_000_000, config(4, 3, 4), &rec).unwrap();
    assert_eq!(e.next_action(), EngineAction::Finalize);
    assert_eq!(e.progress(), (10, 10));
}

#[test]
fn resume_fetches_only_missing_chunks() {
    let done = vec![0usize, 2, 3, 7, 42];
    let rec = ProgressRecord::from_indices(&done);
    let mut e = TransferEngine::new(100, 10, config(3, 1, 1), &rec).unwrap();
    let (last, mut fetched) = run(&mut e, usize::MAX, 0);
    assert_eq!(last, EngineAction::Finalize);
    fetched.sort();
    assert_eq!(fetched, vec![1, 4, 5, 6, 8, 9]);
}

#[test]
fn resumed_merge_matches_uninterrupted_merge() {
    let content: Vec<u8> = (0..95u32).map(|b| (b * 7 % 251) as u8).collect();
    let plan = ssui_lib::plan::plan_chunks(95, 10);
    let parts: Vec<Vec<u8>> = plan.iter().map(|r| content[r.start as usize..=r.end as usize].to_vec()).collect();
    assert_eq!(merge_parts(&parts).unwrap(), content);
}

#[test]
fn in_flight_never_exceeds_limit() {
    let mut e = TransferEngine::new(100, 10, config(2, 1, 1), &ProgressRecord::new()).unwrap();
    assert!(matches!(e.next_action(), EngineAction::Fetch(_)));
    assert!(matches!(e.next_action(), EngineAction::Fetch(_)));
    assert_eq!(e.next_action(), EngineAction::Wait);
    e.chunk_succeeded(0);
    assert_eq!(e.next_action(), EngineAction::Fetch(ssui_lib::plan::ChunkRange { index: 2, start: 20, end: 29 }));
    assert_eq!(e.next_action(), EngineAction::Wait);
}

#[test]
fn failure_budget_exhausted_aborts() {
    let mut e = TransferEngine::new(100, 10, config(2, 3, 1), &ProgressRecord::new()).unwrap();
    let _ = e.next_action();
    let _ = e.next_action();
    assert!(matches!(e.chunk_failed(0), FailureOutcome::RetryAfter(_)));
    assert_eq!(e.chunk_failed(1), FailureOutcome::Failed(TransferError::TooManyParallelFailures));
    assert_eq!(e.next_action(), EngineAction::Abort(TransferError::TooManyParallelFailures));
}

#[test]
fn failure_backoff_is_exact_for_given_jitter() {
    let mut e = TransferEngine::new(100, 10, config(2, 3, 2), &ProgressRecord::new()).unwrap();
    let _ = e.next_action();
    assert_eq!(e.chunk_failed_with_jitter(0, 10), FailureOutcome::RetryAfter(310));
    e.backoff_elapsed(0);
    let _ = e.next_action();
    assert_eq!(e.chunk_failed_with_jitter(0, 10), FailureOutcome::RetryAfter(311));
}

#[test]
fn fatal_chunk_error_aborts() {
    let mut e = TransferEngine::new(100, 10, config(2, 3, 2), &ProgressRecord::new()).unwrap();
    let _ = e.next_action();
    e.chunk_fatal(0, TransferError::ChunkWriteFailure);
    assert_eq!(e.next_action(), EngineAction::Abort(TransferError::ChunkWriteFailure));
}

#[test]
fn paused_engine_starts_nothing_and_cancel_stops() {
    let mut e = TransferEngine::new(100, 10, config(2, 3, 2), &ProgressRecord::new()).unwrap();
    e.pause();
    assert_eq!(e.next_action(), EngineAction::Wait);
    e.resume();
    assert!(matches!(e.next_action(), EngineAction::Fetch(_)));
    e.cancel();
    assert_eq!(e.next_action(), EngineAction::Stop);
}

#[test]
fn empty_file_finalizes_at_once() {
    let mut e = TransferEngine::new(0, 10, config(2, 3, 2), &ProgressRecord::new()).unwrap();
    assert_eq!(e.next_action(), EngineAction::Finalize);
}

#[test]
fn invalid_configurations_are_refused() {
    assert_eq!(check_config(config(0, 0, 0)), Err(TransferError::InvalidConfiguration));
    assert_eq!(check_config(config(2, 3, 3)), Err(TransferError::FailureBudgetExceedsConcurrency));
    assert_eq!(check_config(config(2, 0, 3)), Err(TransferError::FailureBudgetExceedsConcurrency));
    assert_eq!(check_config(config(2, 3, 0)), Err(TransferError::RetryBudgetMismatch));
    assert_eq!(check_config(config(2, 0, 1)), Err(TransferError::RetryBudgetMismatch));
    assert_eq!(
        TransferEngine::new(100, 10, config(2, 3, 0), &ProgressRecord::new()).err(),
        Some(TransferError::RetryBudgetMismatch)
    );
    assert_eq!(check_config(config(2, 3, 2)), Ok(()));
    assert!(TransferEngine::new(100, 0, config(2, 3, 2), &ProgressRecord::new()).is_err());
}

#[test]
fn progress_record_only_grows() {
    let mut r = ProgressRecord::new();
    assert!(!r.contains(4));
    r.insert(4);
    r.insert(4);
    r.insert(1);
    assert!(r.contains(4) && r.contains(1));
    let mut v = r.indices();
    v.sort();
    assert_eq!(v, vec![1, 4]);
    let r2 = ProgressRecord::from_indices(&vec![3, 3, 5]);
    assert_eq!(r2.indices().len(), 2);
}
