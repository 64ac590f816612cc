use ssui_lib::plan::{plan_chunks, ChunkRange};
use ssui_lib::size::{parse_content_range_total, resolve_total_size};
use ssui_lib::error::TransferError;
use ssui_lib::retry::{backoff_delay, exponential_backoff, BASE_WAIT_TIME, MAX_WAIT_TIME};

#[test]
fn plan_ten_megabytes_in_one_megabyte_chunks() {
    let r = plan_chunks(10_000_000, 1_000_000);
    assert_eq!(r.len(), 10);
    for (i, c) in r.iter().enumerate() {
        assert_eq!(c.index, i);
        assert_eq!(c.start, i as u64 * 1_000_000);
        assert_eq!(c.end, (i as u64 + 1) * 1_000_000 - 1);
    }
    assert_eq!(r[9].end, 9_999_999);
}

#[test]
fn plan_empty_file_has_no_chunk() {
    assert!(plan_chunks(0, 1024).is_empty());
}

#[test]
fn plan_chunk_larger_than_file_is_one_chunk() {
    let r = plan_chunks(100, 1024);
    assert_eq!(r, vec![ChunkRange { index: 0, start: 0, end: 99 }]);
    let r = plan_chunks(1024, 1024);
    assert_eq!(r, vec![ChunkRange { index: 0, start: 0, end: 1023 }]);
}

#[test]
fn plan_partial_last_chunk() {
    let r = plan_chunks(10, 3);
    assert_eq!(
        r,
        vec![
            ChunkRange { index: 0, start: 0, end: 2 },
            ChunkRange { index: 1, start: 3, end: 5 },
            ChunkRange { index: 2, start: 6, end: 8 },
            ChunkRange { index: 3, start: 9, end: 9 },
        ]
    );
}

#[test]
fn plan_partitions_without_gap_or_overlap() {
    for total in [1u64, 2, 7, 64, 1000, 1023, 1025] {
        for cs in [1u64, 2, 3, 10, 1024] {
            let r = plan_chunks(total, cs);
            assert_eq!(r.len() as u64, (total + cs - 1) / cs);
            assert_eq!(r[0].start, 0);
            assert_eq!(r[r.len() - 1].end, total - 1);
            for w in r.windows(2) {
                assert_eq!(w[1].start, w[0].end + 1);
            }
            for c in &r {
                assert!(c.start <= c.end);
            }
        }
    }
}

#[test]
fn content_range_total_is_read() {
    assert_eq!(parse_content_range_total(b"bytes 0-0/702517648"), Some(702517648));
    assert_eq!(parse_content_range_total(b"bytes */123"), Some(123));
    assert_eq!(parse_content_range_total(b"bytes 100-199/200"), Some(200));
    assert_eq!(parse_content_range_total(b"bytes 0-0/18446744073709551615"), Some(u64::MAX));
}

#[test]
fn malformed_content_range_gives_nothing() {
    assert_eq!(parse_content_range_total(b"bytes 0-0/*"), None);
    assert_eq!(parse_content_range_total(b"bytes 0-0/"), None);
    assert_eq!(parse_content_range_total(b"items 0-0/10"), None);
    assert_eq!(parse_content_range_total(b"bytes 0-/10"), None);
    assert_eq!(parse_content_range_total(b"bytes 0-0/1x"), None);
    assert_eq!(parse_content_range_total(b"bytes 0-0/18446744073709551616"), None);
    assert_eq!(parse_content_range_total(b""), None);
}

#[test]
fn total_size_from_partial_answer() {
    assert_eq!(resolve_total_size(206, Some(1), Some(b"bytes 0-0/100")), Ok(100));
}

#[test]
fn total_size_from_full_answer() {
    assert_eq!(resolve_total_size(200, Some(50), None), Ok(50));
}

#[test]
fn partial_answer_length_is_not_the_total() {
    assert_eq!(resolve_total_size(206, Some(1), None), Err(TransferError::SizeUnavailable));
}

#[test]
fn probe_without_length_or_range_fails() {
    assert_eq!(resolve_total_size(200, None, None), Err(TransferError::SizeUnavailable));
    assert_eq!(resolve_total_size(206, None, Some(b"bytes 0-0/*")), Err(TransferError::SizeUnavailable));
}

#[test]
fn backoff_formula() {
    assert_eq!(backoff_delay(300, 2, 10_000, 100), 404);
    assert_eq!(backoff_delay(300, 0, 10_000, 0), 300);
    assert_eq!(backoff_delay(300, 100, 10_000, 500), 10_000);
    assert_eq!(backoff_delay(300, usize::MAX, 10_000, 500), 10_000);
    assert_eq!(backoff_delay(usize::MAX, 1, usize::MAX, usize::MAX), usize::MAX);
}

#[test]
fn backoff_with_jitter_stays_in_range() {
    for n in 0..20usize {
        let w = exponential_backoff(BASE_WAIT_TIME, n, MAX_WAIT_TIME);
        let low = (BASE_WAIT_TIME + n * n).min(MAX_WAIT_TIME);
        let high = (BASE_WAIT_TIME + n * n + 500).min(MAX_WAIT_TIME);
        assert!(low <= w && w <= high);
    }
    assert_eq!(exponential_backoff(300, 1000, 10_000), 10_000);
}
