use std::io::Write;

use flate2::write::GzEncoder;
use flate2::Compression;
use http_replay_bench::trace::{Action, ByteRange, Range, RawTraceEntry, Trace, TraceError};

fn range(offset: usize, size: usize) -> ByteRange {
    ByteRange { offset, size }
}

fn entry(vector: bool, chunks: &[(usize, usize)], start_ms: u64, end_ms: u64) -> RawTraceEntry {
    RawTraceEntry {
        vector,
        chunks: chunks.to_vec(),
        start_ms,
        end_ms,
    }
}

#[test]
fn start_end_is_inclusive() {
    assert_eq!(range(0, 500).start_end(25000), (0, 499));
    assert_eq!(range(24999, 1).start_end(25000), (24999, 24999));
}

#[test]
fn start_end_is_trimmed_to_content() {
    assert_eq!(range(100, 1000).start_end(500), (100, 499));
    assert_eq!(range(usize::MAX - 1, 1).start_end(500), (usize::MAX - 1, 499));
}

#[test]
fn empty_range_ends_before_it_starts() {
    assert_eq!(range(5, 0).start_end(500), (5, 4));
}

#[test]
fn ends_are_checked() {
    assert!(range(0, 1).check_ends(1));
    assert!(range(5, 0).check_ends(1));
    assert!(!range(0, 0).check_ends(1));
    assert!(!range(0, 1).check_ends(0));
    assert!(range(usize::MAX, 0).check_ends(1));
    assert!(!range(usize::MAX, 1).check_ends(1));
}

#[test]
fn single_range_header() {
    let single = Range::Single(range(427385177, 458513));
    assert!(single.check_header(usize::MAX));
    assert_eq!(single.to_header_value(usize::MAX), "bytes=427385177-427843689");
    assert_eq!(single.to_header_value(427385200), "bytes=427385177-427385199");
    assert_eq!(single.to_header_value(10), "bytes=427385177-9");
}

#[test]
fn multi_range_header() {
    let multi = Range::Multi(vec![range(10, 5), range(100, 10), range(20, 1000)]);
    assert!(multi.check_header(100));
    assert_eq!(multi.to_header_value(1_000_000), "bytes=10-14,100-109,20-1019");
    assert_eq!(multi.to_header_value(100), "bytes=10-14,20-99");
    assert_eq!(multi.to_header_value(15), "bytes=10-14");
    assert_eq!(multi.to_header_value(5), "bytes=");
    assert_eq!(multi.to_header_value(0), "bytes=");
    assert_eq!(Range::Multi(vec![]).to_header_value(7), "bytes=");
}

#[test]
fn ranges_beyond_content_need_no_ends() {
    let multi = Range::Multi(vec![range(usize::MAX, 1), range(0, 1)]);
    assert!(multi.check_header(100));
    assert_eq!(multi.to_header_value(100), "bytes=0-0");
    assert!(!Range::Multi(vec![range(0, 0)]).check_header(1));
    assert!(!Range::Single(range(0, 0)).check_header(1));
}

#[test]
fn ranges_beyond_content_leave_no_mark() {
    let all = Range::Multi(vec![range(60, 1), range(0, 2), range(50, 9), range(49, 9)]);
    let kept = Range::Multi(vec![range(0, 2), range(49, 9)]);
    assert_eq!(all.to_header_value(50), "bytes=0-1,49-49");
    assert_eq!(all.to_header_value(50), kept.to_header_value(50));
}

#[test]
fn list_of_one_asks_for_the_same() {
    let one = range(3, 4);
    assert_eq!(
        Range::Multi(vec![one]).to_header_value(50),
        Range::Single(one).to_header_value(50)
    );
}

#[test]
fn recording_becomes_requests_and_pauses() {
    let entries = vec![
        entry(false, &[(427385177, 458513)], 31743, 31849),
        entry(
            true,
            &[(341807302, 3882), (348213079, 3854), (354581176, 3902)],
            32144,
            32297,
        ),
    ];
    let trace = Trace::from_entries(&entries).unwrap();
    let actions = trace.actions();
    assert_eq!(actions.len(), 3);
    match &actions[0] {
        Action::Request(Range::Single(r)) => assert_eq!(*r, range(427385177, 458513)),
        other => panic!("{other:?}"),
    }
    match &actions[1] {
        Action::Sleep(ms) => assert_eq!(*ms, 295),
        other => panic!("{other:?}"),
    }
    match &actions[2] {
        Action::Request(Range::Multi(rs)) => assert_eq!(
            *rs,
            vec![
                range(341807302, 3882),
                range(348213079, 3854),
                range(354581176, 3902)
            ]
        ),
        other => panic!("{other:?}"),
    }
}

#[test]
fn overlapping_requests_have_no_pause_between() {
    let entries = vec![
        entry(false, &[(0, 1)], 100, 200),
        entry(false, &[(1, 1)], 150, 160),
        entry(false, &[(2, 1)], 160, 170),
    ];
    let trace = Trace::from_entries(&entries).unwrap();
    let pauses: Vec<u64> = trace
        .actions()
        .iter()
        .filter_map(|action| match action {
            Action::Sleep(ms) => Some(*ms),
            Action::Request(_) => None,
        })
        .collect();
    assert_eq!(pauses, vec![0, 0]);
}

#[test]
fn first_chunk_counts_without_vector() {
    let trace = Trace::from_entries(&vec![entry(false, &[(1, 2), (3, 4)], 0, 0)]).unwrap();
    match &trace.actions()[0] {
        Action::Request(Range::Single(r)) => assert_eq!(*r, range(1, 2)),
        other => panic!("{other:?}"),
    }
}

#[test]
fn missing_chunk_is_an_error() {
    let entries = vec![entry(true, &[], 0, 1), entry(false, &[], 2, 3)];
    let error = Trace::from_entries(&entries).unwrap_err();
    assert_eq!(error, TraceError::MissingChunk);
    assert_eq!(
        error.describe(),
        "Expected at least one chunk for non-vector request"
    );
    assert!(Trace::from_entries(&vec![entry(true, &[], 0, 1)]).is_ok());
}

fn compressed(data: &[u8]) -> Vec<u8> {
    let mut encoder = GzEncoder::new(Vec::new(), Compression::default());
    encoder.write_all(data).unwrap();
    encoder.finish().unwrap()
}

#[test]
fn gzip_is_told_by_extension() {
    let json = b"[]".to_vec();
    let gz = compressed(&json);
    assert_ne!(gz, json);
    assert_eq!(Trace::payload(Some("gz"), gz.clone()).unwrap(), json);
    assert_eq!(Trace::payload(Some("json"), gz.clone()).unwrap(), gz);
    assert_eq!(Trace::payload(Some("GZ"), gz.clone()).unwrap(), gz);
    assert_eq!(Trace::payload(None, json.clone()).unwrap(), json);
}

#[test]
fn only_the_first_gzip_member_is_read() {
    let mut gz = compressed(b"[1]");
    gz.extend(compressed(b"[2]"));
    assert_eq!(Trace::payload(Some("gz"), gz).unwrap(), b"[1]".to_vec());
}

#[test]
fn broken_gzip_is_an_error() {
    assert!(Trace::payload(Some("gz"), b"[]".to_vec()).is_err());
    let mut gz = compressed(b"some text that is long enough");
    gz.truncate(gz.len() - 4);
    assert!(Trace::payload(Some("gz"), gz).is_err());
}
