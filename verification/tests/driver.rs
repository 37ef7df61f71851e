use http::header::{HeaderMap, HeaderValue, CONTENT_LENGTH, CONTENT_RANGE, CONTENT_TYPE};
use http_replay_bench::driver::{
    pattern_header, ClientDriver, ClientRun, ClientStats, ClientStep, DriverConfig, PatternConfig, PatternDriver,
    ReplayConfig, ReplayDriver,
};
use http_replay_bench::report::merge_worker_stats;
use http_replay_bench::size::NonZeroSize;
use http_replay_bench::trace::{RawTraceEntry, TraceError};
use http_replay_bench::transport::{
    HeadReply, HeadResult, RangeReply, RangeResult, RangeTransfer, TransportError,
};
use http_replay_bench::url::{URLPool, URLPoolConfig};
use rand::rngs::ChaCha8Rng;
use rand::{RngExt, SeedableRng};
use sha2::{Digest, Sha256};

// Dummy file length for the mock server to return.
const TOTAL_LENGTH: usize = 16384;

fn head_of(length: usize) -> Result<HeadResult, TransportError> {
    Ok(HeadResult {
        content_length: NonZeroSize::new(length).unwrap(),
    })
}

fn answer(total_bytes: usize) -> Result<RangeResult, TransportError> {
    Ok(RangeResult {
        total_bytes,
        final_url: "http://host/file".to_owned(),
    })
}

fn pattern(num_requests: usize, request_size: usize, deterministic: bool) -> PatternConfig {
    PatternConfig {
        num_requests,
        request_size: NonZeroSize::new(request_size).unwrap(),
        deterministic,
    }
}

/// A server that holds one resource of `TOTAL_LENGTH` bytes under each path.
struct MockServer {
    heads: usize,
    gets: usize,
}

impl MockServer {
    fn head(&mut self) -> (u16, HeaderMap) {
        self.heads += 1;
        let mut headers = HeaderMap::new();
        headers.insert(CONTENT_TYPE, HeaderValue::from_static("application/octet-stream"));
        headers.insert(CONTENT_LENGTH, HeaderValue::from(TOTAL_LENGTH));
        (200, headers)
    }

    fn get(&mut self, range: &str) -> (u16, HeaderMap, usize) {
        self.gets += 1;
        let parts: Vec<usize> = range
            .strip_prefix("bytes=")
            .unwrap()
            .split('-')
            .map(|s| s.parse().unwrap())
            .collect();
        let (start, end) = (parts[0], parts[1]);
        if start >= TOTAL_LENGTH || end >= TOTAL_LENGTH || start > end {
            return (416, HeaderMap::new(), 0);
        }
        let content_length = end - start + 1;
        let content_range = format!("bytes {}-{}/{}", start, end, TOTAL_LENGTH);
        let mut headers = HeaderMap::new();
        headers.insert(CONTENT_TYPE, HeaderValue::from_static("application/octet-stream"));
        headers.insert(CONTENT_RANGE, HeaderValue::from_str(&content_range).unwrap());
        headers.insert(CONTENT_LENGTH, HeaderValue::from(content_length));
        (206, headers, content_length)
    }
}

fn run_against(server: &mut MockServer, mut run: ClientRun<'_>, stop_time: i128) -> ClientStats {
    loop {
        assert!(run.check_step());
        match run.step() {
            Some(ClientStep::Head) => {
                let (status, headers) = server.head();
                let reply = HeadReply {
                    status,
                    headers: &headers,
                };
                run.on_head(HeadResult::from_reply(Ok(reply)));
            }
            Some(ClientStep::Request(header)) => {
                let (status, headers, body) = server.get(&header);
                let reply = RangeReply {
                    status,
                    headers: &headers,
                };
                let response = RangeTransfer::begin(&header, Ok(reply)).map(|mut transfer| {
                    transfer.on_chunk(Ok(body)).unwrap();
                    transfer.finish("http://host/file".to_owned())
                });
                run.on_response(response, 1);
            }
            Some(ClientStep::Sleep(ms)) => run.on_slept(u128::from(ms) * 1_000_000),
            None => return run.finish(stop_time),
        }
    }
}

#[test]
fn test_mock_http() {
    let config = URLPoolConfig {
        endpoint: "http://host/data/".to_owned(),
        shuffle: false,
        limit: None,
        wall_time: None,
    };
    let lines = "file1\nfile2\nfile3\n".lines().map(|line| Ok(line.to_owned())).collect();
    let mut pool = URLPool::load(&config, lines, 0).unwrap();
    let driver = ClientDriver::new(DriverConfig::Pattern(pattern(5, 1024, false))).unwrap();
    let mut server = MockServer { heads: 0, gets: 0 };
    let mut client_stats = Vec::new();
    while let Some(url) = pool.next_path(0) {
        let run = driver.start(&url, 10, 11);
        client_stats.push(run_against(&mut server, run, 20));
    }
    assert_eq!(server.heads, 3);
    assert_eq!(server.gets, 3 * 5); // 3 files * 5 requests each
    assert_eq!(client_stats.len(), 3);
    for stats in client_stats {
        assert_eq!(stats.requests, 5, "requests should be 5");
        assert_eq!(stats.total_bytes, 5 * 1024, "total_bytes should be 5 * 1024");
        assert_eq!(stats.error, None);
        assert_eq!((stats.start_time, stats.stop_time), (10, 20));
        assert_eq!(stats.nanos_reading, 5);
    }
}

#[test]
fn fresh_stats() {
    let stats = ClientStats::new("http://host/a", 1, 2);
    assert_eq!(stats.url, "http://host/a");
    assert_eq!((stats.start_time, stats.stop_time), (1, 2));
    assert_eq!((stats.requests, stats.total_bytes), (0, 0));
    assert_eq!((stats.nanos_reading, stats.nanos_sleeping), (0, 0));
    assert_eq!(stats.error, None);
}

fn recording() -> Vec<RawTraceEntry> {
    vec![
        RawTraceEntry {
            vector: false,
            chunks: vec![(0, 100)],
            start_ms: 0,
            end_ms: 10,
        },
        RawTraceEntry {
            vector: true,
            chunks: vec![(200, 10), (16000, 1000), (20000, 1)],
            start_ms: 25,
            end_ms: 30,
        },
    ]
}

#[test]
fn replay_follows_the_trace() {
    let driver = ClientDriver::new(DriverConfig::Replay(ReplayConfig {
        entries: recording(),
    }))
    .unwrap();
    let mut run = driver.start("http://host/a", 1, 2);
    assert!(matches!(run.step(), Some(ClientStep::Head)));
    run.on_head(head_of(TOTAL_LENGTH));
    match run.step() {
        Some(ClientStep::Request(header)) => assert_eq!(header, "bytes=0-99"),
        other => panic!("{other:?}"),
    }
    run.on_response(answer(100), 7);
    match run.step() {
        Some(ClientStep::Sleep(ms)) => assert_eq!(ms, 15),
        other => panic!("{other:?}"),
    }
    run.on_slept(30_000_000);
    match run.step() {
        Some(ClientStep::Request(header)) => assert_eq!(header, "bytes=200-209,16000-16383"),
        other => panic!("{other:?}"),
    }
    run.on_response(answer(500), 8);
    assert!(run.step().is_none());
    assert!(run.step().is_none());
    let stats = run.finish(99);
    assert_eq!(stats.requests, 2);
    assert_eq!(stats.total_bytes, 600);
    assert_eq!(stats.nanos_reading, 15);
    assert_eq!(stats.nanos_sleeping, 30_000_000);
    assert_eq!(stats.stop_time, 99);
    assert_eq!(stats.error, None);
}

#[test]
fn replay_needs_chunks() {
    let mut entries = recording();
    entries[0].chunks.clear();
    let config = ReplayConfig { entries };
    assert_eq!(ReplayDriver::new(&config).unwrap_err(), TraceError::MissingChunk);
    assert_eq!(
        ClientDriver::new(DriverConfig::Replay(config)).unwrap_err(),
        TraceError::MissingChunk
    );
}

#[test]
fn replay_checks_ranges_before_it_steps() {
    let mut entries = recording();
    entries[0].chunks[0] = (usize::MAX, 1);
    let driver = ReplayDriver::new(&ReplayConfig { entries }).unwrap();
    let mut run = driver.start("http://host/a", 1, 2);
    assert!(run.check_step());
    run.on_head(head_of(TOTAL_LENGTH));
    assert!(!run.check_step());
}

#[test]
fn failed_head_ends_the_client() {
    let driver = PatternDriver::new(pattern(5, 1024, true));
    let mut run = driver.start("http://host/a", 1, 2);
    run.on_head(Err(TransportError::UnexpectedStatus(404)));
    assert!(run.step().is_none());
    let stats = run.finish(99);
    assert_eq!(
        stats.error.as_deref(),
        Some("Failed to get content length: Unexpected status code: 404")
    );
    assert_eq!((stats.start_time, stats.stop_time), (1, 2));
}

#[test]
fn failed_request_ends_the_client() {
    let driver = PatternDriver::new(pattern(5, 1024, true));
    let mut run = driver.start("http://host/a", 1, 2);
    run.on_head(head_of(TOTAL_LENGTH));
    assert!(run.step().is_some());
    run.on_response(answer(1024), 3);
    assert!(run.step().is_some());
    run.on_response(Err(TransportError::InvalidContentRange), 4);
    assert!(run.step().is_none());
    assert_eq!(run.stats().requests, 1);
    let stats = run.finish(99);
    assert_eq!(
        stats.error.as_deref(),
        Some("Request failed: Invalid Content-Range header")
    );
    assert_eq!((stats.requests, stats.total_bytes), (1, 1024));
    assert_eq!(stats.nanos_reading, 3);
    assert_eq!(stats.stop_time, 2);
}

fn headers(config: PatternConfig, url: &str, length: usize) -> Vec<String> {
    let driver = PatternDriver::new(config);
    let mut run = driver.start(url, 0, 0);
    run.on_head(head_of(length));
    let mut headers = Vec::new();
    while let Some(step) = run.step() {
        match step {
            ClientStep::Request(header) => headers.push(header),
            other => panic!("{other:?}"),
        }
        run.on_response(answer(1), 1);
    }
    headers
}

#[test]
fn deterministic_ranges_are_seeded_by_the_url() {
    let url = "http://host/data/file1";
    let seed: [u8; 32] = Sha256::digest(url.as_bytes()).into();
    let mut rng = ChaCha8Rng::from_seed(seed);
    let expected: Vec<String> = (0..20)
        .map(|_| {
            let start: usize = rng.random_range(0..=(TOTAL_LENGTH - 1024));
            format!("bytes={}-{}", start, start + 1024 - 1)
        })
        .collect();
    let found = headers(pattern(20, 1024, true), url, TOTAL_LENGTH);
    assert_eq!(found, expected);
    assert_eq!(headers(pattern(20, 1024, true), url, TOTAL_LENGTH), expected);
    assert_ne!(
        headers(pattern(20, 1024, true), "http://host/data/file2", TOTAL_LENGTH),
        expected
    );
}

#[test]
fn seed_decides_the_ranges() {
    let mut rng = ChaCha8Rng::from_seed([7; 32]);
    let start: usize = rng.random_range(0..=90);
    let driver = PatternDriver::new(pattern(1, 10, false));
    let mut run = driver.start_seeded("http://host/a", [7; 32], 1, 2);
    run.on_head(head_of(100));
    match run.step() {
        Some(ClientStep::Request(header)) => {
            assert_eq!(header, format!("bytes={}-{}", start, start + 9));
        }
        other => panic!("{other:?}"),
    }
}

#[test]
fn header_of_a_random_range() {
    let size = |bytes| NonZeroSize::new(bytes).unwrap();
    assert_eq!(pattern_header(15360, size(1024), size(TOTAL_LENGTH)), "bytes=15360-16383");
    assert_eq!(pattern_header(0, size(1024), size(7)), "bytes=0-6");
}

#[test]
fn random_ranges_differ_from_run_to_run() {
    let url = "http://host/data/file1";
    assert_ne!(
        headers(pattern(20, 1, false), url, usize::MAX),
        headers(pattern(20, 1, false), url, usize::MAX)
    );
}

#[test]
fn random_ranges_lie_in_content() {
    for header in headers(pattern(200, 10, false), "http://host/a", 13) {
        let (start, end) = header.strip_prefix("bytes=").unwrap().split_once('-').unwrap();
        let start: usize = start.parse().unwrap();
        let end: usize = end.parse().unwrap();
        assert_eq!(end - start + 1, 10);
        assert!(end < 13);
    }
}

#[test]
fn small_content_is_requested_whole() {
    assert_eq!(
        headers(pattern(2, 1024, false), "http://host/a", 7),
        vec!["bytes=0-6", "bytes=0-6"]
    );
    assert_eq!(
        headers(pattern(1, 1, true), "http://host/a", 1),
        vec!["bytes=0-0"]
    );
}

#[test]
fn no_requests_at_all() {
    assert!(headers(pattern(0, 1, true), "http://host/a", 10).is_empty());
}

#[test]
fn worker_stats_are_joined_in_order() {
    let worker = |names: &[&str]| -> Result<Vec<ClientStats>, String> {
        Ok(names.iter().map(|name| ClientStats::new(name, 0, 0)).collect())
    };
    let all = merge_worker_stats(vec![worker(&["a", "b"]), worker(&[]), worker(&["c"])]).unwrap();
    let urls: Vec<&str> = all.iter().map(|stats| stats.url.as_str()).collect();
    assert_eq!(urls, vec!["a", "b", "c"]);
    let failed = merge_worker_stats(vec![
        worker(&["a"]),
        Err("first".to_owned()),
        Err("second".to_owned()),
    ]);
    assert_eq!(failed.unwrap_err(), "first");
}
