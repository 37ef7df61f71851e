use std::io::{Error, ErrorKind};

use http_replay_bench::url::{PathReader, URLPool, URLPoolConfig, URLPoolError};
use rand::rngs::ChaCha8Rng;
use rand::seq::SliceRandom;
use rand::SeedableRng;

fn config(shuffle: bool, limit: Option<usize>, wall_time: Option<u64>) -> URLPoolConfig {
    URLPoolConfig {
        endpoint: "http://host/data/".to_owned(),
        shuffle,
        limit,
        wall_time,
    }
}

fn lines(texts: &[&str]) -> Vec<Result<String, Error>> {
    texts.iter().map(|text| Ok((*text).to_owned())).collect()
}

fn drain(pool: &mut URLPool, now: u64) -> Vec<String> {
    let mut urls = Vec::new();
    while let Some(url) = pool.next_path(now) {
        urls.push(url);
    }
    urls
}

#[test]
fn paths_come_in_order_once_each() {
    let mut pool = URLPool::load(&config(false, None, None), lines(&["a", "b", "c"]), 0).unwrap();
    assert_eq!(
        drain(&mut pool, 0),
        vec!["http://host/data/a", "http://host/data/b", "http://host/data/c"]
    );
    assert_eq!(pool.next_path(0), None);
    assert_eq!(pool.next_path(u64::MAX), None);
}

#[test]
fn blank_lines_are_skipped_and_others_kept_whole() {
    let text = lines(&["", " a ", "\t", "\u{3000}", "b"]);
    let mut pool = URLPool::load(&config(false, None, None), text, 0).unwrap();
    assert_eq!(
        drain(&mut pool, 0),
        vec!["http://host/data/ a ", "http://host/data/b"]
    );
}

#[test]
fn limit_counts_paths_not_lines() {
    let text = lines(&["", "a", "", "b", "c"]);
    let mut pool = URLPool::load(&config(false, Some(2), None), text, 0).unwrap();
    assert_eq!(
        drain(&mut pool, 0),
        vec!["http://host/data/a", "http://host/data/b"]
    );
}

#[test]
fn empty_pool_is_an_error() {
    for (limit, text) in [
        (None, lines(&[])),
        (None, lines(&["", "  "])),
        (Some(0), lines(&["a"])),
    ] {
        let error = URLPool::load(&config(false, limit, None), text, 0).unwrap_err();
        assert!(matches!(error, URLPoolError::NoPaths));
        assert_eq!(error.describe(), "path file contains no request paths");
    }
}

fn failing(texts: &[&str]) -> Vec<Result<String, Error>> {
    let mut text = lines(texts);
    text.push(Err(Error::new(ErrorKind::InvalidData, "not text")));
    text
}

#[test]
fn unreadable_line_is_an_error() {
    let error = URLPool::load(&config(false, None, None), failing(&["a"]), 0).unwrap_err();
    assert_eq!(error.describe(), "not text");
    let error = URLPool::load(&config(false, Some(2), None), failing(&["a"]), 0).unwrap_err();
    assert!(matches!(error, URLPoolError::Read(_)));
}

#[test]
fn unreadable_line_beyond_limit_does_no_harm() {
    let mut pool = URLPool::load(&config(false, Some(1), None), failing(&["a"]), 0).unwrap();
    assert_eq!(drain(&mut pool, 0), vec!["http://host/data/a"]);
}

#[test]
fn wall_time_repeats_the_pool() {
    let mut pool =
        URLPool::load(&config(false, None, Some(2)), lines(&["a", "b", "c"]), 500).unwrap();
    let end = 2_000_000_500;
    for turn in 0..7 {
        let path = ["a", "b", "c"][turn % 3];
        assert_eq!(pool.next_path(end - 1), Some(format!("http://host/data/{path}")));
    }
    assert_eq!(pool.next_path(end), None);
    assert_eq!(pool.next_path(end + 1), None);
}

#[test]
fn listed_paths_come_as_listed() {
    let paths = vec!["http://b/2".to_owned(), "http://a/1".to_owned()];
    let mut pool = URLPool::with_paths(paths.clone(), None, 0).unwrap();
    assert_eq!(drain(&mut pool, 0), paths);
    assert!(matches!(
        URLPool::with_paths(Vec::new(), Some(1), 0),
        Err(URLPoolError::NoPaths)
    ));
}

#[test]
fn shuffle_keeps_the_paths() {
    let texts: Vec<String> = (0..200).map(|i| i.to_string()).collect();
    let texts: Vec<&str> = texts.iter().map(|text| text.as_str()).collect();
    let mut plain = URLPool::load(&config(false, Some(150), None), lines(&texts), 0).unwrap();
    let mut mixed = URLPool::load(&config(true, Some(150), None), lines(&texts), 0).unwrap();
    let mut expected = drain(&mut plain, 0);
    let mut found = drain(&mut mixed, 0);
    assert_ne!(found, expected);
    expected.sort();
    found.sort();
    assert_eq!(found, expected);
}

#[test]
fn generator_decides_the_order() {
    let texts: Vec<String> = (0..50).map(|i| i.to_string()).collect();
    let refs: Vec<&str> = texts.iter().map(|text| text.as_str()).collect();
    let mut expected: Vec<String> =
        texts.iter().take(40).map(|text| format!("http://host/data/{text}")).collect();
    let plain = expected.clone();
    expected.shuffle(&mut ChaCha8Rng::from_seed([3; 32]));
    assert_ne!(expected, plain);
    let mut pool = URLPool::load_shuffled(
        &config(true, Some(40), None),
        lines(&refs),
        ChaCha8Rng::from_seed([3; 32]),
        0,
    )
    .unwrap();
    assert_eq!(drain(&mut pool, 0), expected);
    assert!(matches!(
        URLPool::load_shuffled(
            &config(true, None, None),
            lines(&[""]),
            ChaCha8Rng::from_seed([3; 32]),
            0
        ),
        Err(URLPoolError::NoPaths)
    ));
}

#[test]
fn askers_share_the_paths() {
    let mut pool = URLPool::load(&config(false, None, None), lines(&["a", "b", "c"]), 0).unwrap();
    let mut got: [Vec<Option<String>>; 2] = [Vec::new(), Vec::new()];
    for asker in [0, 1, 1, 0, 1] {
        got[asker].push(pool.next_path(0));
    }
    let url = |path: &str| Some(format!("http://host/data/{path}"));
    assert_eq!(got[0], vec![url("a"), None]);
    assert_eq!(got[1], vec![url("b"), url("c"), None]);
}

#[test]
fn reader_stops_at_the_limit() {
    let mut reader = PathReader::new(Some(2));
    let mut read = 0;
    for line in &lines(&["", "a", " ", "b", "c"]) {
        if !reader.wants_more() {
            break;
        }
        reader.on_line(line);
        read += 1;
    }
    assert_eq!(read, 4);
    assert!(!PathReader::new(Some(0)).wants_more());
}

#[test]
fn reader_stops_at_a_failure() {
    let mut reader = PathReader::new(None);
    for line in &failing(&["a", ""]) {
        assert!(reader.wants_more());
        reader.on_line(line);
    }
    assert!(!reader.wants_more());
}

#[test]
fn lines_beyond_the_reader_make_no_difference() {
    for limit in [Some(1), Some(2), None] {
        let mut reader = PathReader::new(limit);
        let mut wanted = Vec::new();
        for line in failing(&["a", "b"]) {
            if reader.wants_more() {
                reader.on_line(&line);
                wanted.push(line);
            }
        }
        let some = URLPool::load(&config(false, limit, None), wanted, 0);
        let mut more = failing(&["a", "b"]);
        more.extend(lines(&["c"]));
        let all = URLPool::load(&config(false, limit, None), more, 0);
        match (some, all) {
            (Ok(mut some), Ok(mut all)) => assert_eq!(drain(&mut some, 0), drain(&mut all, 0)),
            (Err(some), Err(all)) => assert_eq!(some.describe(), all.describe()),
            other => panic!("{other:?}"),
        }
    }
}
