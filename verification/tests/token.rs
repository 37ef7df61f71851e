use std::collections::HashMap;
use std::io::{Error, ErrorKind};

use http::header::{HeaderMap, HeaderName, HeaderValue, ACCEPT, AUTHORIZATION, HOST};
use http_replay_bench::wlcg_token_discovery::{
    AuthorizationError, FileRead, TokenDiscoveryError, TokenProgress, TokenQuery, TokenSearch, TokenSource,
    WLCGTokenAuthMiddleware,
};

fn search(
    variables: &[(&str, &str)],
    files: &[(&str, &str)],
    unreadable: &[&str],
) -> (Result<String, TokenDiscoveryError>, Vec<String>) {
    let variables: HashMap<&str, &str> = variables.iter().copied().collect();
    let files: HashMap<&str, &str> = files.iter().copied().collect();
    let mut asked = Vec::new();
    let mut search = TokenSearch::for_user(1000);
    loop {
        let progress = match search.query() {
            TokenQuery::Variable(name) => {
                let value = variables.get(name.as_str()).map(|value| (*value).to_owned());
                asked.push(name);
                search.on_variable(value)
            }
            TokenQuery::File(path) => {
                let read = match files.get(path.as_str()) {
                    Some(text) => FileRead::Content((*text).to_owned()),
                    None if unreadable.contains(&path.as_str()) => {
                        FileRead::Failed(Error::new(ErrorKind::PermissionDenied, "locked"))
                    }
                    None => FileRead::Missing,
                };
                asked.push(path);
                search.on_file(read)
            }
        };
        match progress {
            TokenProgress::Continue(next) => search = next,
            TokenProgress::Done(found) => return (found, asked),
        }
    }
}

#[test]
fn token_variable_comes_first_and_is_kept_whole() {
    let (found, asked) = search(
        &[("BEARER_TOKEN", " abc "), ("BEARER_TOKEN_FILE", "/t")],
        &[("/t", "other")],
        &[],
    );
    assert_eq!(found.unwrap(), " abc ");
    assert_eq!(asked, vec!["BEARER_TOKEN"]);
}

#[test]
fn token_file_is_trimmed() {
    let (found, asked) = search(&[("BEARER_TOKEN_FILE", "/t")], &[("/t", "\n abc\r\n")], &[]);
    assert_eq!(found.unwrap(), "abc");
    assert_eq!(asked, vec!["BEARER_TOKEN", "BEARER_TOKEN_FILE", "/t"]);
}

#[test]
fn missing_files_are_passed_over() {
    let (found, asked) = search(
        &[("BEARER_TOKEN_FILE", "/t"), ("XDG_RUNTIME_DIR", "/run/user/1000")],
        &[("/tmp/bt_u1000", "last")],
        &[],
    );
    assert_eq!(found.unwrap(), "last");
    assert_eq!(
        asked,
        vec![
            "BEARER_TOKEN",
            "BEARER_TOKEN_FILE",
            "/t",
            "XDG_RUNTIME_DIR",
            "/run/user/1000/bt_u1000",
            "/tmp/bt_u1000",
        ]
    );
}

#[test]
fn runtime_dir_comes_before_tmp() {
    let (found, _) = search(
        &[("XDG_RUNTIME_DIR", "/run")],
        &[("/run/bt_u1000", "a"), ("/tmp/bt_u1000", "b")],
        &[],
    );
    assert_eq!(found.unwrap(), "a");
}

#[test]
fn nothing_found() {
    let (found, asked) = search(&[], &[], &[]);
    let error = found.unwrap_err();
    assert!(matches!(error, TokenDiscoveryError::NoTokenFound));
    assert_eq!(
        error.describe(),
        "No token found in environment or default locations"
    );
    assert_eq!(
        asked,
        vec!["BEARER_TOKEN", "BEARER_TOKEN_FILE", "XDG_RUNTIME_DIR", "/tmp/bt_u1000"]
    );
}

#[test]
fn unreadable_file_ends_the_search() {
    let cases = [
        (vec![("BEARER_TOKEN_FILE", "/t")], "/t", TokenSource::EnvBearerTokenFile),
        (vec![("XDG_RUNTIME_DIR", "/run")], "/run/bt_u1000", TokenSource::EnvXdgRuntimeDir),
        (vec![], "/tmp/bt_u1000", TokenSource::TmpDir),
    ];
    for (variables, path, expected) in cases {
        let (found, asked) = search(&variables, &[], &[path]);
        assert_eq!(asked.last().unwrap(), path);
        let error = found.unwrap_err();
        assert_eq!(
            error.describe(),
            format!("Failed to read token from {}: locked", expected.describe())
        );
        match error {
            TokenDiscoveryError::FileReadError(source, _) => assert_eq!(source, expected),
            other => panic!("{other:?}"),
        }
    }
}

#[test]
fn sources_in_words() {
    assert_eq!(
        TokenSource::EnvBearerTokenFile.describe(),
        "path specified in BEARER_TOKEN_FILE"
    );
    assert_eq!(
        TokenSource::EnvXdgRuntimeDir.describe(),
        "path specified in XDG_RUNTIME_DIR"
    );
    assert_eq!(TokenSource::TmpDir.describe(), "/tmp/bt_u<uid>");
}

#[test]
fn search_starts_for_the_current_user() {
    let mut search = TokenSearch::start();
    loop {
        let progress = match search.query() {
            TokenQuery::Variable(_) => search.on_variable(None),
            TokenQuery::File(path) => {
                assert_eq!(path, format!("/tmp/bt_u{}", nix::unistd::Uid::current()));
                return;
            }
        };
        match progress {
            TokenProgress::Continue(next) => search = next,
            TokenProgress::Done(found) => panic!("{found:?}"),
        }
    }
}

#[test]
fn authorization_header() {
    let middleware = WLCGTokenAuthMiddleware::try_new(Ok("abc.def".to_owned())).unwrap();
    let value = middleware.authorization().unwrap();
    assert_eq!(value.as_bytes(), b"Bearer abc.def");
    assert!(value.is_sensitive());
}

#[test]
fn control_characters_cannot_be_sent() {
    let middleware = WLCGTokenAuthMiddleware::try_new(Ok("abc\ndef".to_owned())).unwrap();
    assert!(middleware.authorization().is_err());
    let middleware = WLCGTokenAuthMiddleware::try_new(Ok("a\tb\u{e4}".to_owned())).unwrap();
    assert_eq!(
        middleware.authorization().unwrap().as_bytes(),
        "Bearer a\tb\u{e4}".as_bytes()
    );
}

#[test]
fn requests_are_authorized() {
    let middleware = WLCGTokenAuthMiddleware::try_new(Ok("abc".to_owned())).unwrap();
    let mut headers = HeaderMap::new();
    headers.insert(HOST, HeaderValue::from_static("host"));
    headers.append(ACCEPT, HeaderValue::from_static("a/b"));
    headers.append(ACCEPT, HeaderValue::from_static("c/d"));
    headers.append(AUTHORIZATION, HeaderValue::from_static("Basic x"));
    headers.append(AUTHORIZATION, HeaderValue::from_static("Basic y"));
    middleware.authorize(&mut headers).unwrap();
    middleware.authorize(&mut headers).unwrap();
    let values: Vec<&HeaderValue> = headers.get_all(AUTHORIZATION).iter().collect();
    assert_eq!(values, vec!["Bearer abc"]);
    assert!(values[0].is_sensitive());
    assert_eq!(headers.get(HOST).unwrap(), "host");
    let accepted: Vec<&HeaderValue> = headers.get_all(ACCEPT).iter().collect();
    assert_eq!(accepted, vec!["a/b", "c/d"]);
    assert_eq!(headers.keys_len(), 3);
}

#[test]
fn malformed_token_leaves_headers_alone() {
    let middleware = WLCGTokenAuthMiddleware::try_new(Ok("abc\n".to_owned())).unwrap();
    let mut headers = HeaderMap::new();
    headers.insert(AUTHORIZATION, HeaderValue::from_static("Basic x"));
    assert!(matches!(
        middleware.authorize(&mut headers),
        Err(AuthorizationError::Malformed(_))
    ));
    assert_eq!(headers.get(AUTHORIZATION).unwrap(), "Basic x");
    assert_eq!(headers.len(), 1);
}

fn many_headers(count: usize) -> HeaderMap {
    let mut headers = HeaderMap::with_capacity(count);
    for i in 0..count {
        let name = HeaderName::from_bytes(format!("x-{i}").as_bytes()).unwrap();
        headers.insert(name, HeaderValue::from_static("v"));
    }
    headers
}

#[test]
fn many_headers_take_another() {
    let middleware = WLCGTokenAuthMiddleware::try_new(Ok("abc".to_owned())).unwrap();
    let mut headers = many_headers(6553);
    middleware.authorize(&mut headers).unwrap();
    assert_eq!(headers.keys_len(), 6554);
    assert_eq!(headers.get(AUTHORIZATION).unwrap(), "Bearer abc");
}

#[test]
fn full_headers_take_no_other() {
    let middleware = WLCGTokenAuthMiddleware::try_new(Ok("abc".to_owned())).unwrap();
    let mut headers = many_headers(24576);
    assert!(matches!(
        middleware.authorize(&mut headers),
        Err(AuthorizationError::TooManyHeaders)
    ));
    assert_eq!(headers.keys_len(), 24576);
    assert!(headers.get(AUTHORIZATION).is_none());
}

#[test]
fn no_token_no_middleware() {
    assert!(WLCGTokenAuthMiddleware::try_new(Err(TokenDiscoveryError::NoTokenFound)).is_err());
}
