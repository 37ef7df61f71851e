use http::header::{HeaderMap, HeaderName, HeaderValue, CONTENT_LENGTH, CONTENT_RANGE, ETAG};
use http_replay_bench::size::NonZeroSize;
use http_replay_bench::transport::{
    ClientSettings, HeadReply, HeadResult, HttpVersion, RangeReply, RangeTransfer, TransportConfig,
    TransportError,
};
use http_replay_bench::wlcg_token_discovery::{TokenDiscoveryError, WLCGTokenAuthMiddleware};

fn config(no_follow_redirects: bool, require_wlcg_token: bool) -> TransportConfig {
    TransportConfig {
        http_version: HttpVersion::Http2,
        timeout: 5,
        no_follow_redirects,
        max_retries: 10,
        require_wlcg_token,
    }
}

fn headers_with(name: HeaderName, value: Option<&[u8]>) -> HeaderMap {
    let mut headers = HeaderMap::new();
    headers.insert(ETAG, HeaderValue::from_static("7"));
    if let Some(value) = value {
        headers.insert(name, HeaderValue::from_bytes(value).unwrap());
    }
    headers
}

fn head(status: u16, content_length: Option<&[u8]>) -> Result<HeadResult, TransportError> {
    let headers = headers_with(CONTENT_LENGTH, content_length);
    HeadResult::from_reply(Ok(HeadReply {
        status,
        headers: &headers,
    }))
}

fn begin(
    range_header: &str,
    status: u16,
    content_range: Option<&[u8]>,
) -> Result<RangeTransfer, TransportError> {
    let headers = headers_with(CONTENT_RANGE, content_range);
    RangeTransfer::begin(
        range_header,
        Ok(RangeReply {
            status,
            headers: &headers,
        }),
    )
}

#[test]
fn sizes_are_positive() {
    assert!(NonZeroSize::new(0).is_none());
    assert_eq!(NonZeroSize::new(1).unwrap().get(), 1);
    assert_eq!(NonZeroSize::new(usize::MAX).unwrap().get(), usize::MAX);
}

#[test]
fn settings_follow_configuration() {
    assert_eq!(
        config(false, false).client_settings(),
        ClientSettings {
            idle_timeout: 5,
            timeout: 5,
            tcp_nodelay: true,
            max_redirects: Some(10),
            http_version: HttpVersion::Http2,
            max_retries: 10,
        }
    );
    assert_eq!(config(true, false).client_settings().max_redirects, None);
}

#[test]
fn token_is_needed_only_where_required() {
    let found = || WLCGTokenAuthMiddleware::try_new(Ok("secret".to_owned()));
    let missing = || WLCGTokenAuthMiddleware::try_new(Err(TokenDiscoveryError::NoTokenFound));
    assert!(config(false, false).authorization(found()).unwrap().is_some());
    assert!(config(false, true).authorization(found()).unwrap().is_some());
    assert!(config(false, false).authorization(missing()).unwrap().is_none());
    assert!(matches!(
        config(false, true).authorization(missing()),
        Err(TokenDiscoveryError::NoTokenFound)
    ));
}

#[test]
fn head_gives_content_length() {
    assert_eq!(head(200, Some(b"16384")).unwrap().content_length.get(), 16384);
    assert_eq!(head(200, Some(b"+1")).unwrap().content_length.get(), 1);
    assert_eq!(head(200, Some(b"007")).unwrap().content_length.get(), 7);
}

#[test]
fn head_needs_a_positive_length() {
    let bad: [Option<&[u8]>; 8] = [
        None,
        Some(b""),
        Some(b"0"),
        Some(b"-1"),
        Some(b"12 "),
        Some(b"1\xff"),
        Some(b"99999999999999999999999999"),
        Some(b"ten"),
    ];
    for value in bad {
        assert!(matches!(
            head(200, value),
            Err(TransportError::InvalidContentLength)
        ));
    }
}

#[test]
fn head_needs_status_ok() {
    for status in [100, 201, 206, 404, 500] {
        match head(status, Some(b"16384")) {
            Err(TransportError::UnexpectedStatus(code)) => assert_eq!(code, status),
            other => panic!("{other:?}"),
        }
    }
    match HeadResult::from_reply(Err("no route".to_owned())) {
        Err(TransportError::RequestError(e)) => assert_eq!(e, "no route"),
        other => panic!("{other:?}"),
    }
}

#[test]
fn matching_content_range_is_let_through() {
    assert!(begin("bytes=0-499", 206, Some(b"bytes 0-499/25000")).is_ok());
    assert!(begin("bytes=0-499", 206, Some(b"bytes 0-499/*")).is_ok());
    assert!(begin("bytes=0-499", 206, Some(b"bytes 0-499")).is_ok());
    assert!(begin("bytes=0-499", 206, Some(b"bytes 0-499/1/2")).is_ok());
}

#[test]
fn other_content_range_is_refused() {
    let bad: [&[u8]; 7] = [
        b"bytes 0-498/25000",
        b"bytes 0-4990/25000",
        b"bytes 1-499/25000",
        b"bytes=0-499/25000",
        b"",
        b"/",
        b"bytes 0-49",
    ];
    for value in bad {
        assert!(matches!(
            begin("bytes=0-499", 206, Some(value)),
            Err(TransportError::InvalidContentRange)
        ));
    }
}

#[test]
fn every_unit_is_replaced() {
    assert!(begin("bytes=1-2,bytes=3-4", 206, Some(b"bytes 1-2,bytes 3-4/9")).is_ok());
    assert!(begin("bytebytes=", 206, Some(b"bytebytes /")).is_ok());
    assert!(begin("bytes=1-2,bytes=3-4", 206, Some(b"bytes 1-2,bytes=3-4/9")).is_err());
}

#[test]
fn response_without_readable_range_is_not_held_to_one() {
    assert!(begin("bytes=0-1,4-5", 206, None).is_ok());
    assert!(begin("bytes=0-1", 206, Some(b"bytes \xe4")).is_ok());
}

#[test]
fn range_response_needs_partial_content() {
    for status in [200, 204, 416, 503] {
        match begin("bytes=0-1", status, Some(b"bytes 0-1/2")) {
            Err(TransportError::UnexpectedStatus(code)) => assert_eq!(code, status),
            other => panic!("{other:?}"),
        }
    }
    match RangeTransfer::begin("bytes=0-1", Err("reset".to_owned())) {
        Err(TransportError::RequestError(e)) => assert_eq!(e, "reset"),
        other => panic!("{other:?}"),
    }
}

#[test]
fn first_of_several_values_counts() {
    let mut headers = headers_with(CONTENT_LENGTH, Some(b"5"));
    headers.append(CONTENT_LENGTH, HeaderValue::from_static("6"));
    headers.append(CONTENT_RANGE, HeaderValue::from_static("bytes 0-1/9"));
    headers.append(CONTENT_RANGE, HeaderValue::from_static("bytes 2-3/9"));
    let head = HeadResult::from_reply(Ok(HeadReply {
        status: 200,
        headers: &headers,
    }));
    assert_eq!(head.unwrap().content_length.get(), 5);
    for (range_header, good) in [("bytes=0-1", true), ("bytes=2-3", false)] {
        let reply = RangeReply {
            status: 206,
            headers: &headers,
        };
        assert_eq!(RangeTransfer::begin(range_header, Ok(reply)).is_ok(), good);
    }
}

#[test]
fn body_is_counted() {
    let mut transfer = begin("bytes=0-499", 206, Some(b"bytes 0-499/500")).unwrap();
    assert_eq!(transfer.total_bytes(), 0);
    for length in [100, 0, 250, 150] {
        transfer.on_chunk(Ok(length)).unwrap();
    }
    assert_eq!(transfer.total_bytes(), 500);
    let result = transfer.finish("http://mirror/file".to_owned());
    assert_eq!(result.total_bytes, 500);
    assert_eq!(result.final_url, "http://mirror/file");
}

#[test]
fn body_error_is_handed_on() {
    let mut transfer = begin("bytes=0-499", 206, None).unwrap();
    transfer.on_chunk(Ok(7)).unwrap();
    match transfer.on_chunk(Err("cut off".to_owned())) {
        Err(TransportError::BodyReadError(e)) => assert_eq!(e, "cut off"),
        other => panic!("{other:?}"),
    }
    assert_eq!(transfer.total_bytes(), 7);
}

#[test]
fn errors_in_words() {
    let cases = [
        (TransportError::RequestError("x".to_owned()), "Request error: x"),
        (TransportError::UnexpectedStatus(503), "Unexpected status code: 503"),
        (TransportError::InvalidContentLength, "Invalid Content-Length header"),
        (TransportError::InvalidContentRange, "Invalid Content-Range header"),
        (TransportError::BodyReadError("y".to_owned()), "Body read error: y"),
    ];
    for (error, text) in cases {
        assert_eq!(error.describe(), text);
    }
}
