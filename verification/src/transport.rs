//! What is sent to a server and what is made of its replies.
#[allow(unused_imports)]
use crate::header::{first_value, header_fields, is_visible, is_visible_byte};
use crate::header::{content_length_name, content_range_name, header_value};
use crate::size::NonZeroSize;
use crate::text::{parse_usize, push_decimal};
#[allow(unused_imports)]
use crate::text::{
    ascii, decimal, decimal_is_digits, decimal_reads_back, is_digit_byte, written_number,
};
#[allow(unused_imports)]
use crate::trace::{
    header_is_printable, header_is_unit_and_numbers, is_printable, lemma_span_printable, lemma_span_unambiguous, span_text,
    ByteRange, RangeView,
};
use crate::wlcg_token_discovery::{TokenDiscoveryError, WLCGTokenAuthMiddleware};
use http::header::{HeaderMap, HeaderValue};
use vstd::prelude::*;
#[allow(unused_imports)]
use vstd::string::StringSliceAdditionalSpecFns;
#[allow(unused_imports)]
use vstd::utf8::{encode_utf8, is_ascii_chars, is_ascii_chars_encode_utf8};

verus! {

/// The HTTP version that requests are made with.
#[derive(Clone, Copy, Debug, PartialEq, Eq, PartialOrd, Ord, Structural)]
pub enum HttpVersion {
    /// Use HTTP/1.1 for requests.
    Http1p1,
    /// Use HTTP/2 for requests.
    Http2,
}

/// How requests are made.
#[derive(Clone, Copy, Debug)]
pub struct TransportConfig {
    /// HTTP version to use for requests.
    pub http_version: HttpVersion,
    /// Timeout for requests, in seconds.
    pub timeout: u64,
    /// Don't follow redirects when making requests.
    pub no_follow_redirects: bool,
    /// Maximum retries (uses exponential backoff with jitter)
    pub max_retries: u32,
    /// Require WLCG bearer tokens to be present
    ///
    /// If true, missing tokens will fail the program fast (rather than try to read
    /// unauthenticated)
    pub require_wlcg_token: bool,
}

/// The settings of an HTTP client.
#[derive(Clone, Copy, Debug, PartialEq, Eq)]
pub struct ClientSettings {
    /// How long an idle connection is kept, in seconds.
    pub idle_timeout: u64,
    /// How long a request may take, in seconds.
    pub timeout: u64,
    /// Whether small packets are sent at once.
    pub tcp_nodelay: bool,
    /// How many redirects are followed in a row, if redirects are followed at all.
    pub max_redirects: Option<usize>,
    /// The only HTTP version that is spoken.
    pub http_version: HttpVersion,
    /// How often a request that failed for a passing reason is sent again.
    pub max_retries: u32,
}

impl TransportConfig {
    /// The client settings that carry out the configuration.
    pub fn client_settings(&self) -> (settings: ClientSettings)
        ensures
            settings.idle_timeout == self.timeout,
            settings.timeout == self.timeout,
            settings.tcp_nodelay,
            settings.max_redirects == if self.no_follow_redirects {
                None::<usize>
            } else {
                Some(10usize)
            },
            settings.http_version == self.http_version,
            settings.max_retries == self.max_retries,
    {
        ClientSettings {
            idle_timeout: self.timeout,
            timeout: self.timeout,
            tcp_nodelay: true,
            max_redirects: if self.no_follow_redirects {
                None
            } else {
                Some(10)
            },
            http_version: self.http_version,
            max_retries: self.max_retries,
        }
    }

    /// What is sent along to authorize requests, given what came of looking for a token. Without
    /// a token requests go unauthorized, unless one is required.
    pub fn authorization(
        &self,
        found: Result<WLCGTokenAuthMiddleware, TokenDiscoveryError>,
    ) -> (authorization: Result<Option<WLCGTokenAuthMiddleware>, TokenDiscoveryError>)
        ensures
            authorization == match found {
                Ok(middleware) => Ok(Some(middleware)),
                Err(error) => if self.require_wlcg_token {
                    Err(error)
                } else {
                    Ok(None)
                },
            },
    {
        match found {
            Ok(middleware) => Ok(Some(middleware)),
            Err(error) => {
                if self.require_wlcg_token {
                    Err(error)
                } else {
                    Ok(None)
                }
            },
        }
    }
}

/// A transport error
///
/// Translates library errors to something simple for drivers to handle
#[derive(Clone, Debug)]
pub enum TransportError {
    /// Error occurred while sending the request.
    RequestError(String),
    /// The request failed with the given status code.
    UnexpectedStatus(u16),
    /// The response could not be parsed as a valid Content-Length header.
    InvalidContentLength,
    /// The response could not be parsed as a valid Content-Range header.
    InvalidContentRange,
    /// The response body could not be read.
    BodyReadError(String),
}

/// What a `TransportError` stands for.
pub enum TransportErrorView {
    RequestError(Seq<char>),
    UnexpectedStatus(nat),
    InvalidContentLength,
    InvalidContentRange,
    BodyReadError(Seq<char>),
}

impl View for TransportError {
    type V = TransportErrorView;

    open spec fn view(&self) -> TransportErrorView {
        match self {
            TransportError::RequestError(e) => TransportErrorView::RequestError(e@),
            TransportError::UnexpectedStatus(code) => TransportErrorView::UnexpectedStatus(
                *code as nat,
            ),
            TransportError::InvalidContentLength => TransportErrorView::InvalidContentLength,
            TransportError::InvalidContentRange => TransportErrorView::InvalidContentRange,
            TransportError::BodyReadError(e) => TransportErrorView::BodyReadError(e@),
        }
    }
}

impl TransportErrorView {
    /// The error in words.
    pub open spec fn text(self) -> Seq<char> {
        match self {
            TransportErrorView::RequestError(e) => "Request error: "@ + e,
            TransportErrorView::UnexpectedStatus(code) => "Unexpected status code: "@ + decimal(
                code,
            ),
            TransportErrorView::InvalidContentLength => "Invalid Content-Length header"@,
            TransportErrorView::InvalidContentRange => "Invalid Content-Range header"@,
            TransportErrorView::BodyReadError(e) => "Body read error: "@ + e,
        }
    }
}

impl TransportError {
    /// The error in words.
    pub fn describe(&self) -> (text: String)
        ensures
            text@ == self@.text(),
    {
        match self {
            TransportError::RequestError(e) => "Request error: ".to_owned().concat(e.as_str()),
            TransportError::UnexpectedStatus(code) => {
                let mut text = "Unexpected status code: ".to_owned();
                push_decimal(&mut text, *code as u64);
                text
            },
            TransportError::InvalidContentLength => "Invalid Content-Length header".to_owned(),
            TransportError::InvalidContentRange => "Invalid Content-Range header".to_owned(),
            TransportError::BodyReadError(e) => "Body read error: ".to_owned().concat(e.as_str()),
        }
    }
}

/// What is used of the response to a HEAD request.
#[derive(Debug)]
pub struct HeadReply<'a> {
    /// The status code.
    pub status: u16,
    /// The headers.
    pub headers: &'a HeaderMap<HeaderValue>,
}

/// The outcome of a HEAD request.
#[derive(Clone, Copy, Debug)]
pub struct HeadResult {
    /// The size of the resource.
    pub content_length: NonZeroSize,
}

/// The size that a Content-Length header with the bytes `value` states: a number from 1 to the
/// largest `usize`.
pub open spec fn stated_length(value: Option<Seq<u8>>) -> Option<nat> {
    match value {
        Some(bytes) => if is_visible(bytes) && written_number(bytes) is Some && 0 < written_number(
            bytes,
        )->0 <= usize::MAX {
            Some(written_number(bytes)->0)
        } else {
            None
        },
        None => None,
    }
}

impl HeadResult {
    /// Get the content length of a resource from the response to a HEAD request, or from the
    /// words that say why there is no response.
    pub fn from_reply(reply: Result<HeadReply<'_>, String>) -> (head: Result<
        HeadResult,
        TransportError,
    >)
        ensures
            match reply {
                Err(e) => head is Err && head->Err_0@ == TransportErrorView::RequestError(e@),
                Ok(reply) => if reply.status != 200 {
                    head is Err && head->Err_0@ == TransportErrorView::UnexpectedStatus(
                        reply.status as nat,
                    )
                } else {
                    match stated_length(
                        first_value(header_fields(*reply.headers), "content-length"@),
                    ) {
                        Some(length) => head is Ok && head->Ok_0.content_length@ == length,
                        None => head is Err && head->Err_0@
                            == TransportErrorView::InvalidContentLength,
                    }
                },
            },
    {
        let reply = match reply {
            Ok(reply) => reply,
            Err(e) => return Err(TransportError::RequestError(e)),
        };
        if reply.status != 200 {
            return Err(TransportError::UnexpectedStatus(reply.status));
        }
        let length: Option<usize> = match header_value(reply.headers, content_length_name()) {
            Some(value) => match value.to_str() {
                Ok(text) => parse_usize(text.as_bytes()),
                Err(_) => None,
            },
            None => None,
        };
        let size: Option<NonZeroSize> = match length {
            Some(length) => NonZeroSize::new(length),
            None => None,
        };
        match size {
            Some(content_length) => Ok(HeadResult { content_length }),
            None => Err(TransportError::InvalidContentLength),
        }
    }
}

/// What is used of the response to a range request, before its body.
#[derive(Debug)]
pub struct RangeReply<'a> {
    /// The status code.
    pub status: u16,
    /// The headers.
    pub headers: &'a HeaderMap<HeaderValue>,
}

/// The outcome of a range request.
#[derive(Debug)]
pub struct RangeResult {
    pub total_bytes: usize,
    pub final_url: String,
}

/// The unit of a Range header, `bytes=`.
pub open spec fn request_unit() -> Seq<u8> {
    seq![98u8, 121u8, 116u8, 101u8, 115u8, 61u8]
}

/// The unit of a Content-Range header, `bytes ` with a space.
pub open spec fn response_unit() -> Seq<u8> {
    seq![98u8, 121u8, 116u8, 101u8, 115u8, 32u8]
}

/// `header` with `bytes ` in place of each `bytes=`, from left to right.
pub open spec fn expected_range(header: Seq<u8>) -> Seq<u8>
    decreases header.len(),
{
    if header.len() >= 6 && header.take(6) == request_unit() {
        response_unit() + expected_range(header.skip(6))
    } else if header.len() > 0 {
        seq![header[0]] + expected_range(header.skip(1))
    } else {
        Seq::empty()
    }
}

/// What stands in `value` before its first slash, or all of it where there is no slash.
pub open spec fn before_slash(value: Seq<u8>) -> Seq<u8>
    decreases value.len(),
{
    if value.len() == 0 || value[0] == 47 {
        Seq::empty()
    } else {
        seq![value[0]] + before_slash(value.skip(1))
    }
}

/// Whether a Content-Range header with the bytes `content_range` states the range that the
/// Range header with the bytes `range_header` asks for.
///
/// Range: bytes=0-499
/// Content-Range: bytes 0-499/25000
pub open spec fn states_range(range_header: Seq<u8>, content_range: Seq<u8>) -> bool {
    expected_range(range_header) == before_slash(content_range)
}

/// Whether a response's Content-Range header goes with the request. A response without one, or
/// with one that is not text, is taken for a multipart response and is not held to any range.
pub open spec fn goes_with_range(range_header: Seq<u8>, content_range: Option<Seq<u8>>) -> bool {
    match content_range {
        Some(bytes) => is_visible(bytes) ==> states_range(range_header, bytes),
        None => true,
    }
}

/// Whether `header` goes on with `bytes=` at position `i`.
fn has_unit_at(header: &[u8], i: usize) -> (yes: bool)
    requires
        i <= header@.len(),
    ensures
        yes == (header@.skip(i as int).len() >= 6 && header@.skip(i as int).take(6)
            == request_unit()),
{
    if header.len() - i < 6 {
        return false;
    }
    let yes = header[i] == 98 && header[i + 1] == 121 && header[i + 2] == 116 && header[i + 3]
        == 101 && header[i + 4] == 115 && header[i + 5] == 61;
    proof {
        let found = header@.skip(i as int).take(6);
        if yes {
            assert(found =~= request_unit());
        } else if found == request_unit() {
            assert(forall|k: int| 0 <= k < 6 ==> found[k] == header@[i + k]);
            assert(found[0] == 98 && found[1] == 121 && found[2] == 116 && found[3] == 101
                && found[4] == 115 && found[5] == 61);
        }
    }
    yes
}

/// `header` with `bytes ` in place of each `bytes=`.
fn expected_range_of(header: &[u8]) -> (expected: Vec<u8>)
    ensures
        expected@ == expected_range(header@),
{
    let mut expected: Vec<u8> = Vec::new();
    let mut i: usize = 0;
    assert(header@.skip(0) =~= header@);
    while i < header.len()
        invariant
            i <= header@.len(),
            expected@ + expected_range(header@.skip(i as int)) == expected_range(header@),
        decreases header@.len() - i,
    {
        let ghost rest = header@.skip(i as int);
        let ghost before = expected@;
        if has_unit_at(header, i) {
            expected.push(98);
            expected.push(121);
            expected.push(116);
            expected.push(101);
            expected.push(115);
            expected.push(32);
            assert(rest.skip(6) =~= header@.skip(i + 6));
            assert(expected@ =~= before + response_unit());
            assert(expected@ + expected_range(rest.skip(6)) =~= before + (response_unit()
                + expected_range(rest.skip(6))));
            i = i + 6;
        } else {
            expected.push(header[i]);
            assert(rest.skip(1) =~= header@.skip(i + 1));
            assert(rest[0] == header@[i as int]);
            assert(expected@ + expected_range(rest.skip(1)) =~= before + (seq![rest[0]]
                + expected_range(rest.skip(1))));
            i = i + 1;
        }
    }
    assert(expected_range(header@.skip(i as int)) =~= Seq::<u8>::empty());
    assert(expected@ =~= expected_range(header@));
    expected
}

/// Whether `value` starts with `expected` and then has a slash or its end, with no slash before.
fn is_before_slash(expected: &Vec<u8>, value: &[u8]) -> (yes: bool)
    ensures
        yes == (expected@ == before_slash(value@)),
{
    let mut i: usize = 0;
    assert(expected@.skip(0) =~= expected@);
    assert(value@.skip(0) =~= value@);
    loop
        invariant
            i <= expected@.len(),
            i <= value@.len(),
            (expected@ == before_slash(value@)) == (expected@.skip(i as int) == before_slash(
                value@.skip(i as int),
            )),
        decreases value@.len() - i,
    {
        let ghost wanted = expected@.skip(i as int);
        let ghost rest = value@.skip(i as int);
        if i == value.len() || value[i] == 47 {
            assert(before_slash(rest) =~= Seq::<u8>::empty());
            assert((wanted =~= Seq::<u8>::empty()) == (wanted.len() == 0));
            return i == expected.len();
        }
        assert(before_slash(rest).len() > 0);
        assert(before_slash(rest)[0] == rest[0]);
        if i == expected.len() || expected[i] != value[i] {
            assert(wanted.len() == 0 || wanted[0] != rest[0]);
            return false;
        }
        proof {
            assert(rest.skip(1) =~= value@.skip(i + 1));
            assert(wanted.skip(1) =~= expected@.skip(i + 1));
            let front = seq![rest[0]];
            assert(before_slash(rest).skip(1) =~= before_slash(rest.skip(1)));
            assert(wanted =~= front + wanted.skip(1));
        }
        i = i + 1;
    }
}

/// A range response whose body is being read.
#[derive(Debug)]
pub struct RangeTransfer {
    total_bytes: usize,
}

impl View for RangeTransfer {
    type V = nat;

    closed spec fn view(&self) -> nat {
        self.total_bytes as nat
    }
}

impl RangeTransfer {
    /// Starts on the response to a request with the given Range header, or on the words that
    /// say why there is no response.
    ///
    /// Always expect a 206 Partial Content response for range requests; otherwise, count as an
    /// error
    pub fn begin(range_header: &str, reply: Result<RangeReply<'_>, String>) -> (transfer: Result<
        RangeTransfer,
        TransportError,
    >)
        ensures
            match reply {
                Err(e) => transfer is Err && transfer->Err_0@ == TransportErrorView::RequestError(
                    e@,
                ),
                Ok(reply) => if reply.status != 206 {
                    transfer is Err && transfer->Err_0@ == TransportErrorView::UnexpectedStatus(
                        reply.status as nat,
                    )
                } else if !goes_with_range(
                    range_header.spec_bytes(),
                    first_value(header_fields(*reply.headers), "content-range"@),
                ) {
                    transfer is Err && transfer->Err_0@ == TransportErrorView::InvalidContentRange
                } else {
                    transfer is Ok && transfer->Ok_0@ == 0
                },
            },
    {
        let reply = match reply {
            Ok(reply) => reply,
            Err(e) => return Err(TransportError::RequestError(e)),
        };
        if reply.status != 206 {
            return Err(TransportError::UnexpectedStatus(reply.status));
        }
        if let Some(value) = header_value(reply.headers, content_range_name()) {
            if let Ok(observed) = value.to_str() {
                let expected = expected_range_of(range_header.as_bytes());
                if !is_before_slash(&expected, observed.as_bytes()) {
                    return Err(TransportError::InvalidContentRange);
                }
            }
        }
        Ok(RangeTransfer { total_bytes: 0 })
    }

    /// Number of bytes received so far.
    pub fn total_bytes(&self) -> (total: usize)
        ensures
            total == self@,
    {
        self.total_bytes
    }

    /// Counts a piece of the body, given by its length, or takes note of why it could not be
    /// read.
    pub fn on_chunk(&mut self, chunk: Result<usize, String>) -> (counted: Result<(), TransportError>)
        requires
            chunk is Ok ==> old(self)@ + chunk->Ok_0 <= usize::MAX,
        ensures
            match chunk {
                Ok(length) => counted is Ok && final(self)@ == old(self)@ + length,
                Err(e) => {
                    &&& counted is Err
                    &&& counted->Err_0@ == TransportErrorView::BodyReadError(e@)
                    &&& final(self)@ == old(self)@
                },
            },
    {
        match chunk {
            Ok(length) => {
                self.total_bytes = self.total_bytes + length;
                Ok(())
            },
            Err(e) => Err(TransportError::BodyReadError(e)),
        }
    }

    /// The outcome, once the body has been read to its end.
    pub fn finish(self, final_url: String) -> (result: RangeResult)
        ensures
            result.total_bytes == self@,
            result.final_url == final_url,
    {
        RangeResult { total_bytes: self.total_bytes, final_url }
    }
}

proof fn lemma_ascii_concat(a: Seq<char>, b: Seq<char>)
    ensures
        ascii(a + b) == ascii(a) + ascii(b),
{
    assert(ascii(a + b) =~= ascii(a) + ascii(b));
}

/// Printable text and its UTF-8 encoding have the same bytes.
pub proof fn printable_is_its_encoding(s: Seq<char>)
    requires
        is_printable(s),
    ensures
        encode_utf8(s) == ascii(s),
{
    assert(is_ascii_chars(s));
    is_ascii_chars_encode_utf8(s);
    assert(encode_utf8(s) =~= ascii(s));
}

proof fn lemma_ascii_injective(a: Seq<char>, b: Seq<char>)
    requires
        is_printable(a),
        is_printable(b),
        ascii(a) == ascii(b),
    ensures
        a == b,
{
    assert(a.len() == ascii(a).len());
    assert(b.len() == ascii(b).len());
    assert forall|i: int| 0 <= i < a.len() implies a[i] == b[i] by {
        assert('!' <= a[i] <= '~');
        assert('!' <= b[i] <= '~');
        assert(ascii(a)[i] == a[i] as u8);
        assert(ascii(b)[i] == b[i] as u8);
    }
    assert(a =~= b);
}

proof fn lemma_without_unit(s: Seq<u8>)
    requires
        forall|i: int| 0 <= i < s.len() ==> #[trigger] s[i] != 98,
    ensures
        expected_range(s) == s,
    decreases s.len(),
{
    if s.len() > 0 {
        if s.len() >= 6 {
            assert(s.take(6)[0] == s[0]);
        }
        lemma_without_unit(s.skip(1));
        assert(seq![s[0]] + s.skip(1) =~= s);
    } else {
        assert(s =~= Seq::<u8>::empty());
    }
}

proof fn lemma_before_slash(front: Seq<u8>, rest: Seq<u8>)
    requires
        forall|i: int| 0 <= i < front.len() ==> #[trigger] front[i] != 47,
    ensures
        before_slash(front + seq![47u8] + rest) == front,
    decreases front.len(),
{
    let value = front + seq![47u8] + rest;
    if front.len() > 0 {
        assert(value[0] == front[0]);
        assert(value.skip(1) =~= front.skip(1) + seq![47u8] + rest);
        lemma_before_slash(front.skip(1), rest);
        assert(seq![front[0]] + front.skip(1) =~= front);
    } else {
        assert(value[0] == 47);
        assert(front =~= Seq::<u8>::empty());
    }
}

proof fn lemma_span_bytes(ends: (int, int))
    requires
        0 <= ends.0,
        0 <= ends.1,
    ensures
        forall|i: int|
            0 <= i < ascii(span_text(ends)).len() ==> {
                let b = #[trigger] ascii(span_text(ends))[i];
                b != 98 && b != 47
            },
{
    decimal_is_digits(ends.0 as nat);
    decimal_is_digits(ends.1 as nat);
    reveal_strlit("-");
    assert forall|i: int| 0 <= i < ascii(span_text(ends)).len() implies {
        let b = #[trigger] ascii(span_text(ends))[i];
        b != 98 && b != 47
    } by {
        let c = span_text(ends)[i];
        assert('0' <= c <= '9' || c == '-');
    }
}

/// A response to a request for a single range is let through if the range in its Content-Range
/// header is the one that was asked for, and refused if it is another, whatever the header says
/// of the size of the resource.
pub proof fn single_range_must_be_answered(
    range: ByteRange,
    content_length: usize,
    answered: (int, int),
    size: Seq<char>,
)
    requires
        range.has_ends(content_length),
        0 <= answered.0,
        0 <= answered.1,
    ensures
        states_range(
            encode_utf8(RangeView::Single(range).header(content_length)),
            ascii("bytes "@ + span_text(answered) + "/"@ + size),
        ) <==> answered == range.ends(content_length),
{
    let asked = range.ends(content_length);
    let header = RangeView::Single(range).header(content_length);
    header_is_printable(RangeView::Single(range), content_length);
    printable_is_its_encoding(header);
    reveal_strlit("bytes=");
    reveal_strlit("bytes ");
    reveal_strlit("/");
    let sent = ascii(header);
    let asked_bytes = ascii(span_text(asked));
    let answered_bytes = ascii(span_text(answered));
    lemma_ascii_concat("bytes="@, span_text(asked));
    assert(ascii("bytes="@) =~= request_unit());
    assert(ascii("bytes "@) =~= response_unit());
    assert(ascii("/"@) =~= seq![47u8]);
    assert(sent.take(6) =~= request_unit());
    assert(sent.skip(6) =~= asked_bytes);
    lemma_span_bytes(asked);
    lemma_span_bytes(answered);
    lemma_without_unit(asked_bytes);
    assert(expected_range(sent) == response_unit() + asked_bytes);
    let reply = "bytes "@ + span_text(answered) + "/"@ + size;
    lemma_ascii_concat("bytes "@ + span_text(answered) + "/"@, size);
    lemma_ascii_concat("bytes "@ + span_text(answered), "/"@);
    lemma_ascii_concat("bytes "@, span_text(answered));
    let front = response_unit() + answered_bytes;
    assert(ascii(reply) =~= front + seq![47u8] + ascii(size));
    lemma_before_slash(front, ascii(size));
    if expected_range(sent) == before_slash(ascii(reply)) {
        assert(asked_bytes =~= (response_unit() + asked_bytes).skip(6));
        assert(answered_bytes =~= front.skip(6));
        lemma_span_printable(asked);
        lemma_span_printable(answered);
        lemma_ascii_injective(span_text(asked), span_text(answered));
        lemma_span_unambiguous(asked, answered);
    }
}

/// A Content-Length header with a positive size in decimal states that size.
pub proof fn length_reads_back(length: nat)
    requires
        0 < length <= usize::MAX,
    ensures
        stated_length(Some(ascii(decimal(length)))) == Some(length),
{
    let bytes = ascii(decimal(length));
    decimal_reads_back(length);
    decimal_is_digits(length);
    assert forall|i: int| 0 <= i < bytes.len() implies is_visible_byte(#[trigger] bytes[i]) by {
        assert('0' <= decimal(length)[i] <= '9');
    }
}

/// The range that a response is held to is the Range header with a space in place of the equals
/// sign of each `bytes=` in it, and is otherwise the same byte for byte.
pub proof fn expected_range_differs_in_units_only(header: Seq<u8>)
    ensures
        expected_range(header).len() == header.len(),
        forall|i: int|
            0 <= i < header.len() ==> #[trigger] expected_range(header)[i] == if i >= 5 && header[i]
                == 61 && header[i - 1] == 115 && header[i - 2] == 101 && header[i - 3] == 116
                && header[i - 4] == 121 && header[i - 5] == 98 {
                32u8
            } else {
                header[i]
            },
    decreases header.len(),
{
    let expected = expected_range(header);
    let unit_ends_at = |h: Seq<u8>, i: int|
        i >= 5 && h[i] == 61 && h[i - 1] == 115 && h[i - 2] == 101 && h[i - 3] == 116 && h[i - 4]
            == 121 && h[i - 5] == 98;
    if header.len() >= 6 && header.take(6) == request_unit() {
        let rest = header.skip(6);
        expected_range_differs_in_units_only(rest);
        assert(forall|k: int| 0 <= k < 6 ==> header.take(6)[k] == header[k]);
        assert(header[0] == request_unit()[0] && header[1] == request_unit()[1] && header[2]
            == request_unit()[2] && header[3] == request_unit()[3] && header[4]
            == request_unit()[4] && header[5] == request_unit()[5]) by {
            assert(header.take(6)[0] == header[0]);
            assert(header.take(6)[1] == header[1]);
            assert(header.take(6)[2] == header[2]);
            assert(header.take(6)[3] == header[3]);
            assert(header.take(6)[4] == header[4]);
            assert(header.take(6)[5] == header[5]);
        }
        assert forall|i: int| 0 <= i < header.len() implies #[trigger] expected[i] == if unit_ends_at(
            header,
            i,
        ) {
            32u8
        } else {
            header[i]
        } by {
            if i >= 6 {
                assert(expected[i] == expected_range(rest)[i - 6]);
                if i >= 11 {
                    assert(unit_ends_at(header, i) == unit_ends_at(rest, i - 6));
                } else {
                    assert(header[i - 5] != 98);
                }
            }
        }
    } else if header.len() > 0 {
        let rest = header.skip(1);
        expected_range_differs_in_units_only(rest);
        assert forall|i: int| 0 <= i < header.len() implies #[trigger] expected[i] == if unit_ends_at(
            header,
            i,
        ) {
            32u8
        } else {
            header[i]
        } by {
            if i >= 1 {
                assert(expected[i] == expected_range(rest)[i - 1]);
                if i >= 6 {
                    assert(unit_ends_at(header, i) == unit_ends_at(rest, i - 1));
                } else if unit_ends_at(header, i) {
                    assert(header.take(6) =~= request_unit());
                }
            }
        }
    }
}

/// What stands before the slash starts the value, has no slash in it, and goes up to a slash or to
/// the end of the value.
pub proof fn before_slash_ends_at_the_first_slash(value: Seq<u8>)
    ensures
        before_slash(value).len() <= value.len(),
        before_slash(value) == value.take(before_slash(value).len() as int),
        forall|i: int| 0 <= i < before_slash(value).len() ==> #[trigger] value[i] != 47,
        before_slash(value).len() < value.len() ==> value[before_slash(value).len() as int] == 47,
    decreases value.len(),
{
    let front = before_slash(value);
    if value.len() > 0 && value[0] != 47 {
        let rest = value.skip(1);
        before_slash_ends_at_the_first_slash(rest);
        assert forall|i: int| 0 <= i < front.len() implies #[trigger] value[i] != 47 by {
            if i > 0 {
                assert(rest[i - 1] == value[i]);
            }
        }
        assert(front =~= value.take(front.len() as int)) by {
            assert forall|i: int| 0 <= i < front.len() implies front[i] == value[i] by {
                if i > 0 {
                    assert(front[i] == before_slash(rest)[i - 1]);
                    assert(rest.take(before_slash(rest).len() as int)[i - 1] == rest[i - 1]);
                }
            }
        }
        if front.len() < value.len() {
            assert(rest[before_slash(rest).len() as int] == value[front.len() as int]);
        }
    } else {
        assert(front =~= value.take(0));
    }
}

/// The response to a range request, for one range or a list, is let through if and only if its
/// Content-Range header repeats the ranges of the request, with `bytes ` before them and then a
/// slash or nothing more. A response without that header, or with one that is not text, is let
/// through too.
pub proof fn response_must_repeat_the_ranges(
    range: RangeView,
    content_length: usize,
    content_range: Seq<u8>,
)
    ensures
        ({
            let sent = encode_utf8(range.header(content_length));
            let wanted = ascii("bytes "@ + range.header(content_length).skip(6));
            let n = wanted.len();
            &&& goes_with_range(sent, None)
            &&& (exists|i: int|
                0 <= i < content_range.len() && !(32 <= #[trigger] content_range[i] < 127
                    || content_range[i] == 9)) ==> goes_with_range(sent, Some(content_range))
            &&& (forall|i: int|
                0 <= i < content_range.len() ==> (32 <= #[trigger] content_range[i] < 127
                    || content_range[i] == 9)) ==> (goes_with_range(sent, Some(content_range)) <==> (
            content_range == wanted || n < content_range.len() && content_range.take(n as int)
                == wanted && content_range[n as int] == 47))
        }),
{
    let header = range.header(content_length);
    let rest = header.skip(6);
    header_is_unit_and_numbers(range, content_length);
    reveal_strlit("bytes=");
    reveal_strlit("bytes ");
    assert forall|i: int| 0 <= i < header.len() implies '!' <= #[trigger] header[i] <= '~' by {
        if i >= 6 {
            assert(header[i] == rest[i - 6]);
        }
    }
    assert(is_printable(header));
    printable_is_its_encoding(header);
    let sent = ascii(header);
    let wanted = ascii("bytes "@ + rest);
    lemma_ascii_concat("bytes="@, rest);
    lemma_ascii_concat("bytes "@, rest);
    assert(ascii("bytes="@) =~= request_unit());
    assert(ascii("bytes "@) =~= response_unit());
    assert(sent.take(6) =~= request_unit());
    assert(sent.skip(6) =~= ascii(rest));
    assert forall|i: int| 0 <= i < ascii(rest).len() implies #[trigger] ascii(rest)[i] != 98
        && ascii(rest)[i] != 47 by {
        let c = rest[i];
        assert('0' <= c <= '9' || c == '-' || c == ',');
    }
    lemma_without_unit(ascii(rest));
    assert(expected_range(sent) == wanted);
    assert forall|i: int| 0 <= i < wanted.len() implies #[trigger] wanted[i] != 47 by {
        if i >= 6 {
            assert(wanted[i] == ascii(rest)[i - 6]);
        } else {
            assert(wanted[i] == response_unit()[i]);
        }
    }
    before_slash_ends_at_the_first_slash(content_range);
    let found = before_slash(content_range);
    let n = wanted.len() as int;
    if content_range == wanted {
        if found.len() < n {
            assert(wanted[found.len() as int] != 47);
        }
        assert(found =~= wanted);
    } else if n < content_range.len() && content_range.take(n) == wanted && content_range[n] == 47 {
        if found.len() < n {
            assert(content_range.take(n)[found.len() as int] == content_range[found.len() as int]);
            assert(wanted[found.len() as int] != 47);
        }
        assert(found.len() == n);
        assert(found =~= wanted);
    } else if found == wanted {
        if found.len() == content_range.len() {
            assert(content_range.take(n) =~= content_range);
        }
    }
    if exists|i: int|
        0 <= i < content_range.len() && !(32 <= #[trigger] content_range[i] < 127
            || content_range[i] == 9) {
        let i = choose|i: int|
            0 <= i < content_range.len() && !(32 <= #[trigger] content_range[i] < 127
                || content_range[i] == 9);
        assert(!is_visible_byte(content_range[i]));
    }
}

/// A Content-Length header states a size if and only if it writes that number, and the number is
/// positive and a `usize` holds it. Without the header no size is stated.
pub proof fn length_is_the_number_written(value: Seq<u8>, length: nat)
    ensures
        stated_length(Some(value)) == Some(length) <==> written_number(value) == Some(length) && 0
            < length <= usize::MAX,
        stated_length(None) is None,
{
    if written_number(value) is Some {
        let digits = if value[0] == 43 {
            value.skip(1)
        } else {
            value
        };
        assert forall|i: int| 0 <= i < value.len() implies is_visible_byte(#[trigger] value[i]) by {
            if value[0] == 43 {
                if i > 0 {
                    assert(is_digit_byte(digits[i - 1]));
                }
            } else {
                assert(is_digit_byte(digits[i]));
            }
        }
    }
}

/// An error in words tells what is known of it: the status code, or the words that came with it.
pub proof fn errors_tell_what_is_known(words: Seq<char>, code: nat)
    ensures
        TransportErrorView::RequestError(words).text() == "Request error: "@ + words,
        TransportErrorView::UnexpectedStatus(code).text() == "Unexpected status code: "@ + decimal(
            code,
        ),
        TransportErrorView::BodyReadError(words).text() == "Body read error: "@ + words,
        TransportErrorView::InvalidContentLength.text() == "Invalid Content-Length header"@,
        TransportErrorView::InvalidContentRange.text() == "Invalid Content-Range header"@,
{
}

/// Errors stand for what they hold.
pub proof fn errors_stand_for_what_they_hold(words: String, code: u16)
    ensures
        TransportError::RequestError(words)@ == TransportErrorView::RequestError(words@),
        TransportError::UnexpectedStatus(code)@ == TransportErrorView::UnexpectedStatus(
            code as nat,
        ),
        TransportError::BodyReadError(words)@ == TransportErrorView::BodyReadError(words@),
        TransportError::InvalidContentLength@ == TransportErrorView::InvalidContentLength,
        TransportError::InvalidContentRange@ == TransportErrorView::InvalidContentRange,
{
}

} // verus!
