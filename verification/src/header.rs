//! HTTP header values, as the `http` crate holds them.
use http::header::{
    HeaderMap, HeaderName, HeaderValue, InvalidHeaderValue, MaxSizeReached, ToStrError,
};
use vstd::prelude::*;
#[allow(unused_imports)]
use vstd::string::StringSliceAdditionalSpecFns;

verus! {

/// A header value of the `http` crate.
#[verifier::external_type_specification]
#[verifier::external_body]
pub struct ExHeaderValue(HeaderValue);

/// Why the `http` crate refused to make a header value.
#[verifier::external_type_specification]
#[verifier::external_body]
pub struct ExInvalidHeaderValue(InvalidHeaderValue);

/// Why the `http` crate refused to show a header value as text.
#[verifier::external_type_specification]
#[verifier::external_body]
pub struct ExToStrError(ToStrError);

/// A header name of the `http` crate.
#[verifier::external_type_specification]
#[verifier::external_body]
pub struct ExHeaderName(HeaderName);

/// The headers of a message, as the `http` crate holds them.
#[verifier::external_type_specification]
#[verifier::external_body]
#[verifier::reject_recursive_types(T)]
pub struct ExHeaderMap<T>(HeaderMap<T>);

/// Why the `http` crate refused to add a header.
#[verifier::external_type_specification]
#[verifier::external_body]
pub struct ExMaxSizeReached(MaxSizeReached);

/// The text of a header name, in lower case.
pub uninterp spec fn header_name_text(name: HeaderName) -> Seq<char>;

/// The headers that a map holds: for each name, its values in order, each with its bytes and
/// whether it is marked as sensitive.
pub uninterp spec fn header_fields(headers: HeaderMap<HeaderValue>) -> Map<
    Seq<char>,
    Seq<(Seq<u8>, bool)>,
>;

/// The bytes that a header value holds.
pub uninterp spec fn header_bytes(value: HeaderValue) -> Seq<u8>;

/// Whether a header value is marked as one to be kept out of logs and caches.
pub uninterp spec fn header_is_sensitive(value: HeaderValue) -> bool;

/// Whether `b` is visible ASCII, a space or a tab.
pub open spec fn is_visible_byte(b: u8) -> bool {
    32 <= b < 127 || b == 9
}

/// Whether a header value can be shown as text.
pub open spec fn is_visible(bytes: Seq<u8>) -> bool {
    forall|i: int| 0 <= i < bytes.len() ==> is_visible_byte(#[trigger] bytes[i])
}

/// Whether `b` may stand in a header value: anything but a control character, tabs excepted.
pub open spec fn is_header_byte(b: u8) -> bool {
    32 <= b && b != 127 || b == 9
}

/// Whether `bytes` can be a header value.
pub open spec fn is_header_text(bytes: Seq<u8>) -> bool {
    forall|i: int| 0 <= i < bytes.len() ==> is_header_byte(#[trigger] bytes[i])
}

/// `HeaderValue::to_str` shows the bytes of a header value as text if they are all visible
/// ASCII, spaces or tabs, and refuses otherwise.
pub assume_specification[ HeaderValue::to_str ](value: &HeaderValue) -> (text: Result<
    &str,
    ToStrError,
>)
    ensures
        text is Ok <==> is_visible(header_bytes(*value)),
        text matches Ok(s) ==> s.spec_bytes() == header_bytes(*value),
;

/// `HeaderValue::from_str` makes a header value of the UTF-8 bytes of the text, not marked as
/// sensitive, and refuses text with a control character other than the tab.
pub assume_specification[ HeaderValue::from_str ](text: &str) -> (value: Result<
    HeaderValue,
    InvalidHeaderValue,
>)
    ensures
        value is Ok <==> is_header_text(text.spec_bytes()),
        value matches Ok(v) ==> header_bytes(v) == text.spec_bytes() && !header_is_sensitive(v),
;

/// `HeaderValue::set_sensitive` sets or clears the mark and leaves the bytes alone.
pub assume_specification[ HeaderValue::set_sensitive ](value: &mut HeaderValue, sensitive: bool)
    ensures
        header_bytes(*final(value)) == header_bytes(*old(value)),
        header_is_sensitive(*final(value)) == sensitive,
;

/// The name of the Authorization header, `http::header::AUTHORIZATION`.
#[verifier::external_body]
pub(crate) fn authorization_name() -> (name: HeaderName)
    ensures
        header_name_text(name) == "authorization"@,
{
    http::header::AUTHORIZATION
}

/// The name of the Content-Length header, `http::header::CONTENT_LENGTH`.
#[verifier::external_body]
pub(crate) fn content_length_name() -> (name: HeaderName)
    ensures
        header_name_text(name) == "content-length"@,
{
    http::header::CONTENT_LENGTH
}

/// The name of the Content-Range header, `http::header::CONTENT_RANGE`.
#[verifier::external_body]
pub(crate) fn content_range_name() -> (name: HeaderName)
    ensures
        header_name_text(name) == "content-range"@,
{
    http::header::CONTENT_RANGE
}

/// The bytes of the first value that a header has, if it is there.
pub open spec fn first_value(
    fields: Map<Seq<char>, Seq<(Seq<u8>, bool)>>,
    name: Seq<char>,
) -> Option<Seq<u8>> {
    if fields.dom().contains(name) {
        Some(fields[name][0].0)
    } else {
        None
    }
}

/// Looks a header up with `HeaderMap::get`, which finds its first value. A header that is there
/// has a value.
#[verifier::external_body]
pub(crate) fn header_value(headers: &HeaderMap<HeaderValue>, name: HeaderName) -> (value: Option<
    HeaderValue,
>)
    ensures
        match value {
            Some(v) => {
                &&& header_fields(*headers).dom().contains(header_name_text(name))
                &&& header_fields(*headers)[header_name_text(name)].len() > 0
                &&& header_fields(*headers)[header_name_text(name)][0] == (
                    header_bytes(v),
                    header_is_sensitive(v),
                )
            },
            None => !header_fields(*headers).dom().contains(header_name_text(name)),
        },
{
    headers.get(name).cloned()
}

/// Whether a map with these headers is sure to take one more. A map has at most 32768 slots, and
/// looks for more of them no sooner than its names fill a fifth of those it has.
pub open spec fn takes_another(fields: Map<Seq<char>, Seq<(Seq<u8>, bool)>>) -> bool {
    fields.dom().len() <= 6553
}

/// Gives a header a value with `HeaderMap::try_insert`. All values that the header had before are
/// gone, and the other headers stay. A map that has no room for more names may refuse, and then
/// keeps its headers; how many names it has room for depends on how it came to hold them, and is
/// not stated beyond [`takes_another`].
#[verifier::external_body]
pub(crate) fn set_header(
    headers: &mut HeaderMap<HeaderValue>,
    name: HeaderName,
    value: HeaderValue,
) -> (done: Result<(), MaxSizeReached>)
    ensures
        takes_another(header_fields(*old(headers))) ==> done is Ok,
        header_fields(*final(headers)) == match done {
            Ok(_) => header_fields(*old(headers)).insert(
                header_name_text(name),
                seq![(header_bytes(value), header_is_sensitive(value))],
            ),
            Err(_) => header_fields(*old(headers)),
        },
{
    headers.try_insert(name, value)?;
    Ok(())
}

/// Of the values of a header the first counts, whole, and of a header that is not there none does.
pub proof fn first_value_is_found(
    fields: Map<Seq<char>, Seq<(Seq<u8>, bool)>>,
    name: Seq<char>,
    value: (Seq<u8>, bool),
    others: Seq<(Seq<u8>, bool)>,
)
    ensures
        first_value(fields.insert(name, seq![value] + others), name) == Some(value.0),
        first_value(fields.remove(name), name) is None,
        forall|other: Seq<char>|
            other != name ==> #[trigger] first_value(
                fields.insert(name, seq![value] + others),
                other,
            ) == first_value(fields, other),
{
}

} // verus!
