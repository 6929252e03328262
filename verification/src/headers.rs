//! The headers that the proxy completes: the media types that a request accepts, and the protocol
//! headers of a response.

use crate::text::{begins_with, contains, has_text, joined, occurs_at};
use axum::http::header::{InvalidHeaderValue, ToStrError};
use axum::http::{HeaderMap, HeaderValue};
use vstd::prelude::*;
use vstd::utf8::*;

verus! {

#[verifier::external_type_specification]
#[verifier::external_body]
#[verifier::reject_recursive_types(T)]
pub struct ExHeaderMap<T>(HeaderMap<T>);

#[verifier::external_type_specification]
#[verifier::external_body]
pub struct ExHeaderValue(HeaderValue);

#[verifier::external_type_specification]
#[verifier::external_body]
pub struct ExToStrError(ToStrError);

#[verifier::external_type_specification]
#[verifier::external_body]
pub struct ExInvalidHeaderValue(InvalidHeaderValue);

/// What a header map holds: for each name, in lower case, the bytes of its values in their order.
pub uninterp spec fn header_values(headers: HeaderMap<HeaderValue>) -> Map<
    Seq<char>,
    Seq<Seq<u8>>,
>;

/// The bytes of a header value.
pub uninterp spec fn header_bytes(value: HeaderValue) -> Seq<u8>;

/// The bytes that a header value can show as text: visible ASCII, space and tab.
pub open spec fn visible_byte(b: u8) -> bool {
    32 <= b < 127 || b == 9
}

/// The bytes that a header value can hold.
pub open spec fn valid_byte(b: u8) -> bool {
    (32 <= b && b != 127) || b == 9
}

/// Whether a header value can show all its bytes as text.
pub open spec fn visible_bytes(bytes: Seq<u8>) -> bool {
    forall|i: int| 0 <= i < bytes.len() ==> visible_byte(#[trigger] bytes[i])
}

/// Whether these bytes can be a header value.
pub open spec fn valid_bytes(bytes: Seq<u8>) -> bool {
    forall|i: int| 0 <= i < bytes.len() ==> valid_byte(#[trigger] bytes[i])
}

/// Bytes of ASCII as text.
pub open spec fn ascii_text(bytes: Seq<u8>) -> Seq<char> {
    Seq::new(bytes.len(), |i: int| bytes[i] as char)
}

/// Names of at most 64 lower-case letters and hyphens, which stand in a header map as they are.
pub open spec fn lower_name(name: Seq<char>) -> bool {
    &&& 1 <= name.len() <= 64
    &&& forall|i: int|
        0 <= i < name.len() ==> ('a' <= #[trigger] name[i] <= 'z' || name[i] == '-')
}

/// The number of names from which on inserting into a header map can fail.
pub const MAX_NAMES: usize = 6554;

/// Whether `extra` more names can be inserted without fail.
pub open spec fn has_room(values: Map<Seq<char>, Seq<Seq<u8>>>, extra: nat) -> bool {
    values.dom().finite() && values.dom().len() + extra <= MAX_NAMES
}

/// `HeaderValue::to_str`: the value as text, if it has visible ASCII, space and tab only, and an
/// error otherwise.
pub assume_specification[ HeaderValue::to_str ](value: &HeaderValue) -> (r: Result<
    &str,
    ToStrError,
>)
    ensures
        match r {
            Ok(s) => visible_bytes(header_bytes(*value)) && s@ == ascii_text(header_bytes(*value)),
            Err(_) => !visible_bytes(header_bytes(*value)),
        },
;

/// `HeaderValue::from_str`: the value with the UTF-8 bytes of the text, if each of them may stand
/// in a header value, and an error otherwise.
pub assume_specification[ HeaderValue::from_str ](src: &str) -> (r: Result<
    HeaderValue,
    InvalidHeaderValue,
>)
    ensures
        match r {
            Ok(value) => valid_bytes(encode_utf8(src@)) && header_bytes(value) == encode_utf8(src@),
            Err(_) => !valid_bytes(encode_utf8(src@)),
        },
;

/// `HeaderValue::from_static`: the value with the bytes of the text. It panics on text that is not
/// visible ASCII, which the precondition leaves out.
pub assume_specification[ HeaderValue::from_static ](src: &'static str) -> (r: HeaderValue)
    requires
        visible_bytes(encode_utf8(src@)),
    ensures
        header_bytes(r) == encode_utf8(src@),
;

/// `HeaderMap::get`: the first value under the name, if there is one.
#[verifier::external_body]
fn header_get<'a>(headers: &'a HeaderMap<HeaderValue>, name: &'static str) -> (r: Option<
    &'a HeaderValue,
>)
    requires
        lower_name(name@),
    ensures
        match r {
            Some(value) => {
                &&& header_values(*headers).contains_key(name@)
                &&& header_values(*headers)[name@].len() > 0
                &&& header_values(*headers)[name@][0] == header_bytes(*value)
            },
            None => !header_values(*headers).contains_key(name@),
        },
{
    headers.get(name)
}

/// `HeaderMap::try_insert`: the value becomes the only one under the name, and the other names keep
/// their values. Where the map cannot grow any more the call is refused and the map keeps its
/// values. That does not happen below `MAX_NAMES` names; beyond, it depends on how the names hash.
#[verifier::external_body]
fn header_insert(headers: &mut HeaderMap<HeaderValue>, name: &'static str, value: HeaderValue) -> (r:
    bool)
    requires
        lower_name(name@),
    ensures
        r ==> header_values(*final(headers)) == header_values(*old(headers)).insert(
            name@,
            seq![header_bytes(value)],
        ),
        !r ==> header_values(*final(headers)) == header_values(*old(headers)),
        has_room(header_values(*old(headers)), 1) ==> r,
{
    headers.try_insert(name, value).is_ok()
}

/// The media type of a plain response.
pub open spec fn json_type() -> Seq<char> {
    "application/json"@
}

/// The media type of a stream of events.
pub open spec fn event_stream_type() -> Seq<char> {
    "text/event-stream"@
}

/// What the `Accept` header of a request is replaced with, if it is: a request has to accept both
/// media types. `None` stands for a header that is missing or is not text, and for no change.
pub open spec fn negotiated(accept: Option<Seq<char>>) -> Option<Seq<char>> {
    match accept {
        None => Some("application/json, text/event-stream"@),
        Some(accept) => if !has_text(accept, json_type()) && !has_text(
            accept,
            event_stream_type(),
        ) {
            Some("application/json, text/event-stream"@)
        } else if !has_text(accept, json_type()) {
            Some(accept + ", application/json"@)
        } else if !has_text(accept, event_stream_type()) {
            Some(accept + ", text/event-stream"@)
        } else {
            None
        },
    }
}

/// Decides how the `Accept` header of a request changes.
pub fn negotiate_accept(current: Option<&str>) -> (r: Option<String>)
    ensures
        match r {
            Some(text) => negotiated(
                match current {
                    Some(accept) => Some(accept@),
                    None => None,
                },
            ) == Some(text@),
            None => negotiated(
                match current {
                    Some(accept) => Some(accept@),
                    None => None,
                },
            ) is None,
        },
{
    match current {
        None => Some("application/json, text/event-stream".to_owned()),
        Some(accept) => {
            let json = contains(accept, "application/json");
            let events = contains(accept, "text/event-stream");
            if !json && !events {
                Some("application/json, text/event-stream".to_owned())
            } else if !json {
                Some(joined(accept, ", application/json"))
            } else if !events {
                Some(joined(accept, ", text/event-stream"))
            } else {
                None
            }
        },
    }
}

/// The first `Accept` header as text, if there is one and it is text.
pub open spec fn accept_text(values: Map<Seq<char>, Seq<Seq<u8>>>) -> Option<Seq<char>> {
    if values.contains_key("accept"@) && visible_bytes(values["accept"@][0]) {
        Some(ascii_text(values["accept"@][0]))
    } else {
        None
    }
}

/// The headers of a request after its `Accept` header was completed.
pub open spec fn with_accept(values: Map<Seq<char>, Seq<Seq<u8>>>) -> Map<
    Seq<char>,
    Seq<Seq<u8>>,
> {
    match negotiated(accept_text(values)) {
        Some(text) => values.insert("accept"@, seq![encode_utf8(text)]),
        None => values,
    }
}

/// Whether a text is visible ASCII, space and tab only.
pub open spec fn visible_text(s: Seq<char>) -> bool {
    forall|i: int| 0 <= i < s.len() ==> ('\u{20}' <= #[trigger] s[i] < '\u{7f}' || s[i] == '\t')
}

/// Visible text is one byte for one character.
proof fn lemma_visible_text(s: Seq<char>)
    requires
        visible_text(s),
    ensures
        visible_bytes(encode_utf8(s)),
        valid_bytes(encode_utf8(s)),
        ascii_text(encode_utf8(s)) == s,
{
    assert(is_ascii_chars(s)) by {
        assert forall|i: int| 0 <= i < s.len() implies 0 <= #[trigger] s[i] as nat <= 127 by {}
    }
    is_ascii_chars_encode_utf8(s);
    assert(encode_utf8(s) =~= Seq::new(s.len(), |i: int| s[i] as u8));
    assert(ascii_text(encode_utf8(s)) =~= s);
}

/// Inserting a name leaves room for one name less.
proof fn lemma_room_after_insert(
    values: Map<Seq<char>, Seq<Seq<u8>>>,
    name: Seq<char>,
    value: Seq<Seq<u8>>,
    extra: nat,
)
    requires
        has_room(values, extra + 1),
    ensures
        has_room(values.insert(name, value), extra),
{
    assert(values.insert(name, value).dom() == values.dom().insert(name));
}

proof fn lemma_accept_literals()
    ensures
        lower_name("accept"@),
        visible_text("application/json, text/event-stream"@),
        visible_text(", application/json"@),
        visible_text(", text/event-stream"@),
{
    reveal_strlit("accept");
    reveal_strlit("application/json, text/event-stream");
    reveal_strlit(", application/json");
    reveal_strlit(", text/event-stream");
}

/// What is negotiated is visible text, when the header was.
proof fn lemma_negotiated_visible(accept: Option<Seq<char>>)
    requires
        accept matches Some(text) ==> visible_text(text),
    ensures
        negotiated(accept) matches Some(text) ==> visible_text(text),
{
    lemma_accept_literals();
}

/// Completes the `Accept` header of a request so that it names both media types that a server
/// may answer with. The other headers stay as they are. It returns `false`, and leaves all as it
/// was, where the request has so many headers that it cannot take the one that is missing.
pub fn complete_accept(headers: &mut HeaderMap<HeaderValue>) -> (r: bool)
    ensures
        r ==> header_values(*final(headers)) == with_accept(header_values(*old(headers))),
        !r ==> header_values(*final(headers)) == header_values(*old(headers)),
        negotiated(accept_text(header_values(*old(headers)))) is None ==> r,
        has_room(header_values(*old(headers)), 1) ==> r,
{
    proof {
        lemma_accept_literals();
    }
    let found = match header_get(headers, "accept") {
        Some(value) => match value.to_str() {
            Ok(text) => Some(text.to_owned()),
            Err(_) => None,
        },
        None => None,
    };
    let current: Option<&str> = match &found {
        Some(text) => Some(text.as_str()),
        None => None,
    };
    let ghost accept = accept_text(header_values(*headers));
    proof {
        lemma_negotiated_visible(accept);
    }
    match negotiate_accept(current) {
        Some(text) => {
            proof {
                lemma_visible_text(text@);
            }
            match HeaderValue::from_str(text.as_str()) {
                Ok(value) => header_insert(headers, "accept", value),
                Err(_) => false,
            }
        },
        None => true,
    }
}

/// The headers of a response with the version of the protocol.
pub open spec fn with_protocol_version(values: Map<Seq<char>, Seq<Seq<u8>>>) -> Map<
    Seq<char>,
    Seq<Seq<u8>>,
> {
    values.insert("mcp-protocol-version"@, seq![encode_utf8("2025-06-18"@)])
}

/// The headers of a response after the first `n` steps that make it a stream of events.
pub open spec fn with_stream_steps(values: Map<Seq<char>, Seq<Seq<u8>>>, n: nat) -> Map<
    Seq<char>,
    Seq<Seq<u8>>,
>
    decreases n,
{
    if n == 0 {
        values
    } else {
        let before = with_stream_steps(values, (n - 1) as nat);
        if n == 1 {
            with_protocol_version(before)
        } else if n == 2 {
            before.insert("content-type"@, seq![encode_utf8("text/event-stream"@)])
        } else if n == 3 {
            before.insert("cache-control"@, seq![encode_utf8("no-cache"@)])
        } else {
            before.insert("connection"@, seq![encode_utf8("keep-alive"@)])
        }
    }
}

/// The headers of a response that streams events.
pub open spec fn with_stream_headers(values: Map<Seq<char>, Seq<Seq<u8>>>) -> Map<
    Seq<char>,
    Seq<Seq<u8>>,
> {
    with_protocol_version(values).insert(
        "content-type"@,
        seq![encode_utf8("text/event-stream"@)],
    ).insert("cache-control"@, seq![encode_utf8("no-cache"@)]).insert(
        "connection"@,
        seq![encode_utf8("keep-alive"@)],
    )
}

/// Adds the version of the protocol to a response. It returns `false`, and leaves all as it was,
/// where the response has so many headers that it cannot take it.
pub fn add_protocol_version(headers: &mut HeaderMap<HeaderValue>) -> (r: bool)
    ensures
        r ==> header_values(*final(headers)) == with_protocol_version(
            header_values(*old(headers)),
        ),
        !r ==> header_values(*final(headers)) == header_values(*old(headers)),
        has_room(header_values(*old(headers)), 1) ==> r,
{
    proof {
        reveal_strlit("mcp-protocol-version");
        reveal_strlit("2025-06-18");
        lemma_visible_text("2025-06-18"@);
    }
    header_insert(headers, "mcp-protocol-version", HeaderValue::from_static("2025-06-18"))
}

proof fn lemma_stream_steps(values: Map<Seq<char>, Seq<Seq<u8>>>)
    ensures
        with_stream_steps(values, 4) == with_stream_headers(values),
        has_room(values, 4) ==> forall|n: nat|
            n <= 4 ==> has_room(#[trigger] with_stream_steps(values, n), (4 - n) as nat),
{
    reveal_with_fuel(with_stream_steps, 5);
    if has_room(values, 4) {
        let first = with_stream_steps(values, 1);
        let second = with_stream_steps(values, 2);
        let third = with_stream_steps(values, 3);
        lemma_room_after_insert(
            values,
            "mcp-protocol-version"@,
            seq![encode_utf8("2025-06-18"@)],
            3,
        );
        lemma_room_after_insert(
            first,
            "content-type"@,
            seq![encode_utf8("text/event-stream"@)],
            2,
        );
        lemma_room_after_insert(second, "cache-control"@, seq![encode_utf8("no-cache"@)], 1);
        lemma_room_after_insert(third, "connection"@, seq![encode_utf8("keep-alive"@)], 0);
        assert forall|n: nat| n <= 4 implies has_room(
            #[trigger] with_stream_steps(values, n),
            (4 - n) as nat,
        ) by {
            assert(n == 0 || n == 1 || n == 2 || n == 3 || n == 4);
        }
    }
}

/// Adds the headers of a response that streams events, one after the other. It returns `false`
/// where the response has so many headers that it cannot take one of them, and then adds no more.
pub fn add_stream_headers(headers: &mut HeaderMap<HeaderValue>) -> (r: bool)
    ensures
        r ==> header_values(*final(headers)) == with_stream_headers(header_values(*old(headers))),
        !r ==> exists|n: nat|
            n < 4 && header_values(*final(headers)) == #[trigger] with_stream_steps(
                header_values(*old(headers)),
                n,
            ),
        has_room(header_values(*old(headers)), 4) ==> r,
{
    let ghost before = header_values(*headers);
    proof {
        lemma_stream_steps(before);
        assert(with_stream_steps(before, 0) == before);
        assert(with_stream_steps(before, 1) == with_protocol_version(before));
        reveal_strlit("content-type");
        reveal_strlit("text/event-stream");
        lemma_visible_text("text/event-stream"@);
        reveal_strlit("cache-control");
        reveal_strlit("no-cache");
        lemma_visible_text("no-cache"@);
        reveal_strlit("connection");
        reveal_strlit("keep-alive");
        lemma_visible_text("keep-alive"@);
    }
    if !add_protocol_version(headers) {
        return false;
    }
    if !header_insert(headers, "content-type", HeaderValue::from_static("text/event-stream")) {
        return false;
    }
    assert(header_values(*headers) == with_stream_steps(before, 2));
    if !header_insert(headers, "cache-control", HeaderValue::from_static("no-cache")) {
        return false;
    }
    assert(header_values(*headers) == with_stream_steps(before, 3));
    if !header_insert(headers, "connection", HeaderValue::from_static("keep-alive")) {
        return false;
    }
    assert(header_values(*headers) == with_stream_steps(before, 4));
    true
}

/// A text that is the second part of another stands in it, and so does what stands in the first.
proof fn lemma_has_text_concat(a: Seq<char>, b: Seq<char>, pattern: Seq<char>)
    ensures
        has_text(a, pattern) ==> has_text(a + b, pattern),
        has_text(b, pattern) ==> has_text(a + b, pattern),
{
    if has_text(a, pattern) {
        let i = choose|i: int| occurs_at(a, pattern, i);
        assert((a + b).subrange(i, i + pattern.len()) =~= pattern);
        assert(occurs_at(a + b, pattern, i));
    }
    if has_text(b, pattern) {
        let i = choose|i: int| occurs_at(b, pattern, i);
        assert((a + b).subrange(a.len() + i, a.len() + i + pattern.len()) =~= b.subrange(
            i,
            i + pattern.len(),
        ));
        assert(occurs_at(a + b, pattern, a.len() + i));
    }
}

proof fn lemma_default_accept()
    ensures
        has_text("application/json, text/event-stream"@, json_type()),
        has_text("application/json, text/event-stream"@, event_stream_type()),
        has_text(", application/json"@, json_type()),
        has_text(", text/event-stream"@, event_stream_type()),
{
    reveal_strlit("application/json, text/event-stream");
    reveal_strlit("application/json");
    reveal_strlit("text/event-stream");
    reveal_strlit(", application/json");
    reveal_strlit(", text/event-stream");
    let both = "application/json, text/event-stream"@;
    assert(both.subrange(0, 16) =~= json_type());
    assert(occurs_at(both, json_type(), 0));
    assert(both.subrange(18, 35) =~= event_stream_type());
    assert(occurs_at(both, event_stream_type(), 18));
    assert(", application/json"@.subrange(2, 18) =~= json_type());
    assert(occurs_at(", application/json"@, json_type(), 2));
    assert(", text/event-stream"@.subrange(2, 19) =~= event_stream_type());
    assert(occurs_at(", text/event-stream"@, event_stream_type(), 2));
}

/// Whatever a request said it accepts, and even if it said nothing or nothing readable, it passes
/// on with an `Accept` header that names both media types.
pub proof fn law_accept_names_both_types(values: Map<Seq<char>, Seq<Seq<u8>>>)
    ensures
        accept_text(with_accept(values)) matches Some(text) && has_text(text, json_type())
            && has_text(text, event_stream_type()),
{
    let accept = accept_text(values);
    lemma_negotiated_visible(accept);
    lemma_default_accept();
    if let Some(text) = negotiated(accept) {
        lemma_visible_text(text);
    }
    if let Some(old_text) = accept {
        lemma_has_text_concat(old_text, ", application/json"@, json_type());
        lemma_has_text_concat(old_text, ", application/json"@, event_stream_type());
        lemma_has_text_concat(old_text, ", text/event-stream"@, json_type());
        lemma_has_text_concat(old_text, ", text/event-stream"@, event_stream_type());
    }
}

/// Completing the `Accept` header a second time changes nothing.
pub proof fn law_accept_is_completed_once(values: Map<Seq<char>, Seq<Seq<u8>>>)
    ensures
        with_accept(with_accept(values)) == with_accept(values),
{
    law_accept_names_both_types(values);
}

/// What a request said it accepts stays in front of what is added, unless it named neither type.
pub proof fn law_accept_keeps_what_was_said(values: Map<Seq<char>, Seq<Seq<u8>>>)
    requires
        accept_text(values) matches Some(text) && (has_text(text, json_type()) || has_text(
            text,
            event_stream_type(),
        )),
    ensures
        begins_with(
            accept_text(with_accept(values)).unwrap(),
            accept_text(values).unwrap(),
        ),
{
    let said = accept_text(values).unwrap();
    lemma_negotiated_visible(Some(said));
    if let Some(text) = negotiated(Some(said)) {
        lemma_visible_text(text);
    }
    let now = accept_text(with_accept(values)).unwrap();
    assert(now.subrange(0, said.len() as int) =~= said);
}

/// Completing the `Accept` header touches no other header.
pub proof fn law_accept_alone_changes(values: Map<Seq<char>, Seq<Seq<u8>>>, name: Seq<char>)
    requires
        name != "accept"@,
    ensures
        with_accept(values).contains_key(name) == values.contains_key(name),
        values.contains_key(name) ==> with_accept(values)[name] == values[name],
{
}

proof fn lemma_response_names()
    ensures
        "mcp-protocol-version"@ != "content-type"@,
        "mcp-protocol-version"@ != "cache-control"@,
        "mcp-protocol-version"@ != "connection"@,
        "content-type"@ != "cache-control"@,
        "content-type"@ != "connection"@,
        "cache-control"@ != "connection"@,
{
    reveal_strlit("mcp-protocol-version");
    reveal_strlit("content-type");
    reveal_strlit("cache-control");
    reveal_strlit("connection");
    assert("mcp-protocol-version"@.len() == 20);
    assert("content-type"@.len() == 12);
    assert("cache-control"@.len() == 13);
    assert("connection"@.len() == 10);
}

/// Every response that was completed names the version of the protocol, and no other, once.
pub proof fn law_responses_name_the_version(values: Map<Seq<char>, Seq<Seq<u8>>>)
    ensures
        with_protocol_version(values)["mcp-protocol-version"@] == seq![encode_utf8("2025-06-18"@)],
        with_stream_headers(values)["mcp-protocol-version"@] == seq![encode_utf8("2025-06-18"@)],
{
    lemma_response_names();
}

/// A stream of events that is answered says what it is, that it is not to be stored, and that the
/// connection stays open, and naming the version once more changes nothing.
pub proof fn law_streams_are_labelled(values: Map<Seq<char>, Seq<Seq<u8>>>)
    ensures
        with_stream_headers(values)["content-type"@] == seq![encode_utf8(event_stream_type())],
        with_stream_headers(values)["cache-control"@] == seq![encode_utf8("no-cache"@)],
        with_stream_headers(values)["connection"@] == seq![encode_utf8("keep-alive"@)],
        with_protocol_version(with_stream_headers(values)) == with_stream_headers(values),
{
    lemma_response_names();
    assert(with_protocol_version(with_stream_headers(values)) =~= with_stream_headers(values));
}

/// A header that names both media types stays. To one that names a single type the other is added
/// behind a comma, and nothing else. In place of one that names neither, or of none, both stand.
pub proof fn law_negotiated(accept: Seq<char>)
    ensures
        negotiated(Some(accept)) is None <==> has_text(accept, "application/json"@) && has_text(
            accept,
            "text/event-stream"@,
        ),
        negotiated(Some(accept)) matches Some(text) ==> {
            let json = has_text(accept, "application/json"@);
            let events = has_text(accept, "text/event-stream"@);
            &&& json ==> text == accept + ", "@ + "text/event-stream"@
            &&& events ==> text == accept + ", "@ + "application/json"@
            &&& !json && !events ==> text == "application/json"@ + ", "@ + "text/event-stream"@
        },
        negotiated(None) == Some("application/json"@ + ", "@ + "text/event-stream"@),
{
    reveal_strlit("application/json");
    reveal_strlit("text/event-stream");
    reveal_strlit(", ");
    reveal_strlit(", application/json");
    reveal_strlit(", text/event-stream");
    reveal_strlit("application/json, text/event-stream");
    assert(", "@ + "application/json"@ =~= ", application/json"@);
    assert(", "@ + "text/event-stream"@ =~= ", text/event-stream"@);
    assert("application/json"@ + ", "@ + "text/event-stream"@
        =~= "application/json, text/event-stream"@);
    assert(accept + ", "@ + "application/json"@ =~= accept + ", application/json"@);
    assert(accept + ", "@ + "text/event-stream"@ =~= accept + ", text/event-stream"@);
}

/// What a request accepts is read from the bytes of its first `Accept` header, all of them,
/// wherever each of them is a visible character, a space or a tab, and from nothing else.
pub proof fn law_accept_is_read(values: Map<Seq<char>, Seq<Seq<u8>>>)
    ensures
        accept_text(values) is Some <==> values.dom().contains("accept"@) && (forall|i: int|
            0 <= i < values["accept"@][0].len() ==> (32 <= #[trigger] values["accept"@][0][i] <= 126
                || values["accept"@][0][i] == 9)),
        accept_text(values) matches Some(text) ==> encode_utf8(text) == values["accept"@][0],
{
    let bytes = values["accept"@][0];
    if visible_bytes(bytes) {
        assert forall|i: int| 0 <= i < bytes.len() implies (32 <= #[trigger] bytes[i] <= 126
            || bytes[i] == 9) by {
            assert(visible_byte(bytes[i]));
        }
    }
    if accept_text(values) is Some {
        let text = ascii_text(bytes);
        assert forall|i: int| 0 <= i < text.len() implies (('\u{20}' <= #[trigger] text[i] < '\u{7f}'
            || text[i] == '\t') && text[i] as u8 == bytes[i]) by {
            assert(visible_byte(bytes[i]));
        }
        lemma_visible_text(text);
        assert(is_ascii_chars(text));
        is_ascii_chars_encode_utf8(text);
        assert(encode_utf8(text) =~= bytes);
    }
}

/// The headers of a request that accepts both media types stay as they are. Otherwise the `Accept`
/// headers, however many there were, become the single one that was negotiated.
pub proof fn law_accept_is_replaced(values: Map<Seq<char>, Seq<Seq<u8>>>)
    ensures
        negotiated(accept_text(values)) is None ==> with_accept(values) == values,
        negotiated(accept_text(values)) matches Some(text) ==> {
            &&& with_accept(values).dom() == values.dom().insert("accept"@)
            &&& with_accept(values)["accept"@] == seq![encode_utf8(text)]
            &&& forall|name: Seq<char>|
                name != "accept"@ && values.dom().contains(name) ==> #[trigger] with_accept(
                    values,
                )[name] == values[name]
        },
{
}

/// The four headers of a stream are set one after the other, each to its value, and no other
/// header changes.
pub proof fn law_stream_headers_in_turn(
    values: Map<Seq<char>, Seq<Seq<u8>>>,
    n: nat,
    name: Seq<char>,
)
    requires
        n <= 4,
    ensures
        ({
            let now = with_stream_steps(values, n);
            let (touched, value) = if name == "mcp-protocol-version"@ {
                (n > 0, "2025-06-18"@)
            } else if name == "content-type"@ {
                (n > 1, "text/event-stream"@)
            } else if name == "cache-control"@ {
                (n > 2, "no-cache"@)
            } else if name == "connection"@ {
                (n > 3, "keep-alive"@)
            } else {
                (false, ""@)
            };
            &&& touched ==> now.contains_pair(name, seq![encode_utf8(value)])
            &&& !touched ==> (now.dom().contains(name) <==> values.dom().contains(name))
            &&& !touched && values.dom().contains(name) ==> now[name] == values[name]
        }),
        with_stream_headers(values) == with_stream_steps(values, 4),
{
    lemma_response_names();
    lemma_stream_steps(values);
    reveal_with_fuel(with_stream_steps, 5);
    assert(n == 0 || n == 1 || n == 2 || n == 3 || n == 4);
}

/// Adding the version of the protocol changes no other header.
pub proof fn law_version_alone_changes(values: Map<Seq<char>, Seq<Seq<u8>>>, name: Seq<char>)
    ensures
        with_protocol_version(values).dom() == values.dom().insert("mcp-protocol-version"@),
        name != "mcp-protocol-version"@ && values.dom().contains(name) ==> with_protocol_version(
            values,
        )[name] == values[name],
{
}

/// There is room for some names exactly where there are at most 6554 with them.
pub proof fn law_room(values: Map<Seq<char>, Seq<Seq<u8>>>, extra: nat)
    ensures
        has_room(values, extra) <==> values.dom().finite() && values.dom().len() + extra <= 6554,
{
}

} // verus!
