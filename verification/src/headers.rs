//! The headers of a forwarded request, held in the header map of `hyper`.
use crate::text::{lowered, text_view, to_lower};
use hyper::header::{HeaderMap, HeaderName, HeaderValue};
use vstd::prelude::*;
use vstd::utf8::{encode_utf8, is_ascii_chars_encode_utf8};

verus! {

/// The number of headers up to which a header map takes any further one. A map
/// that held more could refuse one once its table is at its largest.
pub const HEADER_LIMIT: usize = 6553;

/// A header as it arrives: its name and the bytes of its value.
#[derive(Debug)]
pub struct Header {
    pub name: String,
    pub value: Vec<u8>,
}

/// What a `Header` holds.
#[verifier::ext_equal]
pub struct HeaderView {
    pub name: Seq<char>,
    pub value: Seq<u8>,
}

impl Header {
    pub open spec fn view(&self) -> HeaderView {
        HeaderView { name: self.name@, value: self.value@ }
    }
}

/// What a list of headers holds.
pub open spec fn headers_view(headers: Seq<Header>) -> Seq<HeaderView> {
    headers.map_values(|header: Header| header@)
}

// ---------------------------------------------------------------------------
// What `hyper` does.
// ---------------------------------------------------------------------------

/// The header map of `hyper`.
#[verifier::external_type_specification]
#[verifier::external_body]
#[verifier::reject_recursive_types(T)]
pub struct ExHeaderMap<T>(hyper::header::HeaderMap<T>);

/// The header name of `hyper`.
#[verifier::external_type_specification]
#[verifier::external_body]
pub struct ExHeaderName(hyper::header::HeaderName);

/// The header value of `hyper`.
#[verifier::external_type_specification]
#[verifier::external_body]
pub struct ExHeaderValue(hyper::header::HeaderValue);

/// What a header map holds: under each name its values.
pub uninterp spec fn header_entries(map: HeaderMap<HeaderValue>) -> Map<Seq<char>, Seq<Seq<u8>>>;

/// The text of a header name.
pub uninterp spec fn header_name_text(name: HeaderName) -> Seq<char>;

/// The bytes of a header value.
pub uninterp spec fn header_value_bytes(value: HeaderValue) -> Seq<u8>;

/// The characters that header names and methods are made of.
pub open spec fn token_char(c: char) -> bool {
    ||| 'a' <= c && c <= 'z'
    ||| 'A' <= c && c <= 'Z'
    ||| '0' <= c && c <= '9'
    ||| c == '!' || c == '#' || c == '$' || c == '%' || c == '&' || c == '\'' || c == '*'
    ||| c == '+' || c == '-' || c == '.' || c == '^' || c == '_' || c == '`' || c == '|' || c == '~'
}

/// A text that is made of such characters, at least one.
pub open spec fn token(text: Seq<char>) -> bool {
    text.len() > 0 && forall|i: int| 0 <= i < text.len() ==> token_char(#[trigger] text[i])
}

/// A text that can be a header name.
pub open spec fn valid_name(name: Seq<char>) -> bool {
    token(name) && name.len() <= 65535
}

/// A byte that can stand in a header value.
pub open spec fn value_byte(b: u8) -> bool {
    (b >= 32 && b != 127) || b == 9
}

/// Bytes that can be a header value.
pub open spec fn valid_value(bytes: Seq<u8>) -> bool {
    forall|i: int| 0 <= i < bytes.len() ==> value_byte(#[trigger] bytes[i])
}

/// A byte that stands for a visible ASCII character, a space or a tab.
pub open spec fn visible_byte(b: u8) -> bool {
    (b >= 32 && b < 127) || b == 9
}

/// Bytes that stand for visible ASCII text.
pub open spec fn visible(bytes: Seq<u8>) -> bool {
    forall|i: int| 0 <= i < bytes.len() ==> visible_byte(#[trigger] bytes[i])
}

/// The text that ASCII bytes stand for.
pub open spec fn ascii_text(bytes: Seq<u8>) -> Seq<char> {
    bytes.map_values(|b: u8| b as char)
}

/// The contents of a map without headers.
pub open spec fn no_headers() -> Map<Seq<char>, Seq<Seq<u8>>> {
    Map::empty()
}

/// `HeaderMap::new`: a map without headers.
#[verifier::external_body]
fn new_map() -> (fresh: HeaderMap<HeaderValue>)
    ensures
        header_entries(fresh) == no_headers(),
{
    HeaderMap::new()
}

/// `HeaderName::from_bytes` on the bytes of a text: a name, in lower case, is
/// made of each text of at most 65535 token characters, at least one.
#[verifier::external_body]
fn make_name(text: &str) -> (name: Option<HeaderName>)
    ensures
        name is Some <==> valid_name(text@),
        name matches Some(n) ==> header_name_text(n) == lowered(text@),
{
    HeaderName::from_bytes(text.as_bytes()).ok()
}

/// `HeaderValue::from_bytes`: a value is made of any bytes but control
/// characters, among which a tab is let through.
#[verifier::external_body]
fn make_value(bytes: &[u8]) -> (value: Option<HeaderValue>)
    ensures
        value is Some <==> valid_value(bytes@),
        value matches Some(v) ==> header_value_bytes(v) == bytes@,
{
    HeaderValue::from_bytes(bytes).ok()
}

/// `HeaderValue::from_str`: as `HeaderValue::from_bytes` on the UTF-8 bytes of
/// the text.
#[verifier::external_body]
fn make_text_value(text: &str) -> (value: Option<HeaderValue>)
    ensures
        value is Some <==> valid_value(encode_utf8(text@)),
        value matches Some(v) ==> header_value_bytes(v) == encode_utf8(text@),
{
    HeaderValue::from_str(text).ok()
}

/// `HeaderValue::to_str`: the text of a value that is visible ASCII.
#[verifier::external_body]
fn value_str(value: &HeaderValue) -> (text: Option<&str>)
    ensures
        text is Some <==> visible(header_value_bytes(*value)),
        text matches Some(t) ==> t@ == ascii_text(header_value_bytes(*value)),
{
    value.to_str().ok()
}

/// `HeaderMap::insert`: the value takes the place of all values that the name
/// had. A map that holds fewer headers than the limit never refuses one.
#[verifier::external_body]
fn insert_header(map: &mut HeaderMap<HeaderValue>, name: HeaderName, value: HeaderValue)
    requires
        header_entries(*old(map)).dom().finite(),
        header_entries(*old(map)).dom().len() <= HEADER_LIMIT,
    ensures
        header_entries(*final(map)) == header_entries(*old(map)).insert(
            header_name_text(name),
            seq![header_value_bytes(value)],
        ),
{
    let _ = map.insert(name, value);
}

/// `Method::from_bytes` on the bytes of a text: any text of token characters,
/// at least one, is a method.
#[verifier::external_body]
fn method_parses(text: &str) -> (valid: bool)
    ensures
        valid == token(text@),
{
    hyper::Method::from_bytes(text.as_bytes()).is_ok()
}

// ---------------------------------------------------------------------------
// The headers of a forwarded request.
// ---------------------------------------------------------------------------

/// The method that a request is forwarded with.
pub fn forward_method(method: &str) -> (forwarded: String)
    ensures
        forwarded@ == (if token(method@) {
            method@
        } else {
            "GET"@
        }),
{
    if method_parses(method) {
        method.to_owned()
    } else {
        "GET".to_owned()
    }
}

/// The text of a header value, where it is visible ASCII.
pub fn header_text(bytes: &[u8]) -> (text: Option<String>)
    ensures
        text_view(text) == (if visible(bytes@) {
            Some(ascii_text(bytes@))
        } else {
            None
        }),
{
    match make_value(bytes) {
        Some(value) => match value_str(&value) {
            Some(text) => Some(text.to_owned()),
            None => None,
        },
        None => {
            proof {
                if visible(bytes@) {
                    assert forall|i: int| 0 <= i < bytes@.len() implies value_byte(
                        #[trigger] bytes@[i],
                    ) by {
                        assert(visible_byte(bytes@[i]));
                    }
                }
            }
            None
        },
    }
}

/// A header that concerns only the connection it arrived on.
pub open spec fn hop_by_hop(name: Seq<char>) -> bool {
    lowered(name) == "host"@ || lowered(name) == "connection"@ || lowered(name)
        == "content-length"@
}

/// Whether a header concerns only the connection it arrived on.
pub fn is_hop_by_hop(name: &str) -> (hop: bool)
    ensures
        hop == hop_by_hop(name@),
{
    let lower = to_lower(name);
    *lower.as_str() == *"host" || *lower.as_str() == *"connection" || *lower.as_str()
        == *"content-length"
}

/// A header that is passed on.
pub open spec fn passes(header: HeaderView) -> bool {
    !hop_by_hop(header.name) && valid_name(header.name) && valid_value(header.value)
}

/// The headers that are passed on, the last one of a name staying.
pub open spec fn passed(headers: Seq<HeaderView>) -> Map<Seq<char>, Seq<Seq<u8>>>
    decreases headers.len(),
{
    if headers.len() == 0 {
        no_headers()
    } else if passes(headers.last()) {
        passed(headers.drop_last()).insert(
            lowered(headers.last().name),
            seq![headers.last().value],
        )
    } else {
        passed(headers.drop_last())
    }
}

/// The value of the first header with the lower-case name `name`.
pub open spec fn first_value(headers: Seq<HeaderView>, name: Seq<char>) -> Option<Seq<u8>>
    decreases headers.len(),
{
    if headers.len() == 0 {
        None
    } else if lowered(headers.first().name) == name {
        Some(headers.first().value)
    } else {
        first_value(headers.drop_first(), name)
    }
}

/// The client that a request is forwarded for: the one that it names itself, or
/// else this machine.
pub open spec fn client_of(headers: Seq<HeaderView>) -> Seq<char> {
    match first_value(headers, "x-forwarded-for"@) {
        Some(value) => if visible(value) {
            ascii_text(value)
        } else {
            "127.0.0.1"@
        },
        None => "127.0.0.1"@,
    }
}

/// A map with `name` set to `text`, where the text can be a header value.
pub open spec fn with_text(
    map: Map<Seq<char>, Seq<Seq<u8>>>,
    name: Seq<char>,
    text: Seq<char>,
) -> Map<Seq<char>, Seq<Seq<u8>>> {
    if valid_value(encode_utf8(text)) {
        map.insert(name, seq![encode_utf8(text)])
    } else {
        map
    }
}

/// The headers that a request is forwarded with.
pub open spec fn forwarded(
    headers: Seq<HeaderView>,
    host: Seq<char>,
    token: Option<Seq<char>>,
) -> Map<Seq<char>, Seq<Seq<u8>>> {
    let base = with_text(
        with_text(
            with_text(passed(headers), "host"@, host),
            "x-forwarded-for"@,
            client_of(headers),
        ),
        "x-dstp-relay"@,
        "1"@,
    );
    match token {
        Some(secret) => with_text(base, "x-dstp-relay-token"@, secret),
        None => base,
    }
}

/// A list of headers passes on at most as many names as it has headers.
proof fn lemma_passed_count(headers: Seq<HeaderView>)
    ensures
        passed(headers).dom().finite(),
        passed(headers).dom().len() <= headers.len(),
    decreases headers.len(),
{
    if headers.len() > 0 {
        lemma_passed_count(headers.drop_last());
    }
}

/// Sets `name` to `text`, where the text can be a header value.
fn insert_text(map: &mut HeaderMap<HeaderValue>, name: &str, text: &str)
    requires
        valid_name(name@),
        lowered(name@) == name@,
        header_entries(*old(map)).dom().finite(),
        header_entries(*old(map)).dom().len() <= HEADER_LIMIT,
    ensures
        header_entries(*final(map)) == with_text(header_entries(*old(map)), name@, text@),
        header_entries(*final(map)).dom().finite(),
        header_entries(*final(map)).dom().len() <= header_entries(*old(map)).dom().len() + 1,
{
    if let Some(key) = make_name(name) {
        if let Some(value) = make_text_value(text) {
            insert_header(map, key, value);
        }
    }
}

/// The client that a request is forwarded for.
pub fn forwarded_for(headers: &Vec<Header>) -> (client: String)
    ensures
        client@ == client_of(headers_view(headers@)),
{
    let ghost views = headers_view(headers@);
    let mut i: usize = 0;
    assert(views.skip(0) =~= views);
    while i < headers.len()
        invariant
            i <= headers@.len(),
            views == headers_view(headers@),
            first_value(views, "x-forwarded-for"@) == first_value(
                views.skip(i as int),
                "x-forwarded-for"@,
            ),
        decreases headers@.len() - i,
    {
        assert(views[i as int] == headers@[i as int]@);
        assert(views.skip(i as int).first() == headers@[i as int]@);
        assert(views.skip(i as int).drop_first() =~= views.skip(i + 1));
        let name = to_lower(headers[i].name.as_str());
        if *name.as_str() == *"x-forwarded-for" {
            return match header_text(headers[i].value.as_slice()) {
                Some(text) => text,
                None => "127.0.0.1".to_owned(),
            };
        }
        i += 1;
    }
    "127.0.0.1".to_owned()
}

/// The headers that a request is forwarded with: the headers it arrived with,
/// but for those that concern only its connection, the host of the backend, the
/// client, the mark of the relay, and the shared secret.
pub fn forward_headers(headers: &Vec<Header>, host: &str, token: &Option<String>) -> (map:
    HeaderMap<HeaderValue>)
    requires
        headers@.len() + 4 <= HEADER_LIMIT,
    ensures
        header_entries(map) == forwarded(headers_view(headers@), host@, text_view(*token)),
{
    let ghost views = headers_view(headers@);
    let mut map = new_map();
    let mut i: usize = 0;
    while i < headers.len()
        invariant
            i <= headers@.len(),
            headers@.len() + 4 <= HEADER_LIMIT,
            views == headers_view(headers@),
            header_entries(map) == passed(views.take(i as int)),
        decreases headers@.len() - i,
    {
        assert(views[i as int] == headers@[i as int]@);
        assert(views.take(i + 1).last() == headers@[i as int]@);
        assert(views.take(i + 1).drop_last() =~= views.take(i as int));
        proof {
            lemma_passed_count(views.take(i as int));
        }
        if !is_hop_by_hop(headers[i].name.as_str()) {
            if let Some(name) = make_name(headers[i].name.as_str()) {
                if let Some(value) = make_value(headers[i].value.as_slice()) {
                    insert_header(&mut map, name, value);
                }
            }
        }
        i += 1;
    }
    assert(views.take(i as int) =~= views);
    proof {
        lemma_passed_count(views);
        reveal_strlit("host");
        reveal_strlit("x-forwarded-for");
        reveal_strlit("x-dstp-relay");
        reveal_strlit("x-dstp-relay-token");
        assert(lowered("host"@) =~= "host"@);
        assert(lowered("x-forwarded-for"@) =~= "x-forwarded-for"@);
        assert(lowered("x-dstp-relay"@) =~= "x-dstp-relay"@);
        assert(lowered("x-dstp-relay-token"@) =~= "x-dstp-relay-token"@);
    }
    insert_text(&mut map, "host", host);
    let client = forwarded_for(headers);
    insert_text(&mut map, "x-forwarded-for", client.as_str());
    insert_text(&mut map, "x-dstp-relay", "1");
    if let Some(secret) = token {
        insert_text(&mut map, "x-dstp-relay-token", secret.as_str());
    }
    map
}

// ---------------------------------------------------------------------------
// What holds of the headers of a forwarded request.
// ---------------------------------------------------------------------------

/// A name that the relay sets itself.
pub open spec fn set_by_relay(name: Seq<char>) -> bool {
    name == "host"@ || name == "x-forwarded-for"@ || name == "x-dstp-relay"@ || name
        == "x-dstp-relay-token"@
}

/// The names that matter here are all different.
proof fn lemma_names_differ()
    ensures
        "host"@.len() == 4,
        "connection"@.len() == 10,
        "content-length"@.len() == 14,
        "x-forwarded-for"@.len() == 15,
        "x-dstp-relay"@.len() == 12,
        "x-dstp-relay-token"@.len() == 18,
{
    reveal_strlit("host");
    reveal_strlit("connection");
    reveal_strlit("content-length");
    reveal_strlit("x-forwarded-for");
    reveal_strlit("x-dstp-relay");
    reveal_strlit("x-dstp-relay-token");
}

/// No header that concerns only its connection is passed on.
proof fn lemma_passed_names(headers: Seq<HeaderView>)
    ensures
        !passed(headers).contains_key("host"@),
        !passed(headers).contains_key("connection"@),
        !passed(headers).contains_key("content-length"@),
    decreases headers.len(),
{
    if headers.len() > 0 {
        lemma_passed_names(headers.drop_last());
    }
}

/// Visible ASCII bytes are the encoding of the text that they stand for, and a
/// header value can hold them.
proof fn lemma_visible(bytes: Seq<u8>)
    requires
        visible(bytes),
    ensures
        encode_utf8(ascii_text(bytes)) == bytes,
        valid_value(bytes),
{
    let text = ascii_text(bytes);
    assert forall|i: int| 0 <= i < text.len() implies '\0' <= #[trigger] text[i] <= '\u{7f}' by {
        assert(visible_byte(bytes[i]));
    }
    is_ascii_chars_encode_utf8(text);
    assert forall|i: int| 0 <= i < bytes.len() implies #[trigger] encode_utf8(text)[i]
        == bytes[i] by {
        assert(visible_byte(bytes[i]));
        assert(text[i] as u8 == bytes[i]);
    }
    assert(encode_utf8(text) =~= bytes);
    assert forall|i: int| 0 <= i < bytes.len() implies value_byte(#[trigger] bytes[i]) by {
        assert(visible_byte(bytes[i]));
    }
}

/// The text of visible ASCII bytes has those bytes.
pub proof fn law_visible_text_keeps_its_bytes(bytes: Seq<u8>)
    requires
        visible(bytes),
    ensures
        encode_utf8(ascii_text(bytes)) == bytes,
{
    lemma_visible(bytes);
}

/// A text of visible ASCII characters can be a header value.
proof fn lemma_plain_text(text: Seq<char>)
    requires
        forall|i: int| 0 <= i < text.len() ==> ' ' <= #[trigger] text[i] <= '~',
    ensures
        valid_value(encode_utf8(text)),
{
    is_ascii_chars_encode_utf8(text);
    assert forall|i: int| 0 <= i < encode_utf8(text).len() implies value_byte(
        #[trigger] encode_utf8(text)[i],
    ) by {
        assert(text[i] as u8 == encode_utf8(text)[i]);
    }
}

/// The headers that concern only the connection of the game are not forwarded.
pub proof fn law_connection_headers_stay(
    headers: Seq<HeaderView>,
    host: Seq<char>,
    token: Option<Seq<char>>,
)
    ensures
        !forwarded(headers, host, token).contains_key("connection"@),
        !forwarded(headers, host, token).contains_key("content-length"@),
{
    lemma_names_differ();
    lemma_passed_names(headers);
}

/// A forwarded request is addressed to the backend, whatever host the game asked
/// for.
pub proof fn law_host_is_the_backend(
    headers: Seq<HeaderView>,
    host: Seq<char>,
    token: Option<Seq<char>>,
)
    ensures
        valid_value(encode_utf8(host)) ==> {
            &&& forwarded(headers, host, token).contains_key("host"@)
            &&& forwarded(headers, host, token)["host"@] == seq![encode_utf8(host)]
        },
        !valid_value(encode_utf8(host)) ==> !forwarded(headers, host, token).contains_key("host"@),
{
    lemma_names_differ();
    lemma_passed_names(headers);
}

/// A forwarded request always bears the mark of the relay, and the client it is
/// forwarded for.
pub proof fn law_forwarded_request_is_marked(
    headers: Seq<HeaderView>,
    host: Seq<char>,
    token: Option<Seq<char>>,
)
    ensures
        forwarded(headers, host, token).contains_key("x-dstp-relay"@),
        forwarded(headers, host, token)["x-dstp-relay"@] == seq![encode_utf8("1"@)],
        forwarded(headers, host, token).contains_key("x-forwarded-for"@),
        forwarded(headers, host, token)["x-forwarded-for"@] == seq![
            encode_utf8(client_of(headers)),
        ],
{
    lemma_names_differ();
    reveal_strlit("1");
    reveal_strlit("127.0.0.1");
    lemma_plain_text("1"@);
    lemma_plain_text("127.0.0.1"@);
    if let Some(value) = first_value(headers, "x-forwarded-for"@) {
        if visible(value) {
            lemma_visible(value);
        }
    }
}

/// The shared secret goes along with each forwarded request, in the place of
/// anything that the game sent under its name.
pub proof fn law_token_is_sent(headers: Seq<HeaderView>, host: Seq<char>, token: Seq<char>)
    requires
        valid_value(encode_utf8(token)),
    ensures
        forwarded(headers, host, Some(token)).contains_key("x-dstp-relay-token"@),
        forwarded(headers, host, Some(token))["x-dstp-relay-token"@] == seq![encode_utf8(token)],
{
}

/// The last header of a name is the one that is passed on.
proof fn lemma_passed_last(headers: Seq<HeaderView>, i: int)
    requires
        0 <= i < headers.len(),
        passes(headers[i]),
        forall|j: int|
            i < j < headers.len() && passes(#[trigger] headers[j]) ==> lowered(headers[j].name)
                != lowered(headers[i].name),
    ensures
        passed(headers).contains_key(lowered(headers[i].name)),
        passed(headers)[lowered(headers[i].name)] == seq![headers[i].value],
    decreases headers.len(),
{
    if i < headers.len() - 1 {
        let start = headers.drop_last();
        assert forall|j: int| i < j < start.len() && passes(#[trigger] start[j]) implies lowered(
            start[j].name,
        ) != lowered(start[i].name) by {
            assert(passes(headers[j]));
        }
        lemma_passed_last(start, i);
        if passes(headers.last()) {
            assert(lowered(headers[headers.len() - 1].name) != lowered(headers[i].name));
        }
    }
}

/// Any other header that the game sent is forwarded with its value; of several
/// with the same name it is the last one.
pub proof fn law_other_headers_are_forwarded(
    headers: Seq<HeaderView>,
    host: Seq<char>,
    token: Option<Seq<char>>,
    i: int,
)
    requires
        0 <= i < headers.len(),
        passes(headers[i]),
        !set_by_relay(lowered(headers[i].name)),
        forall|j: int|
            i < j < headers.len() && passes(#[trigger] headers[j]) ==> lowered(headers[j].name)
                != lowered(headers[i].name),
    ensures
        forwarded(headers, host, token).contains_key(lowered(headers[i].name)),
        forwarded(headers, host, token)[lowered(headers[i].name)] == seq![headers[i].value],
{
    lemma_passed_last(headers, i);
}

/// Nothing is forwarded that the game did not send and the relay does not set;
/// without a shared secret the relay sets none.
pub proof fn law_no_other_header_is_added(
    headers: Seq<HeaderView>,
    host: Seq<char>,
    token: Option<Seq<char>>,
    name: Seq<char>,
)
    requires
        forwarded(headers, host, token).contains_key(name),
        !set_by_relay(name) || (name == "x-dstp-relay-token"@ && token is None),
    ensures
        exists|i: int|
            0 <= i < headers.len() && passes(#[trigger] headers[i]) && lowered(headers[i].name)
                == name,
{
    lemma_names_differ();
    lemma_passed_origin(headers, name);
}

/// Each name that is passed on comes from a header that is.
proof fn lemma_passed_origin(headers: Seq<HeaderView>, name: Seq<char>)
    requires
        passed(headers).contains_key(name),
    ensures
        exists|i: int|
            0 <= i < headers.len() && passes(#[trigger] headers[i]) && lowered(headers[i].name)
                == name,
    decreases headers.len(),
{
    let last = headers.len() - 1;
    if passes(headers[last]) && lowered(headers[last].name) == name {
    } else {
        let start = headers.drop_last();
        lemma_passed_origin(start, name);
        let i = choose|i: int|
            0 <= i < start.len() && passes(#[trigger] start[i]) && lowered(start[i].name) == name;
        assert(passes(headers[i]));
    }
}

/// The client that a request names first goes along with it, byte for byte; one
/// that names none, or in a way that is no plain text, is forwarded for this
/// machine.
pub proof fn law_client_goes_along(
    headers: Seq<HeaderView>,
    host: Seq<char>,
    token: Option<Seq<char>>,
    i: int,
)
    ensures
        forwarded(headers, host, token).contains_key("x-forwarded-for"@),
        0 <= i < headers.len() && lowered(headers[i].name) == "x-forwarded-for"@ && (forall|k: int|
            0 <= k < i ==> lowered((#[trigger] headers[k]).name) != "x-forwarded-for"@) ==> forwarded(
            headers,
            host,
            token,
        )["x-forwarded-for"@] == seq![
            if visible(headers[i].value) {
                headers[i].value
            } else {
                encode_utf8("127.0.0.1"@)
            },
        ],
        (forall|k: int|
            0 <= k < headers.len() ==> lowered((#[trigger] headers[k]).name)
                != "x-forwarded-for"@) ==> forwarded(headers, host, token)["x-forwarded-for"@]
            == seq![encode_utf8("127.0.0.1"@)],
{
    law_forwarded_request_is_marked(headers, host, token);
    if 0 <= i < headers.len() && lowered(headers[i].name) == "x-forwarded-for"@ && (forall|k: int|
        0 <= k < i ==> lowered((#[trigger] headers[k]).name) != "x-forwarded-for"@) {
        lemma_first_value(headers, "x-forwarded-for"@, i);
        if visible(headers[i].value) {
            lemma_visible(headers[i].value);
        }
    }
    if forall|k: int|
        0 <= k < headers.len() ==> lowered((#[trigger] headers[k]).name) != "x-forwarded-for"@ {
        lemma_no_value(headers, "x-forwarded-for"@);
    }
}

/// The first header of a name is the one that counts.
proof fn lemma_first_value(headers: Seq<HeaderView>, name: Seq<char>, i: int)
    requires
        0 <= i < headers.len(),
        lowered(headers[i].name) == name,
        forall|k: int| 0 <= k < i ==> lowered((#[trigger] headers[k]).name) != name,
    ensures
        first_value(headers, name) == Some(headers[i].value),
    decreases headers.len(),
{
    if i > 0 {
        let rest = headers.drop_first();
        assert(lowered(headers[0].name) != name);
        assert forall|k: int| 0 <= k < i - 1 implies lowered((#[trigger] rest[k]).name)
            != name by {
            assert(lowered(headers[k + 1].name) != name);
        }
        lemma_first_value(rest, name, i - 1);
    }
}

/// Without a header of a name there is no value.
proof fn lemma_no_value(headers: Seq<HeaderView>, name: Seq<char>)
    requires
        forall|k: int| 0 <= k < headers.len() ==> lowered((#[trigger] headers[k]).name) != name,
    ensures
        first_value(headers, name) is None,
    decreases headers.len(),
{
    if headers.len() > 0 {
        let rest = headers.drop_first();
        assert(lowered(headers[0].name) != name);
        assert forall|k: int| 0 <= k < rest.len() implies lowered((#[trigger] rest[k]).name)
            != name by {
            assert(lowered(headers[k + 1].name) != name);
        }
        lemma_no_value(rest, name);
    }
}

/// A header that the game sent goes along with its value unchanged, if it can be
/// a header, no later one has its name, and its name is none of those that concern
/// only a connection and none of those that the relay sets. The name of the shared
/// secret is the game's where the relay sends none.
pub proof fn law_headers_of_the_game_go_along(
    headers: Seq<HeaderView>,
    host: Seq<char>,
    token: Option<Seq<char>>,
    i: int,
)
    requires
        0 <= i < headers.len(),
        valid_name(headers[i].name),
        valid_value(headers[i].value),
        lowered(headers[i].name) != "host"@,
        lowered(headers[i].name) != "connection"@,
        lowered(headers[i].name) != "content-length"@,
        lowered(headers[i].name) != "x-forwarded-for"@,
        lowered(headers[i].name) != "x-dstp-relay"@,
        lowered(headers[i].name) != "x-dstp-relay-token"@ || token is None || !valid_value(
            encode_utf8(token->0),
        ),
        forall|j: int|
            i < j < headers.len() ==> lowered((#[trigger] headers[j]).name) != lowered(
                headers[i].name,
            ),
    ensures
        forwarded(headers, host, token).contains_key(lowered(headers[i].name)),
        forwarded(headers, host, token)[lowered(headers[i].name)] == seq![headers[i].value],
{
    lemma_names_differ();
    lemma_passed_last(headers, i);
}

/// What is forwarded under a name that the relay does not set is the value of a
/// header of the game of that name, which does not concern only a connection.
pub proof fn law_forwarded_values_are_those_of_the_game(
    headers: Seq<HeaderView>,
    host: Seq<char>,
    token: Option<Seq<char>>,
    name: Seq<char>,
)
    requires
        forwarded(headers, host, token).contains_key(name),
        name != "host"@,
        name != "x-forwarded-for"@,
        name != "x-dstp-relay"@,
        name != "x-dstp-relay-token"@ || token is None,
    ensures
        name != "connection"@,
        name != "content-length"@,
        exists|i: int|
            {
                &&& 0 <= i < headers.len()
                &&& lowered((#[trigger] headers[i]).name) == name
                &&& forwarded(headers, host, token)[name] == seq![headers[i].value]
            },
{
    lemma_names_differ();
    law_connection_headers_stay(headers, host, token);
    lemma_passed_value(headers, name);
}

/// Each value that is passed on is that of a header of its name.
proof fn lemma_passed_value(headers: Seq<HeaderView>, name: Seq<char>)
    requires
        passed(headers).contains_key(name),
    ensures
        exists|i: int|
            {
                &&& 0 <= i < headers.len()
                &&& lowered((#[trigger] headers[i]).name) == name
                &&& passed(headers)[name] == seq![headers[i].value]
            },
    decreases headers.len(),
{
    let last = headers.len() - 1;
    if passes(headers[last]) && lowered(headers[last].name) == name {
        assert(passed(headers)[name] == seq![headers[last].value]);
    } else {
        let start = headers.drop_last();
        lemma_passed_value(start, name);
        let i = choose|i: int|
            {
                &&& 0 <= i < start.len()
                &&& lowered((#[trigger] start[i]).name) == name
                &&& passed(start)[name] == seq![start[i].value]
            };
        assert(lowered(headers[i].name) == name);
    }
}

/// A list of headers is seen as it is: each with its name and its value.
pub proof fn law_headers_are_seen_as_they_are(headers: Seq<Header>, i: int)
    requires
        0 <= i < headers.len(),
    ensures
        headers_view(headers).len() == headers.len(),
        headers_view(headers)[i].name == headers[i].name@,
        headers_view(headers)[i].value == headers[i].value@,
{
}

} // verus!
