//! Requests: headers, methods, content types, and the text that goes on the
//! wire.

use crate::error::{ParseError, RequestErrors};
use crate::text::{
    after_text, append_str, before_text, cut_after_text, cut_before_text, decimal, from_chars,
    has_char, lemma_find_text_concat, push_decimal, to_chars, Pair,
};
use crate::url::{parse_url, url_text, Url, UrlView};
use vstd::prelude::*;

verus! {

// ---------------------------------------------------------------------------
// Headers
// ---------------------------------------------------------------------------

/// One header: a name and a value. The value may be empty.
#[derive(Debug)]
pub struct Header {
    /// The name of the header
    pub name: String,
    /// The value of the header
    pub value: String,
}

impl View for Header {
    type V = Pair;

    open spec fn view(&self) -> Pair {
        (self.name@, self.value@)
    }
}

impl Clone for Header {
    fn clone(&self) -> (r: Self)
        ensures
            r == *self,
    {
        Header { name: self.name.clone(), value: self.value.clone() }
    }
}

/// The name and value pairs that a vector of headers stands for.
pub open spec fn header_views(v: Seq<Header>) -> Seq<Pair> {
    Seq::new(v.len(), |i: int| v[i]@)
}

/// Position of the first header of `hs` named `name`, or `hs.len()` when there
/// is none. Names are compared exactly, case included.
pub open spec fn header_position(hs: Seq<Pair>, name: Seq<char>) -> int
    decreases hs.len(),
{
    if hs.len() == 0 {
        0
    } else if hs[0].0 == name {
        0
    } else {
        1 + header_position(hs.drop_first(), name)
    }
}

/// The first header of `hs` named `name`.
pub open spec fn header_lookup(hs: Seq<Pair>, name: Seq<char>) -> Option<Pair> {
    let i = header_position(hs, name);
    if 0 <= i < hs.len() {
        Some(hs[i])
    } else {
        None
    }
}

/// `hs` with `name` set to `value`: the first header of that name gets the
/// value and keeps its place; when there is none, a new header goes to the
/// end.
pub open spec fn header_upsert(
    hs: Seq<Pair>,
    name: Seq<char>,
    value: Seq<char>,
) -> Seq<Pair> {
    let i = header_position(hs, name);
    if 0 <= i < hs.len() {
        hs.update(i, (name, value))
    } else {
        hs.push((name, value))
    }
}

/// What a header line means: `None` when it holds no colon. Otherwise the
/// name is what stands before the first `": "` (colon, blank) and the value
/// what follows it; a line with a colon but no `": "` is all name, with an
/// empty value.
pub open spec fn header_line(line: Seq<char>) -> Option<Pair> {
    if !line.contains(':') {
        None
    } else {
        Some((before_text(line, ": "@), after_text(line, ": "@)))
    }
}

/// `header_position` is in range, points at a header of that name when it is
/// below the length, and no header before it has that name.
pub proof fn lemma_header_position(hs: Seq<Pair>, name: Seq<char>)
    ensures
        0 <= header_position(hs, name) <= hs.len(),
        header_position(hs, name) < hs.len() ==> hs[header_position(hs, name)].0 == name,
        forall|j: int| 0 <= j < header_position(hs, name) ==> hs[j].0 != name,
    decreases hs.len(),
{
    if hs.len() > 0 && hs[0].0 != name {
        let t = hs.drop_first();
        lemma_header_position(t, name);
        assert forall|j: int| 0 <= j < header_position(hs, name) implies hs[j].0 != name by {
            if j > 0 {
                assert(hs[j] == t[j - 1]);
            }
        }
        if header_position(hs, name) < hs.len() {
            assert(hs[header_position(hs, name)] == t[header_position(t, name)]);
        }
    }
}

/// The position that `lemma_header_position` describes is the only one.
pub proof fn lemma_header_position_unique(
    hs: Seq<Pair>,
    name: Seq<char>,
    i: int,
)
    requires
        0 <= i <= hs.len(),
        i < hs.len() ==> hs[i].0 == name,
        forall|j: int| 0 <= j < i ==> hs[j].0 != name,
    ensures
        header_position(hs, name) == i,
{
    lemma_header_position(hs, name);
    let k = header_position(hs, name);
    if k < i {
        assert(hs[k].0 != name);
    }
}

/// Setting a name makes the lookup of that name give the new value, and
/// leaves the name where it was: at its old place, or at the end when it is
/// new.
pub proof fn lemma_upsert_sets(hs: Seq<Pair>, name: Seq<char>, value: Seq<char>)
    ensures
        header_lookup(header_upsert(hs, name, value), name) == Some((name, value)),
        header_position(header_upsert(hs, name, value), name) == header_position(hs, name),
        header_position(hs, name) < hs.len() ==> header_upsert(hs, name, value).len() == hs.len(),
        header_position(hs, name) == hs.len() ==> header_upsert(hs, name, value).len() == hs.len()
            + 1,
{
    lemma_header_position(hs, name);
    let i = header_position(hs, name);
    let after = header_upsert(hs, name, value);
    assert forall|j: int| 0 <= j < i implies after[j].0 != name by {
        assert(after[j] == hs[j]);
    }
    lemma_header_position_unique(after, name, i);
}

/// Setting a name leaves every other header as it was, and in its place.
pub proof fn lemma_upsert_keeps(
    hs: Seq<Pair>,
    name: Seq<char>,
    value: Seq<char>,
    other: Seq<char>,
)
    requires
        other != name,
    ensures
        header_lookup(header_upsert(hs, name, value), other) == header_lookup(hs, other),
        header_position(hs, other) < hs.len() ==> header_position(
            header_upsert(hs, name, value),
            other,
        ) == header_position(hs, other),
        forall|j: int|
            0 <= j < hs.len() && j != header_position(hs, name) ==> header_upsert(
                hs,
                name,
                value,
            )[j] == hs[j],
{
    lemma_header_position(hs, name);
    lemma_header_position(hs, other);
    let after = header_upsert(hs, name, value);
    let k = header_position(hs, other);
    if k < hs.len() {
        assert forall|j: int| 0 <= j < k implies after[j].0 != other by {
            if j != header_position(hs, name) {
                assert(after[j] == hs[j]);
            }
        }
        assert(after[k] == hs[k]);
        lemma_header_position_unique(after, other, k);
    } else {
        assert forall|j: int| 0 <= j < after.len() implies after[j].0 != other by {
            if j < hs.len() && j != header_position(hs, name) {
                assert(after[j] == hs[j]);
            }
        }
        lemma_header_position_unique(after, other, after.len() as int);
    }
}

/// Setting a name twice is setting it to the second value: the number of
/// headers is what it was after the first setting, the name is where the
/// first setting put it, and its value is the second one.
pub proof fn lemma_upsert_twice(
    hs: Seq<Pair>,
    name: Seq<char>,
    first: Seq<char>,
    second: Seq<char>,
)
    ensures
        header_upsert(header_upsert(hs, name, first), name, second).len() == header_upsert(
            hs,
            name,
            first,
        ).len(),
        header_position(header_upsert(header_upsert(hs, name, first), name, second), name)
            == header_position(header_upsert(hs, name, first), name),
        header_lookup(header_upsert(header_upsert(hs, name, first), name, second), name) == Some(
            (name, second),
        ),
        header_upsert(header_upsert(hs, name, first), name, second) == header_upsert(
            hs,
            name,
            second,
        ),
{
    lemma_header_position(hs, name);
    let once = header_upsert(hs, name, first);
    lemma_upsert_sets(hs, name, first);
    lemma_upsert_sets(once, name, second);
    lemma_header_position(once, name);
    assert(header_upsert(once, name, second) =~= header_upsert(hs, name, second));
}

/// No name stands twice among headers.
pub open spec fn distinct_names(hs: Seq<Pair>) -> bool {
    forall|i: int, j: int| 0 <= i < j < hs.len() ==> (#[trigger] hs[i]).0 != (#[trigger] hs[j]).0
}

/// Setting a name never makes a name stand twice.
pub proof fn lemma_upsert_distinct(
    hs: Seq<Pair>,
    name: Seq<char>,
    value: Seq<char>,
)
    requires
        distinct_names(hs),
    ensures
        distinct_names(header_upsert(hs, name, value)),
{
    lemma_header_position(hs, name);
    let p = header_position(hs, name);
    let after = header_upsert(hs, name, value);
    assert forall|i: int, j: int| 0 <= i < j < after.len() implies (#[trigger] after[i]).0 != (
    #[trigger] after[j]).0 by {
        if p < hs.len() {
            assert(after[i].0 == hs[i].0);
            assert(after[j].0 == hs[j].0);
        } else if j < hs.len() {
            assert(after[i] == hs[i]);
            assert(after[j] == hs[j]);
        } else {
            assert(after[i] == hs[i]);
            assert(hs[i].0 != name);
        }
    }
}

/// A header written as name, colon, blank and value reads back as that name
/// and that value, when the name holds no colon.
pub proof fn lemma_header_line_written(name: Seq<char>, value: Seq<char>)
    requires
        !name.contains(':'),
    ensures
        header_line(name + ": "@ + value) == Some((name, value)),
{
    reveal_strlit(": ");
    let sep = ": "@;
    let line = name + sep + value;
    assert(sep.len() == 2 && sep[0] == ':');
    lemma_find_text_concat(name, sep, value);
    assert(line[name.len() as int] == ':');
    assert(line.take(name.len() as int) =~= name);
    assert(line.skip((name.len() + sep.len()) as int) =~= value);
}

/// Position of the first header named `name` in `headers`, or their number.
pub fn find_header(headers: &Vec<Header>, name: &str) -> (i: usize)
    ensures
        i == header_position(header_views(headers@), name@),
        i <= headers.len(),
{
    let wanted = name.to_owned();
    let ghost hs = header_views(headers@);
    let mut i: usize = 0;
    while i < headers.len()
        invariant
            i <= headers.len(),
            hs == header_views(headers@),
            wanted@ == name@,
            forall|j: int| 0 <= j < i ==> hs[j].0 != name@,
        decreases headers.len() - i,
    {
        if headers[i].name == wanted {
            proof {
                lemma_header_position_unique(hs, name@, i as int);
            }
            return i;
        }
        i += 1;
    }
    proof {
        lemma_header_position_unique(hs, name@, i as int);
    }
    i
}

/// Sets `name` to `value` in `headers`: a header of that name keeps its place
/// and gets the value, a new name goes to the end.
pub fn upsert_header(headers: &mut Vec<Header>, name: &str, value: &str)
    ensures
        header_views(final(headers)@) == header_upsert(header_views(old(headers)@), name@, value@),
{
    let i = find_header(headers, name);
    let header = Header { name: name.to_owned(), value: value.to_owned() };
    if i < headers.len() {
        headers.set(i, header);
        assert(header_views(headers@) =~= header_views(old(headers)@).update(
            i as int,
            (name@, value@),
        ));
    } else {
        headers.push(header);
        assert(header_views(headers@) =~= header_views(old(headers)@).push((name@, value@)));
    }
}

impl Header {
    /// Reads one header line, such as `Content-Type: text/html`.
    ///
    /// A line without a colon is refused. Otherwise the line is cut at its
    /// first `": "`; without one, the whole line is the name and the value is
    /// empty.
    pub fn parse(line: &str) -> (r: Result<Header, ParseError>)
        ensures
            match header_line(line@) {
                Some(h) => r is Ok && r->Ok_0@ == h,
                None => r == Err::<Header, ParseError>(ParseError::MissingColon),
            },
    {
        let chars = to_chars(line);
        let s = chars.as_slice();
        if !has_char(s, ':') {
            return Err(ParseError::MissingColon);
        }
        let sep = to_chars(": ");
        let name = from_chars(cut_before_text(s, sep.as_slice()));
        let value = from_chars(cut_after_text(s, sep.as_slice()));
        Ok(Header { name, value })
    }
}

// ---------------------------------------------------------------------------
// Methods and content types
// ---------------------------------------------------------------------------

/// The request methods.
#[derive(Debug, Clone, Copy, PartialEq, Eq)]
pub enum RequestTypes {
    /// GET Method
    GET,
    /// POST Method
    POST,
    /// PUT Method
    PUT,
    /// DELETE Method
    DELETE,
}

/// The name of a method, as it stands in a request line.
pub open spec fn method_text(method: RequestTypes) -> Seq<char> {
    match method {
        RequestTypes::GET => "GET"@,
        RequestTypes::POST => "POST"@,
        RequestTypes::PUT => "PUT"@,
        RequestTypes::DELETE => "DELETE"@,
    }
}

impl RequestTypes {
    /// The name of the method, as it stands in a request line.
    pub fn get_type(&self) -> (r: String)
        ensures
            r@ == method_text(*self),
    {
        match self {
            RequestTypes::GET => "GET".to_owned(),
            RequestTypes::POST => "POST".to_owned(),
            RequestTypes::PUT => "PUT".to_owned(),
            RequestTypes::DELETE => "DELETE".to_owned(),
        }
    }
}

/// The content types that a request can announce.
#[derive(Debug, Clone, Copy, PartialEq, Eq)]
pub enum ContentTypes {
    /// application/json
    JSON,
    /// text/html
    HTML,
    /// text/plain
    Text,
    /// image/png
    Png,
    /// audio/mp3
    MP3,
    /// text/html,application/xhtml+xml,application/xml;q=0.9,*/*;q=0.8
    Any,
    /// application/octet-stream
    OctetStream,
}

/// The value of the `Content-Type` header for a content type.
pub open spec fn content_type_text(content_type: ContentTypes) -> Seq<char> {
    match content_type {
        ContentTypes::JSON => "application/json"@,
        ContentTypes::HTML => "text/html"@,
        ContentTypes::Text => "text/plain"@,
        ContentTypes::Png => "image/png"@,
        ContentTypes::MP3 => "audio/mp3"@,
        ContentTypes::Any => "text/html,application/xhtml+xml,application/xml;q=0.9,*/*;q=0.8"@,
        ContentTypes::OctetStream => "application/octet-stream"@,
    }
}

impl Default for ContentTypes {
    fn default() -> (r: Self)
        ensures
            r == ContentTypes::Any,
    {
        ContentTypes::Any
    }
}

impl ContentTypes {
    /// The value of the `Content-Type` header for this content type.
    pub fn get_type(&self) -> (r: &'static str)
        ensures
            r@ == content_type_text(*self),
    {
        match self {
            ContentTypes::JSON => "application/json",
            ContentTypes::HTML => "text/html",
            ContentTypes::Text => "text/plain",
            ContentTypes::Png => "image/png",
            ContentTypes::MP3 => "audio/mp3",
            ContentTypes::Any => "text/html,application/xhtml+xml,application/xml;q=0.9,*/*;q=0.8",
            ContentTypes::OctetStream => "application/octet-stream",
        }
    }
}

// ---------------------------------------------------------------------------
// Requests
// ---------------------------------------------------------------------------

/// The read timeout of a new request, in milliseconds.
pub const DEFAULT_TIMEOUT_MS: u64 = 5000;

/// A request: where it goes, how, and with which headers. It is sent once.
#[derive(Debug)]
pub struct Request {
    url: Url,
    request_type: RequestTypes,
    /// What the `Content-Type` header will say
    pub content_type: ContentTypes,
    headers: Vec<Header>,
    timeout: u64,
    sent: bool,
}

/// What a `Request` holds, as mathematical values.
pub struct RequestView {
    pub url: UrlView,
    pub method: RequestTypes,
    pub content_type: ContentTypes,
    pub headers: Seq<Pair>,
    pub timeout: u64,
    pub sent: bool,
}

impl View for Request {
    type V = RequestView;

    closed spec fn view(&self) -> RequestView {
        RequestView {
            url: self.url@,
            method: self.request_type,
            content_type: self.content_type,
            headers: header_views(self.headers@),
            timeout: self.timeout,
            sent: self.sent,
        }
    }
}

/// Where a request is to be sent, and how.
#[derive(Debug)]
pub struct Endpoint {
    /// The host to connect to
    pub host: String,
    /// The port to connect to
    pub port: u16,
    /// Whether the connection is to be wrapped in TLS
    pub secure: bool,
    /// The read timeout to set on the socket before the first read, in
    /// milliseconds
    pub read_timeout_ms: u64,
}

/// The headers of a new request for the URL `u`, in their order.
pub open spec fn default_headers(u: UrlView) -> Seq<Pair> {
    seq![
        ("Host"@, u.host + seq![':'] + decimal(u.port as nat)),
        ("Connection"@, "close"@),
        ("Cache-Control"@, "max-age=0"@),
        ("User-Agent"@, "Menemen/0.2.2-alpha"@),
    ]
}

/// The headers of a new request have four different names.
pub proof fn lemma_default_headers_distinct(u: UrlView)
    ensures
        default_headers(u).len() == 4,
        distinct_names(default_headers(u)),
{
    reveal_strlit("Host");
    reveal_strlit("Connection");
    reveal_strlit("Cache-Control");
    reveal_strlit("User-Agent");
    assert("Host"@.len() == 4);
    assert("Connection"@.len() == 10);
    assert("Cache-Control"@.len() == 13);
    assert("User-Agent"@.len() == 10);
    assert("Connection"@[0] != "User-Agent"@[0]);
}

/// The header lines for `hs`: `name:value` and a line end for each, in order.
pub open spec fn header_block(hs: Seq<Pair>) -> Seq<char>
    decreases hs.len(),
{
    if hs.len() == 0 {
        Seq::empty()
    } else {
        header_block(hs.drop_last()) + hs.last().0 + seq![':'] + hs.last().1 + "\r\n"@
    }
}

/// The text of a request on the wire: the request line, one line for each
/// header, and an empty line.
pub open spec fn request_text(
    method: RequestTypes,
    url: UrlView,
    headers: Seq<Pair>,
) -> Seq<char> {
    method_text(method) + seq![' '] + url_text(url) + " HTTP/1.1\r\n"@ + header_block(headers)
        + "\r\n"@
}

/// The request `v` after an attempt to set the header `key` to `value`:
/// nothing changes once the request was sent.
pub open spec fn with_header(v: RequestView, key: Seq<char>, value: Seq<char>) -> RequestView {
    if v.sent {
        v
    } else {
        RequestView { headers: header_upsert(v.headers, key, value), ..v }
    }
}

/// The request `v` after an attempt to set the timeout: nothing changes
/// once the request was sent.
pub open spec fn with_timeout(v: RequestView, timeout: u64) -> RequestView {
    if v.sent {
        v
    } else {
        RequestView { timeout, ..v }
    }
}

/// The answer to an attempt to change the request `v`: a refusal once the
/// request was sent.
pub open spec fn change_refused(v: RequestView) -> Option<RequestErrors> {
    if v.sent {
        Some(RequestErrors::CantSetHeadersAfterRequestSent)
    } else {
        None
    }
}

/// The request `v` with its `Content-Type` header set from its content type.
pub open spec fn with_content_type(v: RequestView) -> RequestView {
    with_header(v, "Content-Type"@, content_type_text(v.content_type))
}

/// The request `v` after an attempt to send it: a request that was sent
/// stays as it is; another one gets its `Content-Type` header and is marked
/// as sent.
pub open spec fn once_sent(v: RequestView) -> RequestView {
    if v.sent {
        v
    } else {
        RequestView { sent: true, ..with_content_type(v) }
    }
}

/// The answer to an attempt to send the request `v`: a refusal once the
/// request was sent.
pub open spec fn send_refused(v: RequestView) -> Option<RequestErrors> {
    if v.sent {
        Some(RequestErrors::AlreadySent)
    } else {
        None
    }
}

/// The text of the request `v` on the wire.
pub open spec fn wire_text(v: RequestView) -> Seq<char> {
    request_text(v.method, v.url, v.headers)
}

/// A request is sent once: after an attempt to send it, in whatever state it
/// was, every further attempt is refused with `AlreadySent` and changes
/// nothing.
pub proof fn lemma_sent_once(v: RequestView)
    ensures
        once_sent(v).sent,
        send_refused(once_sent(v)) == Some(RequestErrors::AlreadySent),
        once_sent(once_sent(v)) == once_sent(v),
{
}

/// After an attempt to send a request its headers and timeout are fixed:
/// every attempt to set one is refused with `CantSetHeadersAfterRequestSent`
/// and changes nothing.
pub proof fn lemma_locked_when_sent(v: RequestView, key: Seq<char>, value: Seq<char>, timeout: u64)
    ensures
        change_refused(once_sent(v)) == Some(RequestErrors::CantSetHeadersAfterRequestSent),
        with_header(once_sent(v), key, value) == once_sent(v),
        with_timeout(once_sent(v), timeout) == once_sent(v),
        with_content_type(once_sent(v)) == once_sent(v),
{
}

impl Request {
    /// A new request to `url`, not yet sent, with the content type `Any`, a
    /// read timeout of 5000 ms and four headers: `Host` (host, colon, port),
    /// `Connection: close`, `Cache-Control: max-age=0` and `User-Agent`.
    pub fn new(url: &'static str, request_type: RequestTypes) -> (r: Result<Request, RequestErrors>)
        ensures
            match parse_url(url@) {
                Some(u) => r is Ok && r->Ok_0@ == (RequestView {
                    url: u,
                    method: request_type,
                    content_type: ContentTypes::Any,
                    headers: default_headers(u),
                    timeout: DEFAULT_TIMEOUT_MS,
                    sent: false,
                }) && distinct_names(default_headers(u)),
                None => r == Err::<Request, RequestErrors>(RequestErrors::MalformedUrl),
            },
    {
        let url = match Url::build_from_string(url.to_owned()) {
            Ok(url) => url,
            Err(_) => {
                return Err(RequestErrors::MalformedUrl);
            },
        };
        let mut host = url.host.clone();
        host.push(':');
        push_decimal(&mut host, url.port as u64);
        let mut request = Request {
            url,
            request_type,
            content_type: ContentTypes::default(),
            headers: Vec::new(),
            timeout: DEFAULT_TIMEOUT_MS,
            sent: false,
        };
        let ghost u = request@.url;
        proof {
            lemma_default_headers_distinct(u);
            reveal_strlit("Host");
            reveal_strlit("Connection");
            reveal_strlit("Cache-Control");
            reveal_strlit("User-Agent");
            assert("Host"@.len() == 4);
            assert("Connection"@.len() == 10);
            assert("Cache-Control"@.len() == 13);
            assert("User-Agent"@.len() == 10);
            assert("Connection"@[0] != "User-Agent"@[0]);
            assert(header_views(request.headers@) =~= Seq::empty());
            assert(host@ =~= u.host + seq![':'] + decimal(u.port as nat));
        }
        request.set_header("Host", host.as_str());
        assert(request@.headers =~= default_headers(u).take(1));
        request.set_header("Connection", "close");
        proof {
            lemma_header_position_unique(default_headers(u).take(1), "Connection"@, 1);
        }
        assert(request@.headers =~= default_headers(u).take(2));
        request.set_header("Cache-Control", "max-age=0");
        proof {
            lemma_header_position_unique(default_headers(u).take(2), "Cache-Control"@, 2);
        }
        assert(request@.headers =~= default_headers(u).take(3));
        request.set_header("User-Agent", "Menemen/0.2.2-alpha");
        proof {
            lemma_header_position_unique(default_headers(u).take(3), "User-Agent"@, 3);
        }
        assert(request@.headers =~= default_headers(u));
        Ok(request)
    }

    /// The text of this request on the wire. Unless the request was sent, the
    /// `Content-Type` header is first set from `content_type`.
    pub fn build_request_body(&mut self) -> (r: String)
        ensures
            final(self)@ == with_content_type(old(self)@),
            r@ == wire_text(final(self)@),
    {
        let content_type = self.content_type.get_type();
        self.set_header("Content-Type", content_type);
        let mut out = self.request_type.get_type();
        out.push(' ');
        let target = self.url.to_text();
        append_str(&mut out, target.as_str());
        append_str(&mut out, " HTTP/1.1\r\n");
        let ghost head = out@;
        let ghost hs = header_views(self.headers@);
        let mut k: usize = 0;
        while k < self.headers.len()
            invariant
                k <= self.headers.len(),
                hs == header_views(self.headers@),
                out@ == head + header_block(hs.take(k as int)),
            decreases self.headers.len() - k,
        {
            let header = &self.headers[k];
            proof {
                let upto = hs.take(k + 1);
                assert(upto.drop_last() =~= hs.take(k as int));
                assert(upto.last() == header@);
            }
            let ghost prev = out@;
            append_str(&mut out, header.name.as_str());
            out.push(':');
            append_str(&mut out, header.value.as_str());
            append_str(&mut out, "\r\n");
            assert(out@ =~= prev + header@.0 + seq![':'] + header@.1 + "\r\n"@);
            assert(out@ =~= head + header_block(hs.take(k + 1)));
            k += 1;
        }
        assert(hs.take(k as int) =~= hs);
        append_str(&mut out, "\r\n");
        out
    }

    /// Sets the read timeout, in milliseconds. Refused once the request was
    /// sent.
    pub fn set_timeout(&mut self, timeout: u64) -> (r: Option<RequestErrors>)
        ensures
            r == change_refused(old(self)@),
            final(self)@ == with_timeout(old(self)@, timeout),
    {
        if self.sent {
            Some(RequestErrors::CantSetHeadersAfterRequestSent)
        } else {
            self.timeout = timeout;
            None
        }
    }

    /// The headers, in their order.
    pub fn get_headers(&self) -> (r: Vec<Header>)
        ensures
            header_views(r@) == self@.headers,
    {
        let out = self.headers.clone();
        assert(header_views(out@) =~= header_views(self.headers@));
        out
    }

    /// The first header named `key`. Names are compared exactly, case
    /// included.
    pub fn get_header(&self, key: &str) -> (r: Option<Header>)
        ensures
            match header_lookup(self@.headers, key@) {
                Some(h) => r is Some && r->0@ == h,
                None => r is None,
            },
    {
        let i = find_header(&self.headers, key);
        if i < self.headers.len() {
            Some(self.headers[i].clone())
        } else {
            None
        }
    }

    /// Sets the header `key` to `value`: a header of that name keeps its
    /// place and gets the value, a new name goes to the end. Refused once the
    /// request was sent.
    pub fn set_header(&mut self, key: &str, value: &str) -> (r: Option<RequestErrors>)
        ensures
            r == change_refused(old(self)@),
            final(self)@ == with_header(old(self)@, key@, value@),
    {
        if self.sent {
            Some(RequestErrors::CantSetHeadersAfterRequestSent)
        } else {
            upsert_header(&mut self.headers, key, value);
            None
        }
    }

    /// Where this request is to be sent. Refused once the request was sent,
    /// so that a second attempt fails before anything touches the network.
    pub fn endpoint(&self) -> (r: Result<Endpoint, RequestErrors>)
        ensures
            match r {
                Ok(to) => send_refused(self@) is None && to.host@ == self@.url.host && to.port
                    == self@.url.port && to.secure == self@.url.is_https && to.read_timeout_ms
                    == self@.timeout,
                Err(e) => send_refused(self@) == Some(e),
            },
    {
        if self.sent {
            Err(RequestErrors::AlreadySent)
        } else {
            Ok(
                Endpoint {
                    host: self.url.host.clone(),
                    port: self.url.port,
                    secure: self.url.is_https,
                    read_timeout_ms: self.timeout,
                },
            )
        }
    }

    /// Marks the request as sent and gives the text to put on the wire, with
    /// the `Content-Type` header set from `content_type`. Refused, with
    /// nothing changed, when the request was sent before.
    pub fn begin_send(&mut self) -> (r: Result<String, RequestErrors>)
        ensures
            final(self)@ == once_sent(old(self)@),
            match r {
                Ok(text) => send_refused(old(self)@) is None && text@ == wire_text(final(self)@),
                Err(e) => send_refused(old(self)@) == Some(e),
            },
    {
        if self.sent {
            Err(RequestErrors::AlreadySent)
        } else {
            let text = self.build_request_body();
            self.sent = true;
            Ok(text)
        }
    }
}

} // verus!
