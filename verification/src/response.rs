//! Replies: the status line, the head read one byte at a time, and how much of
//! the body was read.

use crate::error::{ParseError, RequestErrors, RequestErrorsView};
use crate::request::{find_header, header_line, header_lookup, header_views, Header};
use crate::text::{
    after, before, cut_after, cut_before, decimal, decimal_value, from_chars, has_char, is_digit,
    lemma_cut, lemma_decimal_value_of_decimal, parse_decimal, string_texts, to_chars, Pair,
};
use vstd::prelude::*;

verus! {

// ---------------------------------------------------------------------------
// The status line
// ---------------------------------------------------------------------------

/// What the status line of a reply says.
#[derive(Debug)]
pub struct ResponseInfo {
    /// The HTTP version of the server
    pub http_version: String,
    /// The status code of the response
    pub status_code: u16,
    /// The status message of the response
    pub status_message: String,
}

/// What a `ResponseInfo` holds, as mathematical values.
pub struct ResponseInfoView {
    pub http_version: Seq<char>,
    pub status_code: u16,
    pub status_message: Seq<char>,
}

impl View for ResponseInfo {
    type V = ResponseInfoView;

    open spec fn view(&self) -> ResponseInfoView {
        ResponseInfoView {
            http_version: self.http_version@,
            status_code: self.status_code,
            status_message: self.status_message@,
        }
    }
}

impl Clone for ResponseInfo {
    fn clone(&self) -> (r: Self)
        ensures
            r == *self,
    {
        ResponseInfo {
            http_version: self.http_version.clone(),
            status_code: self.status_code,
            status_message: self.status_message.clone(),
        }
    }
}

impl Default for ResponseInfo {
    fn default() -> (r: Self)
        ensures
            r@ == (ResponseInfoView {
                http_version: Seq::empty(),
                status_code: 0,
                status_message: Seq::empty(),
            }),
    {
        ResponseInfo { http_version: String::new(), status_code: 0, status_message: String::new() }
    }
}

/// What a status line means. The version is what stands before the first
/// blank, the status code what stands between the first blank and the second,
/// and the message everything after the second blank (empty when there is
/// none).
pub open spec fn status_line(line: Seq<char>) -> Result<ResponseInfoView, ParseError> {
    if !line.contains(' ') {
        Err(ParseError::MissingStatusCode)
    } else {
        let rest = after(line, ' ');
        match decimal_value(before(rest, ' '), 65535) {
            Some(code) => Ok(
                ResponseInfoView {
                    http_version: before(line, ' '),
                    status_code: code as u16,
                    status_message: after(rest, ' '),
                },
            ),
            None => Err(ParseError::InvalidStatusCode),
        }
    }
}

/// A status line written as version, blank, status code, blank and message
/// reads back as these three, when the version holds no blank.
pub proof fn lemma_status_line_written(version: Seq<char>, code: u16, message: Seq<char>)
    requires
        !version.contains(' '),
    ensures
        status_line(version + seq![' '] + decimal(code as nat) + seq![' '] + message) == Ok::<
            ResponseInfoView,
            ParseError,
        >(ResponseInfoView { http_version: version, status_code: code, status_message: message }),
{
    let number = decimal(code as nat);
    let rest = number + seq![' '] + message;
    let line = version + seq![' '] + number + seq![' '] + message;
    assert(line =~= version + seq![' '] + rest);
    lemma_cut(version, ' ', rest);
    lemma_decimal_value_of_decimal(code as nat, 65535);
    assert(!number.contains(' ')) by {
        if number.contains(' ') {
            let j = choose|j: int| 0 <= j < number.len() && number[j] == ' ';
            assert(is_digit(number[j]));
        }
    }
    lemma_cut(number, ' ', message);
}

impl ResponseInfo {
    /// Reads a status line, such as `HTTP/1.1 200 OK`.
    ///
    /// A line without a blank is refused, and so is one whose status code is
    /// no number from 0 to 65535.
    pub fn parse_response_info(response: &str) -> (r: Result<ResponseInfo, ParseError>)
        ensures
            match status_line(response@) {
                Ok(info) => r is Ok && r->Ok_0@ == info,
                Err(e) => r == Err::<ResponseInfo, ParseError>(e),
            },
    {
        let chars = to_chars(response);
        let line = chars.as_slice();
        if !has_char(line, ' ') {
            return Err(ParseError::MissingStatusCode);
        }
        let version = cut_before(line, ' ');
        let rest = cut_after(line, ' ');
        let status_code: u16 = match parse_decimal(cut_before(rest, ' '), 65535) {
            Some(n) => n as u16,
            None => {
                return Err(ParseError::InvalidStatusCode);
            },
        };
        let status_message = from_chars(cut_after(rest, ' '));
        Ok(ResponseInfo { http_version: from_chars(version), status_code, status_message })
    }
}

// ---------------------------------------------------------------------------
// The head of a reply
// ---------------------------------------------------------------------------

/// The head of a reply: the status line, the headers in their order, and the
/// length of the body as the headers announce it.
#[derive(Debug)]
pub struct ResponseHead {
    /// The status line
    pub response_info: ResponseInfo,
    /// The headers, in their order
    pub headers: Vec<Header>,
    /// The value of the `Content-Length` header, or -1 when there is none or
    /// it is no number
    pub content_length: i64,
}

/// What a `ResponseHead` holds, as mathematical values.
pub struct ResponseHeadView {
    pub response_info: ResponseInfoView,
    pub headers: Seq<Pair>,
    pub content_length: i64,
}

impl View for ResponseHead {
    type V = ResponseHeadView;

    open spec fn view(&self) -> ResponseHeadView {
        ResponseHeadView {
            response_info: self.response_info@,
            headers: header_views(self.headers@),
            content_length: self.content_length,
        }
    }
}

/// The length that `headers` announce for the body: the number in the first
/// header named exactly `Content-Length`, or -1 when there is no such header
/// or its value is no number from 0 to 2^63 - 1.
pub open spec fn content_length_of(headers: Seq<Pair>) -> i64 {
    match header_lookup(headers, "Content-Length"@) {
        Some(h) => match decimal_value(h.1, i64::MAX as int) {
            Some(n) => n as i64,
            None => -1i64,
        },
        None => -1i64,
    }
}

/// Every line of `lines` is a header line: it holds a colon.
pub open spec fn all_header_lines(lines: Seq<Seq<char>>) -> bool {
    forall|i: int| 0 <= i < lines.len() ==> (#[trigger] header_line(lines[i])) is Some
}

/// The headers that `lines` stand for, when each of them is a header line.
pub open spec fn headers_of(lines: Seq<Seq<char>>) -> Seq<Pair> {
    Seq::new(lines.len(), |i: int| header_line(lines[i])->0)
}

/// The length that `headers` announce for the body.
pub fn content_length(headers: &Vec<Header>) -> (n: i64)
    ensures
        n == content_length_of(header_views(headers@)),
        n >= -1,
{
    let i = find_header(headers, "Content-Length");
    if i < headers.len() {
        let chars = to_chars(headers[i].value.as_str());
        match parse_decimal(chars.as_slice(), 0x7fff_ffff_ffff_ffff) {
            Some(n) => n as i64,
            None => -1,
        }
    } else {
        -1
    }
}

// ---------------------------------------------------------------------------
// Reading the head, one byte at a time
// ---------------------------------------------------------------------------

/// The reader of a reply's head while it still needs bytes. It is in one of
/// two states: reading the status line, or reading header lines.
///
/// A line ends where a line feed follows a carriage return. Carriage returns
/// never belong to a line; every other byte does, a lone line feed too. Each
/// byte stands for the character with the same number.
#[derive(Debug)]
pub enum ResponseParser {
    /// The first line is being read.
    ReadingStatusLine {
        /// The characters of the line so far
        line: String,
        /// Whether the last byte was a carriage return
        after_cr: bool,
    },
    /// The status line was read; header lines are being read.
    ReadingHeaderLines {
        /// The status line
        info: ResponseInfo,
        /// The header lines that are complete, as they came
        lines: Vec<String>,
        /// The characters of the line so far
        line: String,
        /// Whether the last byte was a carriage return
        after_cr: bool,
    },
}

/// What a `ResponseParser` holds, as mathematical values.
pub enum ParserState {
    ReadingStatusLine { line: Seq<char>, after_cr: bool },
    ReadingHeaderLines {
        info: ResponseInfoView,
        lines: Seq<Seq<char>>,
        line: Seq<char>,
        after_cr: bool,
    },
}

impl View for ResponseParser {
    type V = ParserState;

    open spec fn view(&self) -> ParserState {
        match self {
            ResponseParser::ReadingStatusLine { line, after_cr } => ParserState::ReadingStatusLine {
                line: line@,
                after_cr: *after_cr,
            },
            ResponseParser::ReadingHeaderLines {
                info,
                lines,
                line,
                after_cr,
            } => ParserState::ReadingHeaderLines {
                info: info@,
                lines: string_texts(lines@),
                line: line@,
                after_cr: *after_cr,
            },
        }
    }
}

/// What became of the reader after a byte: it needs more, or the head is
/// complete, or the reply is refused.
#[derive(Debug)]
pub enum Step {
    /// The head is not complete: go on with this reader.
    More(ResponseParser),
    /// The head is complete. The next byte of the stream is the first of the
    /// body.
    Done(ResponseHead),
    /// The reply is refused.
    Failed(RequestErrors),
}

/// What a `Step` holds, as mathematical values.
pub enum StepView {
    More(ParserState),
    Done(ResponseHeadView),
    Failed(RequestErrorsView),
}

impl View for Step {
    type V = StepView;

    open spec fn view(&self) -> StepView {
        match self {
            Step::More(parser) => StepView::More(parser@),
            Step::Done(head) => StepView::Done(head@),
            Step::Failed(error) => StepView::Failed(error@),
        }
    }
}

/// What reading from the stream gave.
#[derive(Debug)]
pub enum ReadEvent {
    /// One byte.
    Byte(u8),
    /// Nothing: the read returned no byte, the peer has closed the stream.
    Closed,
    /// An error; the text describes it.
    Failed(String),
}

/// What a `ReadEvent` holds, as mathematical values.
pub enum ReadEventView {
    Byte(u8),
    Closed,
    Failed(Seq<char>),
}

impl View for ReadEvent {
    type V = ReadEventView;

    open spec fn view(&self) -> ReadEventView {
        match self {
            ReadEvent::Byte(byte) => ReadEventView::Byte(*byte),
            ReadEvent::Closed => ReadEventView::Closed,
            ReadEvent::Failed(detail) => ReadEventView::Failed(detail@),
        }
    }
}

/// The state before the first byte.
pub open spec fn initial_state() -> ParserState {
    ParserState::ReadingStatusLine { line: Seq::empty(), after_cr: false }
}

/// The end of the head, when the empty line came after the status line `info`
/// and the header lines `lines`: the head, or a refusal when one of the lines
/// is no header line.
pub open spec fn head_of(info: ResponseInfoView, lines: Seq<Seq<char>>) -> StepView {
    if all_header_lines(lines) {
        StepView::Done(
            ResponseHeadView {
                response_info: info,
                headers: headers_of(lines),
                content_length: content_length_of(headers_of(lines)),
            },
        )
    } else {
        StepView::Failed(RequestErrorsView::ConnectionError("Malformed response header"@))
    }
}

/// What one byte does to the reader.
///
/// A line feed after a carriage return ends the line. The first line must be
/// a status line, else the reply is refused at once. A later line that is
/// empty ends the head: then every line in between must be a header line,
/// else the reply is refused. A carriage return is remembered and dropped.
/// Every other byte goes to the end of the line.
pub open spec fn step(state: ParserState, byte: u8) -> StepView {
    let c = byte as char;
    match state {
        ParserState::ReadingStatusLine { line, after_cr } => {
            if after_cr && c == '\n' {
                match status_line(line) {
                    Ok(info) => StepView::More(
                        ParserState::ReadingHeaderLines {
                            info,
                            lines: Seq::empty(),
                            line: Seq::empty(),
                            after_cr: false,
                        },
                    ),
                    Err(_) => StepView::Failed(
                        RequestErrorsView::ConnectionError("Malformed response"@),
                    ),
                }
            } else if c == '\r' {
                StepView::More(ParserState::ReadingStatusLine { line, after_cr: true })
            } else {
                StepView::More(
                    ParserState::ReadingStatusLine { line: line.push(c), after_cr: false },
                )
            }
        },
        ParserState::ReadingHeaderLines { info, lines, line, after_cr } => {
            if after_cr && c == '\n' {
                if line.len() == 0 {
                    head_of(info, lines)
                } else {
                    StepView::More(
                        ParserState::ReadingHeaderLines {
                            info,
                            lines: lines.push(line),
                            line: Seq::empty(),
                            after_cr: false,
                        },
                    )
                }
            } else if c == '\r' {
                StepView::More(
                    ParserState::ReadingHeaderLines { info, lines, line, after_cr: true },
                )
            } else {
                StepView::More(
                    ParserState::ReadingHeaderLines {
                        info,
                        lines,
                        line: line.push(c),
                        after_cr: false,
                    },
                )
            }
        },
    }
}

/// What an event does to the reader: a byte is a step; a closed stream or a
/// failed read refuses the reply, since the head is not complete.
pub open spec fn advance_to(state: ParserState, event: ReadEventView) -> StepView {
    match event {
        ReadEventView::Byte(byte) => step(state, byte),
        ReadEventView::Closed => StepView::Failed(
            RequestErrorsView::ConnectionError("Connection closed before the end of the headers"@),
        ),
        ReadEventView::Failed(detail) => StepView::Failed(
            RequestErrorsView::ConnectionError(detail),
        ),
    }
}

/// What a run of bytes does to the reader, and how many of them it takes:
/// the steps are made one after the other until the head is complete, the
/// reply is refused, or the bytes are used up. Bytes after the end of the
/// head are not taken.
pub open spec fn run(state: ParserState, bytes: Seq<u8>) -> (StepView, nat)
    decreases bytes.len(),
{
    if bytes.len() == 0 {
        (StepView::More(state), 0)
    } else {
        match step(state, bytes[0]) {
            StepView::More(next) => {
                let rest = run(next, bytes.drop_first());
                (rest.0, rest.1 + 1)
            },
            end => (end, 1),
        }
    }
}

/// Ends the head: reads every line as a header.
fn finish_head(info: ResponseInfo, lines: Vec<String>) -> (r: Step)
    ensures
        r@ == head_of(info@, string_texts(lines@)),
{
    let ghost texts = string_texts(lines@);
    let mut headers: Vec<Header> = Vec::new();
    let mut k: usize = 0;
    while k < lines.len()
        invariant
            k <= lines.len(),
            texts == string_texts(lines@),
            all_header_lines(texts.take(k as int)),
            header_views(headers@) == headers_of(texts.take(k as int)),
        decreases lines.len() - k,
    {
        let ghost prev = header_views(headers@);
        match Header::parse(lines[k].as_str()) {
            Ok(header) => {
                headers.push(header);
                proof {
                    let upto = texts.take(k + 1);
                    assert forall|i: int| 0 <= i < upto.len() implies (#[trigger] header_line(
                        upto[i],
                    )) is Some by {
                        if i < k {
                            assert(upto[i] == texts.take(k as int)[i]);
                        }
                    }
                    assert(header_views(headers@) =~= prev.push(header@));
                    assert(headers_of(upto) =~= headers_of(texts.take(k as int)).push(header@));
                }
            },
            Err(_) => {
                assert(header_line(texts[k as int]) is None);
                return Step::Failed(
                    RequestErrors::ConnectionError("Malformed response header".to_owned()),
                );
            },
        }
        k += 1;
    }
    assert(texts.take(k as int) =~= texts);
    let content_length = content_length(&headers);
    Step::Done(ResponseHead { response_info: info, headers, content_length })
}

impl ResponseParser {
    /// The reader before the first byte.
    pub fn new() -> (r: ResponseParser)
        ensures
            r@ == initial_state(),
    {
        ResponseParser::ReadingStatusLine { line: String::new(), after_cr: false }
    }

    /// Takes one byte.
    pub fn feed(self, byte: u8) -> (r: Step)
        ensures
            r@ == step(self@, byte),
    {
        let c = byte as char;
        match self {
            ResponseParser::ReadingStatusLine { mut line, after_cr } => {
                if after_cr && c == '\n' {
                    match ResponseInfo::parse_response_info(line.as_str()) {
                        Ok(info) => {
                            let lines: Vec<String> = Vec::new();
                            assert(string_texts(lines@) =~= Seq::empty());
                            Step::More(
                                ResponseParser::ReadingHeaderLines {
                                    info,
                                    lines,
                                    line: String::new(),
                                    after_cr: false,
                                },
                            )
                        },
                        Err(_) => Step::Failed(
                            RequestErrors::ConnectionError("Malformed response".to_owned()),
                        ),
                    }
                } else if c == '\r' {
                    Step::More(ResponseParser::ReadingStatusLine { line, after_cr: true })
                } else {
                    line.push(c);
                    Step::More(ResponseParser::ReadingStatusLine { line, after_cr: false })
                }
            },
            ResponseParser::ReadingHeaderLines { info, mut lines, mut line, after_cr } => {
                if after_cr && c == '\n' {
                    if line.as_str().is_empty() {
                        finish_head(info, lines)
                    } else {
                        let ghost prev = string_texts(lines@);
                        let ghost text = line@;
                        lines.push(line);
                        assert(string_texts(lines@) =~= prev.push(text));
                        Step::More(
                            ResponseParser::ReadingHeaderLines {
                                info,
                                lines,
                                line: String::new(),
                                after_cr: false,
                            },
                        )
                    }
                } else if c == '\r' {
                    Step::More(
                        ResponseParser::ReadingHeaderLines { info, lines, line, after_cr: true },
                    )
                } else {
                    line.push(c);
                    Step::More(
                        ResponseParser::ReadingHeaderLines { info, lines, line, after_cr: false },
                    )
                }
            },
        }
    }

    /// Takes what a read from the stream gave: a byte, or the news that the
    /// stream is closed or broken, which refuses the reply.
    pub fn advance(self, event: ReadEvent) -> (r: Step)
        ensures
            r@ == advance_to(self@, event@),
    {
        match event {
            ReadEvent::Byte(byte) => self.feed(byte),
            ReadEvent::Closed => Step::Failed(
                RequestErrors::ConnectionError(
                    "Connection closed before the end of the headers".to_owned(),
                ),
            ),
            ReadEvent::Failed(detail) => Step::Failed(RequestErrors::ConnectionError(detail)),
        }
    }

    /// Takes bytes from the front of `bytes` until the head is complete, the
    /// reply is refused or the bytes are used up, and tells how many it took.
    pub fn feed_all(self, bytes: &[u8]) -> (r: (Step, usize))
        ensures
            (r.0@, r.1 as nat) == run(self@, bytes@),
            r.1 <= bytes@.len(),
    {
        let mut parser = self;
        let mut i: usize = 0;
        assert(bytes@.skip(0) =~= bytes@);
        while i < bytes.len()
            invariant
                i <= bytes.len(),
                run(self@, bytes@) == ({
                    let rest = run(parser@, bytes@.skip(i as int));
                    (rest.0, rest.1 + i as nat)
                }),
            decreases bytes.len() - i,
        {
            proof {
                assert(bytes@.skip(i as int)[0] == bytes@[i as int]);
                assert(bytes@.skip(i as int).drop_first() =~= bytes@.skip(i + 1));
            }
            match parser.feed(bytes[i]) {
                Step::More(next) => {
                    parser = next;
                },
                end => {
                    return (end, i + 1);
                },
            }
            i += 1;
        }
        assert(bytes@.skip(i as int).len() == 0);
        (Step::More(parser), i)
    }
}

// ---------------------------------------------------------------------------
// Reading the body
// ---------------------------------------------------------------------------

/// How much of a body was read, against the length that the headers
/// announced.
#[derive(Debug, Clone, Copy, PartialEq, Eq)]
pub struct BodyProgress {
    bytes_read: u64,
    content_length: i64,
}

impl View for BodyProgress {
    type V = (u64, i64);

    /// The number of bytes read, and the announced length (-1: unknown).
    closed spec fn view(&self) -> (u64, i64) {
        (self.bytes_read, self.content_length)
    }
}

/// Whether a body is complete: its length is known and that many bytes were
/// read.
pub open spec fn is_complete(bytes_read: u64, content_length: i64) -> bool {
    content_length >= 0 && bytes_read == content_length
}

/// A body without an announced length is never complete: where no header is
/// named `Content-Length`, the length is -1 and the body is not complete
/// whatever number of bytes was read.
pub proof fn lemma_unknown_length(headers: Seq<Pair>, bytes_read: u64)
    requires
        header_lookup(headers, "Content-Length"@) is None,
    ensures
        content_length_of(headers) == -1,
        !is_complete(bytes_read, content_length_of(headers)),
{
}

/// A body of a known length is complete exactly when that many bytes were
/// read.
pub proof fn lemma_known_length(bytes_read: u64, content_length: i64)
    requires
        content_length >= 0,
    ensures
        is_complete(bytes_read, content_length) <==> bytes_read == content_length,
{
}

impl BodyProgress {
    /// The start of a body of the length `content_length`; -1 stands for an
    /// unknown length.
    pub fn new(content_length: i64) -> (r: BodyProgress)
        ensures
            r@ == (0u64, content_length),
    {
        BodyProgress { bytes_read: 0, content_length }
    }

    /// The number of bytes read so far.
    pub fn bytes_read(&self) -> (r: u64)
        ensures
            r == self@.0,
    {
        self.bytes_read
    }

    /// The announced length of the body, or -1 when it is unknown.
    pub fn content_length(&self) -> (r: i64)
        ensures
            r == self@.1,
    {
        self.content_length
    }

    /// Counts `n` more bytes as read. Reading past a known length is not
    /// stopped here.
    pub fn record(&mut self, n: usize)
        requires
            old(self)@.0 + n <= u64::MAX,
        ensures
            final(self)@ == ((old(self)@.0 + n) as u64, old(self)@.1),
    {
        self.bytes_read = self.bytes_read + n as u64;
    }

    /// Whether the body is complete. Never so when the length is unknown.
    pub fn complete(&self) -> (r: bool)
        ensures
            r == is_complete(self@.0, self@.1),
    {
        self.content_length >= 0 && self.bytes_read == self.content_length as u64
    }
}

} // verus!
