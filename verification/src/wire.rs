//! The head of a reply as it stands on the wire, and the proof that the
//! reader of `response` recognises it: every head of that form is read to
//! its last byte and no further, whatever follows it.

use crate::error::RequestErrorsView;
use crate::request::header_line;
use crate::response::{
    all_header_lines, content_length_of, head_of, headers_of, initial_state, run, status_line, step,
    ParserState, ResponseHeadView, StepView,
};
use vstd::prelude::*;

verus! {

/// Carriage return.
pub const CR: u8 = 13;

/// Line feed.
pub const LF: u8 = 10;

/// The characters that bytes stand for: each byte is the character with the
/// same number.
pub open spec fn latin1(bytes: Seq<u8>) -> Seq<char> {
    Seq::new(bytes.len(), |i: int| bytes[i] as char)
}

/// The texts that lines of bytes stand for.
pub open spec fn latin1_lines(lines: Seq<Seq<u8>>) -> Seq<Seq<char>> {
    Seq::new(lines.len(), |i: int| latin1(lines[i]))
}

/// `line` holds no carriage return.
pub open spec fn cr_free(line: Seq<u8>) -> bool {
    forall|i: int| 0 <= i < line.len() ==> line[i] != CR
}

/// Lines that can stand as header lines on the wire: none of them is empty,
/// and none holds a carriage return.
pub open spec fn wire_ready(lines: Seq<Seq<u8>>) -> bool {
    forall|i: int| 0 <= i < lines.len() ==> cr_free(#[trigger] lines[i]) && lines[i].len() > 0
}

/// The lines, each followed by carriage return and line feed.
pub open spec fn wire_lines(lines: Seq<Seq<u8>>) -> Seq<u8>
    decreases lines.len(),
{
    if lines.len() == 0 {
        Seq::empty()
    } else {
        lines[0] + seq![CR, LF] + wire_lines(lines.drop_first())
    }
}

/// The head of a reply on the wire: the status line, the header lines and an
/// empty line, each followed by carriage return and line feed.
pub open spec fn wire_head(status: Seq<u8>, headers: Seq<Seq<u8>>) -> Seq<u8> {
    status + seq![CR, LF] + wire_lines(headers) + seq![CR, LF]
}

/// `state` with `text` added to the line that is being read, and the last
/// byte no carriage return.
spec fn with_text(state: ParserState, text: Seq<char>) -> ParserState {
    match state {
        ParserState::ReadingStatusLine { line, after_cr } => ParserState::ReadingStatusLine {
            line: line + text,
            after_cr: false,
        },
        ParserState::ReadingHeaderLines {
            info,
            lines,
            line,
            after_cr,
        } => ParserState::ReadingHeaderLines { info, lines, line: line + text, after_cr: false },
    }
}

/// Whether the last byte that `state` has seen was a carriage return.
spec fn after_cr(state: ParserState) -> bool {
    match state {
        ParserState::ReadingStatusLine { line, after_cr } => after_cr,
        ParserState::ReadingHeaderLines { info, lines, line, after_cr } => after_cr,
    }
}

/// `state` after a carriage return.
spec fn with_cr(state: ParserState) -> ParserState {
    match state {
        ParserState::ReadingStatusLine { line, after_cr } => ParserState::ReadingStatusLine {
            line,
            after_cr: true,
        },
        ParserState::ReadingHeaderLines {
            info,
            lines,
            line,
            after_cr,
        } => ParserState::ReadingHeaderLines { info, lines, line, after_cr: true },
    }
}

/// A run that is counted from `n` bytes further back.
pub open spec fn later(r: (StepView, nat), n: nat) -> (StepView, nat) {
    (r.0, r.1 + n)
}

/// A run over `a` that leaves the reader wanting more has taken all of `a`;
/// a run over `a + b` then goes on over `b` from where that left off. A run
/// over `a` that stops is not changed by what follows `a`.
pub proof fn lemma_run_concat(state: ParserState, a: Seq<u8>, b: Seq<u8>)
    ensures
        match run(state, a).0 {
            StepView::More(next) => run(state, a).1 == a.len() && run(state, a + b) == later(
                run(next, b),
                a.len(),
            ),
            _ => run(state, a + b) == run(state, a) && 1 <= run(state, a).1 <= a.len(),
        },
    decreases a.len(),
{
    if a.len() == 0 {
        assert(a + b =~= b);
    } else {
        let ab = a + b;
        assert(ab[0] == a[0]);
        assert(ab.drop_first() =~= a.drop_first() + b);
        match step(state, a[0]) {
            StepView::More(next) => {
                lemma_run_concat(next, a.drop_first(), b);
            },
            _ => {},
        }
    }
}

/// Bytes other than carriage returns go to the end of the line, one by one.
proof fn lemma_run_text(state: ParserState, line: Seq<u8>)
    requires
        cr_free(line),
        !after_cr(state),
    ensures
        run(state, line) == (StepView::More(with_text(state, latin1(line))), line.len()),
    decreases line.len(),
{
    if line.len() == 0 {
        assert(latin1(line) =~= Seq::<char>::empty());
        match state {
            ParserState::ReadingStatusLine { line: l, after_cr } => {
                assert(l + latin1(line) =~= l);
            },
            ParserState::ReadingHeaderLines { info, lines, line: l, after_cr } => {
                assert(l + latin1(line) =~= l);
            },
        }
    } else {
        let c = line[0] as char;
        let rest = line.drop_first();
        assert(line[0] != CR);
        assert(c != '\r');
        assert(cr_free(rest)) by {
            assert forall|i: int| 0 <= i < rest.len() implies rest[i] != CR by {
                assert(rest[i] == line[i + 1]);
            }
        }
        let next = with_text(state, seq![c]);
        match state {
            ParserState::ReadingStatusLine { line: l, after_cr } => {
                assert(l.push(c) =~= l + seq![c]);
                assert(step(state, line[0]) == StepView::More(next));
                assert((l + seq![c]) + latin1(rest) =~= l + latin1(line));
            },
            ParserState::ReadingHeaderLines { info, lines, line: l, after_cr } => {
                assert(l.push(c) =~= l + seq![c]);
                assert(step(state, line[0]) == StepView::More(next));
                assert((l + seq![c]) + latin1(rest) =~= l + latin1(line));
            },
        }
        lemma_run_text(next, rest);
        assert(with_text(next, latin1(rest)) == with_text(state, latin1(line)));
    }
}

/// What a line without carriage returns, followed by carriage return and line
/// feed, does to a reader whose last byte was no carriage return: it is one
/// step with the line feed, made with the whole line in place.
proof fn lemma_run_line(state: ParserState, line: Seq<u8>, rest: Seq<u8>)
    requires
        cr_free(line),
        !after_cr(state),
    ensures
        run(state, line + seq![CR, LF] + rest) == match step(
            with_cr(with_text(state, latin1(line))),
            LF,
        ) {
            StepView::More(next) => later(run(next, rest), line.len() + 2),
            end => (end, line.len() + 2),
        },
{
    let filled = with_text(state, latin1(line));
    let ready = with_cr(filled);
    let end_of_line = seq![CR, LF];
    lemma_run_text(state, line);
    lemma_run_concat(state, line, end_of_line + rest);
    assert(line + end_of_line + rest =~= line + (end_of_line + rest));
    // the carriage return
    let tail = end_of_line + rest;
    assert(tail[0] == CR);
    assert(tail.drop_first() =~= seq![LF] + rest);
    assert(step(filled, CR) == StepView::More(ready));
    // the line feed
    let tail2 = seq![LF] + rest;
    assert(tail2[0] == LF);
    assert(tail2.drop_first() =~= rest);
    assert(run(filled, tail) == later(run(ready, tail2), 1));
    match step(ready, LF) {
        StepView::More(next) => {
            assert(run(ready, tail2) == later(run(next, rest), 1));
        },
        _ => {},
    }
}

/// Header lines on the wire go to the reader's lines, one by one.
proof fn lemma_run_header_lines(
    info: crate::response::ResponseInfoView,
    done: Seq<Seq<char>>,
    headers: Seq<Seq<u8>>,
    rest: Seq<u8>,
)
    requires
        wire_ready(headers),
    ensures
        run(
            ParserState::ReadingHeaderLines {
                info,
                lines: done,
                line: Seq::empty(),
                after_cr: false,
            },
            wire_lines(headers) + rest,
        ) == later(
            run(
                ParserState::ReadingHeaderLines {
                    info,
                    lines: done + latin1_lines(headers),
                    line: Seq::empty(),
                    after_cr: false,
                },
                rest,
            ),
            wire_lines(headers).len(),
        ),
    decreases headers.len(),
{
    let state = ParserState::ReadingHeaderLines {
        info,
        lines: done,
        line: Seq::empty(),
        after_cr: false,
    };
    if headers.len() == 0 {
        assert(wire_lines(headers) + rest =~= rest);
        assert(done + latin1_lines(headers) =~= done);
    } else {
        let first = headers[0];
        let others = headers.drop_first();
        assert(cr_free(first) && first.len() > 0);
        assert forall|i: int| 0 <= i < others.len() implies cr_free(#[trigger] others[i])
            && others[i].len() > 0 by {
            assert(others[i] == headers[i + 1]);
        }
        let tail = wire_lines(others) + rest;
        assert(wire_lines(headers) + rest =~= first + seq![CR, LF] + tail);
        lemma_run_line(state, first, tail);
        let text = latin1(first);
        assert(Seq::<char>::empty() + text =~= text);
        assert(text.len() > 0);
        let next = ParserState::ReadingHeaderLines {
            info,
            lines: done.push(text),
            line: Seq::empty(),
            after_cr: false,
        };
        assert(step(with_cr(with_text(state, text)), LF) == StepView::More(next));
        lemma_run_header_lines(info, done.push(text), others, rest);
        assert(done.push(text) + latin1_lines(others) =~= done + latin1_lines(headers)) by {
            assert forall|i: int| 0 <= i < headers.len() implies (done.push(text) + latin1_lines(
                others,
            ))[done.len() + i] == latin1_lines(headers)[i] by {
                if i > 0 {
                    assert(others[i - 1] == headers[i]);
                }
            }
        }
        assert(wire_lines(headers).len() == first.len() + 2 + wire_lines(others).len());
    }
}

/// The reader recognises every head on the wire, and stops at its end.
///
/// Take a status line and header lines without carriage returns, the header
/// lines not empty, written out as `wire_head` says, and followed by any
/// bytes at all. If the status line is malformed, the reply is refused as
/// soon as that line ends. Otherwise the run ends with the last byte of the
/// head: with the head, when every header line holds a colon, and else with
/// the refusal of the whole reply. The bytes that follow the head are never
/// taken.
pub proof fn lemma_run_head(status: Seq<u8>, headers: Seq<Seq<u8>>, body: Seq<u8>)
    requires
        cr_free(status),
        wire_ready(headers),
    ensures
        run(initial_state(), wire_head(status, headers) + body) == (match status_line(
            latin1(status),
        ) {
            Ok(info) => (
                head_of(info, latin1_lines(headers)),
                wire_head(status, headers).len(),
            ),
            Err(_) => (
                StepView::Failed(RequestErrorsView::ConnectionError("Malformed response"@)),
                (status.len() + 2) as nat,
            ),
        }),
{
    let end_of_line = seq![CR, LF];
    let tail = wire_lines(headers) + end_of_line + body;
    assert(wire_head(status, headers) + body =~= status + end_of_line + tail);
    lemma_run_line(initial_state(), status, tail);
    let text = latin1(status);
    assert(Seq::<char>::empty() + text =~= text);
    match status_line(text) {
        Ok(info) => {
            let start = ParserState::ReadingHeaderLines {
                info,
                lines: Seq::empty(),
                line: Seq::empty(),
                after_cr: false,
            };
            assert(step(with_cr(with_text(initial_state(), text)), LF) == StepView::More(start));
            let last = end_of_line + body;
            assert(tail =~= wire_lines(headers) + last);
            lemma_run_header_lines(info, Seq::empty(), headers, last);
            let lines = latin1_lines(headers);
            assert(Seq::<Seq<char>>::empty() + lines =~= lines);
            let ready = ParserState::ReadingHeaderLines {
                info,
                lines,
                line: Seq::empty(),
                after_cr: false,
            };
            let empty_line = Seq::<u8>::empty();
            assert(cr_free(empty_line));
            assert(last =~= empty_line + end_of_line + body);
            lemma_run_line(ready, empty_line, body);
            assert(latin1(empty_line) =~= Seq::<char>::empty());
            assert(Seq::<char>::empty() + latin1(empty_line) =~= Seq::<char>::empty());
            assert(step(with_cr(with_text(ready, latin1(empty_line))), LF) == head_of(info, lines));
            assert(wire_head(status, headers).len() == status.len() + 2 + wire_lines(
                headers,
            ).len() + 2);
        },
        Err(_) => {},
    }
}

/// A well-formed head is read as what it says. When the status line is a
/// status line and every header line holds a colon, the run ends with the
/// last byte of the head and gives the status line, the headers in their
/// order and the length that they announce.
pub proof fn lemma_head_accepted(status: Seq<u8>, headers: Seq<Seq<u8>>, body: Seq<u8>)
    requires
        cr_free(status),
        wire_ready(headers),
        status_line(latin1(status)) is Ok,
        all_header_lines(latin1_lines(headers)),
    ensures
        run(initial_state(), wire_head(status, headers) + body) == (
            StepView::Done(
                ResponseHeadView {
                    response_info: status_line(latin1(status))->Ok_0,
                    headers: headers_of(latin1_lines(headers)),
                    content_length: content_length_of(headers_of(latin1_lines(headers))),
                },
            ),
            wire_head(status, headers).len(),
        ),
{
    lemma_run_head(status, headers, body);
}

/// One header line without a colon refuses the whole reply. When the status
/// line is a status line but some header line holds no colon, the run gives
/// no head at all: it ends, at the last byte of the head, with the error
/// `Malformed response header`.
pub proof fn lemma_head_refused(status: Seq<u8>, headers: Seq<Seq<u8>>, body: Seq<u8>, bad: int)
    requires
        cr_free(status),
        wire_ready(headers),
        status_line(latin1(status)) is Ok,
        0 <= bad < headers.len(),
        !latin1(headers[bad]).contains(':'),
    ensures
        run(initial_state(), wire_head(status, headers) + body) == (
            StepView::Failed(RequestErrorsView::ConnectionError("Malformed response header"@)),
            wire_head(status, headers).len(),
        ),
{
    lemma_run_head(status, headers, body);
    let lines = latin1_lines(headers);
    assert(lines[bad] == latin1(headers[bad]));
    assert(header_line(lines[bad]) is None);
}

/// The reader does not stop before the head ends. Over the first `k` bytes
/// of a head with a well-formed status line, for every `k` below the length
/// of the head, it takes all `k` bytes and wants more.
pub proof fn lemma_head_not_early(status: Seq<u8>, headers: Seq<Seq<u8>>, k: int)
    requires
        cr_free(status),
        wire_ready(headers),
        status_line(latin1(status)) is Ok,
        0 <= k < wire_head(status, headers).len(),
    ensures
        run(initial_state(), wire_head(status, headers).take(k)).0 is More,
        run(initial_state(), wire_head(status, headers).take(k)).1 == k,
{
    let head = wire_head(status, headers);
    let part = head.take(k);
    let rest = head.skip(k);
    assert(part + rest =~= head);
    assert(head + Seq::<u8>::empty() =~= head);
    lemma_run_head(status, headers, Seq::empty());
    lemma_run_concat(initial_state(), part, rest);
}

} // verus!
