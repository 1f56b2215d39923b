use menemen::error::{ParseError, RequestErrors};
use menemen::response::{
    content_length, BodyProgress, ReadEvent, ResponseInfo, ResponseParser, Step,
};
use menemen::request::Header;

fn header(name: &str, value: &str) -> Header {
    Header {
        name: name.to_string(),
        value: value.to_string(),
    }
}

/// Feeds the bytes one by one; gives the last step and the number of bytes taken.
fn feed_each(bytes: &[u8]) -> (Step, usize) {
    let mut parser = ResponseParser::new();
    for (i, b) in bytes.iter().enumerate() {
        match parser.feed(*b) {
            Step::More(next) => parser = next,
            end => return (end, i + 1),
        }
    }
    (Step::More(parser), bytes.len())
}

#[test]
fn url_test() {
    let header = ResponseInfo::parse_response_info("HTTP/1.1 200 OK").unwrap();
    assert_eq!(header.status_code, 200);
    assert_eq!(header.status_message, "OK");
    assert_eq!(header.http_version, "HTTP/1.1");
}

#[test]
fn status_message_is_everything_after_the_second_blank() {
    let info = ResponseInfo::parse_response_info("HTTP/1.1 404 Not Found").unwrap();
    assert_eq!(info.status_code, 404);
    assert_eq!(info.status_message, "Not Found");
    let info = ResponseInfo::parse_response_info("HTTP/1.0 204").unwrap();
    assert_eq!(info.http_version, "HTTP/1.0");
    assert_eq!(info.status_code, 204);
    assert_eq!(info.status_message, "");
    let info = ResponseInfo::parse_response_info("HTTP/1.1 200 ").unwrap();
    assert_eq!(info.status_message, "");
    let info = ResponseInfo::parse_response_info(" 65535 a  b").unwrap();
    assert_eq!(info.http_version, "");
    assert_eq!(info.status_code, 65535);
    assert_eq!(info.status_message, "a  b");
}

#[test]
fn status_line_errors() {
    assert_eq!(
        ResponseInfo::parse_response_info("HTTP/1.1").unwrap_err(),
        ParseError::MissingStatusCode
    );
    assert_eq!(
        ResponseInfo::parse_response_info("").unwrap_err(),
        ParseError::MissingStatusCode
    );
    assert_eq!(
        ResponseInfo::parse_response_info("HTTP/1.1 abc OK").unwrap_err(),
        ParseError::InvalidStatusCode
    );
    assert_eq!(
        ResponseInfo::parse_response_info("HTTP/1.1  200 OK").unwrap_err(),
        ParseError::InvalidStatusCode
    );
    assert_eq!(
        ResponseInfo::parse_response_info("HTTP/1.1 65536 OK").unwrap_err(),
        ParseError::InvalidStatusCode
    );
    assert_eq!(
        ResponseInfo::parse_response_info("HTTP/1.1 -1 OK").unwrap_err(),
        ParseError::InvalidStatusCode
    );
}

#[test]
fn default_response_info_is_empty() {
    let info = ResponseInfo::default();
    assert_eq!(info.http_version, "");
    assert_eq!(info.status_code, 0);
    assert_eq!(info.status_message, "");
}

#[test]
fn head_is_read_and_the_body_is_left() {
    let bytes = b"HTTP/1.1 200 OK\r\nContent-Length: 5\r\n\r\nhello";
    let (step, taken) = ResponseParser::new().feed_all(bytes);
    let head = match step {
        Step::Done(head) => head,
        other => panic!("no head: {:?}", other),
    };
    assert_eq!(taken, bytes.len() - 5);
    assert_eq!(&bytes[taken..], b"hello");
    assert_eq!(head.response_info.http_version, "HTTP/1.1");
    assert_eq!(head.response_info.status_code, 200);
    assert_eq!(head.response_info.status_message, "OK");
    assert_eq!(head.headers.len(), 1);
    assert_eq!(head.headers[0].name, "Content-Length");
    assert_eq!(head.headers[0].value, "5");
    assert_eq!(head.content_length, 5);

    let mut body = BodyProgress::new(head.content_length);
    assert!(!body.complete());
    body.record(2);
    assert_eq!(body.bytes_read(), 2);
    assert!(!body.complete());
    body.record(3);
    assert_eq!(body.bytes_read(), 5);
    assert_eq!(body.content_length(), 5);
    assert!(body.complete());
    // reading past the length is not stopped, and is no longer complete
    body.record(1);
    assert!(!body.complete());
}

#[test]
fn byte_by_byte_is_the_same_as_all_at_once() {
    let bytes = b"HTTP/1.1 301 Moved Permanently\r\nLocation: http://example.com/\r\nX: y\r\n\r\nrest";
    let (step, taken) = feed_each(bytes);
    let (all, all_taken) = ResponseParser::new().feed_all(bytes);
    assert_eq!(taken, all_taken);
    assert_eq!(taken, bytes.len() - 4);
    match (step, all) {
        (Step::Done(a), Step::Done(b)) => {
            assert_eq!(a.response_info.status_code, 301);
            assert_eq!(a.response_info.status_message, "Moved Permanently");
            assert_eq!(b.response_info.status_code, 301);
            assert_eq!(a.headers.len(), 2);
            assert_eq!(b.headers.len(), 2);
            assert_eq!(a.headers[0].name, "Location");
            assert_eq!(a.headers[0].value, "http://example.com/");
            assert_eq!(a.headers[1].name, "X");
            assert_eq!(a.headers[1].value, "y");
            assert_eq!(a.content_length, -1);
            assert_eq!(b.content_length, -1);
        }
        other => panic!("no head: {:?}", other),
    }
}

#[test]
fn no_content_length_means_unknown_and_never_complete() {
    let bytes = b"HTTP/1.1 200 OK\r\nServer: x\r\n\r\n";
    let (step, taken) = ResponseParser::new().feed_all(bytes);
    assert_eq!(taken, bytes.len());
    let head = match step {
        Step::Done(head) => head,
        other => panic!("no head: {:?}", other),
    };
    assert_eq!(head.content_length, -1);
    let mut body = BodyProgress::new(head.content_length);
    assert!(!body.complete());
    body.record(0);
    assert!(!body.complete());
    body.record(1000);
    assert!(!body.complete());
    assert_eq!(body.bytes_read(), 1000);
    assert_eq!(body.content_length(), -1);
}

#[test]
fn content_length_lookup() {
    assert_eq!(content_length(&[].to_vec()), -1);
    assert_eq!(content_length(&vec![header("Content-Length", "0")]), 0);
    assert_eq!(content_length(&vec![header("Content-Length", "+12")]), 12);
    assert_eq!(
        content_length(&vec![header("Content-Length", "9223372036854775807")]),
        9223372036854775807
    );
    assert_eq!(
        content_length(&vec![header("Content-Length", "9223372036854775808")]),
        -1
    );
    assert_eq!(content_length(&vec![header("Content-Length", "")]), -1);
    assert_eq!(content_length(&vec![header("Content-Length", "12 ")]), -1);
    assert_eq!(content_length(&vec![header("Content-Length", "-5")]), -1);
    assert_eq!(content_length(&vec![header("content-length", "5")]), -1);
    // the first header of that name counts
    assert_eq!(
        content_length(&vec![
            header("A", "1"),
            header("Content-Length", "x"),
            header("Content-Length", "7")
        ]),
        -1
    );
    assert_eq!(
        content_length(&vec![
            header("Content-Length", "7"),
            header("Content-Length", "x")
        ]),
        7
    );
}

#[test]
fn a_header_line_without_colon_fails_the_whole_response() {
    let bytes = b"HTTP/1.1 200 OK\r\nContent-Length: 5\r\nbroken line\r\nA: b\r\n\r\nhello";
    let (step, taken) = ResponseParser::new().feed_all(bytes);
    assert_eq!(taken, bytes.len() - 5);
    match step {
        Step::Failed(e) => assert_eq!(
            e,
            RequestErrors::ConnectionError("Malformed response header".to_string())
        ),
        other => panic!("not refused: {:?}", other),
    }
    let (step, each_taken) = feed_each(bytes);
    assert_eq!(each_taken, taken);
    assert!(matches!(step, Step::Failed(_)));
}

#[test]
fn a_malformed_status_line_fails_at_once() {
    let bytes = b"garbage\r\nContent-Length: 5\r\n\r\n";
    let (step, taken) = ResponseParser::new().feed_all(bytes);
    assert_eq!(taken, 9);
    match step {
        Step::Failed(e) => assert_eq!(
            e,
            RequestErrors::ConnectionError("Malformed response".to_string())
        ),
        other => panic!("not refused: {:?}", other),
    }
    // an empty first line is no status line either
    let (step, taken) = ResponseParser::new().feed_all(b"\r\n\r\n");
    assert_eq!(taken, 2);
    assert!(matches!(step, Step::Failed(_)));
    let (step, _) = ResponseParser::new().feed_all(b"HTTP/1.1 2x0 OK\r\n\r\n");
    assert!(matches!(step, Step::Failed(RequestErrors::ConnectionError(_))));
}

#[test]
fn no_headers_at_all() {
    let bytes = b"HTTP/1.1 204 No Content\r\n\r\nbody";
    let (step, taken) = ResponseParser::new().feed_all(bytes);
    assert_eq!(taken, bytes.len() - 4);
    match step {
        Step::Done(head) => {
            assert_eq!(head.response_info.status_code, 204);
            assert_eq!(head.headers.len(), 0);
            assert_eq!(head.content_length, -1);
        }
        other => panic!("no head: {:?}", other),
    }
}

#[test]
fn an_unfinished_head_wants_more() {
    let (step, taken) = ResponseParser::new().feed_all(b"HTTP/1.1 200 OK\r\nA: b\r\n\r");
    assert_eq!(taken, 24);
    let parser = match step {
        Step::More(parser) => parser,
        other => panic!("stopped: {:?}", other),
    };
    // the missing line feed ends the head
    match parser.feed(b'\n') {
        Step::Done(head) => {
            assert_eq!(head.headers.len(), 1);
            assert_eq!(head.headers[0].name, "A");
        }
        other => panic!("no head: {:?}", other),
    }
    let (step, taken) = ResponseParser::new().feed_all(b"");
    assert_eq!(taken, 0);
    assert!(matches!(step, Step::More(_)));
}

#[test]
fn carriage_returns_are_dropped_and_lone_line_feeds_kept() {
    // a carriage return inside a line is dropped; a line feed ends the line
    // only right after a carriage return
    let bytes = b"HTTP/1.1 200 O\rK\r\nA: b\nc\r\nB:\r\r\n\r\n";
    let (step, taken) = ResponseParser::new().feed_all(bytes);
    assert_eq!(taken, bytes.len());
    match step {
        Step::Done(head) => {
            assert_eq!(head.response_info.status_message, "OK");
            assert_eq!(head.headers.len(), 2);
            assert_eq!(head.headers[0].name, "A");
            assert_eq!(head.headers[0].value, "b\nc");
            assert_eq!(head.headers[1].name, "B:");
            assert_eq!(head.headers[1].value, "");
        }
        other => panic!("no head: {:?}", other),
    }
}

#[test]
fn bytes_stand_for_the_characters_of_the_same_number() {
    let bytes = b"HTTP/1.1 200 OK\r\nX-Name: caf\xe9\r\n\r\n";
    let (step, _) = ResponseParser::new().feed_all(bytes);
    match step {
        Step::Done(head) => assert_eq!(head.headers[0].value, "caf\u{e9}"),
        other => panic!("no head: {:?}", other),
    }
}

#[test]
fn a_closed_or_broken_stream_refuses_the_reply() {
    let (step, _) = ResponseParser::new().feed_all(b"HTTP/1.1 200 OK\r\nA: b\r\n");
    let parser = match step {
        Step::More(parser) => parser,
        other => panic!("stopped: {:?}", other),
    };
    match parser.advance(ReadEvent::Closed) {
        Step::Failed(e) => assert_eq!(
            e,
            RequestErrors::ConnectionError(
                "Connection closed before the end of the headers".to_string()
            )
        ),
        other => panic!("not refused: {:?}", other),
    }
    match ResponseParser::new().advance(ReadEvent::Failed("timed out".to_string())) {
        Step::Failed(e) => assert_eq!(e, RequestErrors::ConnectionError("timed out".to_string())),
        other => panic!("not refused: {:?}", other),
    }
    match ResponseParser::new().advance(ReadEvent::Byte(b'H')) {
        Step::More(ResponseParser::ReadingStatusLine { line, after_cr }) => {
            assert_eq!(line, "H");
            assert!(!after_cr);
        }
        other => panic!("unexpected: {:?}", other),
    }
}

#[test]
fn states_follow_the_lines() {
    let (step, _) = ResponseParser::new().feed_all(b"HTTP/1.1 200 OK\r");
    match step {
        Step::More(ResponseParser::ReadingStatusLine { line, after_cr }) => {
            assert_eq!(line, "HTTP/1.1 200 OK");
            assert!(after_cr);
        }
        other => panic!("unexpected: {:?}", other),
    }
    let (step, _) = ResponseParser::new().feed_all(b"HTTP/1.1 200 OK\r\nA: b\r\nC: d");
    match step {
        Step::More(ResponseParser::ReadingHeaderLines {
            info,
            lines,
            line,
            after_cr,
        }) => {
            assert_eq!(info.status_code, 200);
            assert_eq!(lines, vec!["A: b".to_string()]);
            assert_eq!(line, "C: d");
            assert!(!after_cr);
        }
        other => panic!("unexpected: {:?}", other),
    }
}
