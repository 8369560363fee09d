//! Repeating requests, and uploading single files.

use upload_symbols::base::{Retry, ServerError, Step};
use upload_symbols::decimal::{parse_u64, to_decimal};
use upload_symbols::gcs::{parse_range, ContentEncoding, Reaction, Transfer};
use upload_symbols::pool::{Action, Event, Pool};
use upload_symbols::Error;

fn steps(retries: usize, statuses: &[u16]) -> Vec<Step> {
    let mut attempts = Retry::builder().retries(retries).build().start();
    statuses.iter().map(|status| attempts.next(*status)).collect()
}

#[test]
fn retry_defaults() {
    let retry = Retry::builder().build();
    assert_eq!(retry.retries, 4);
    assert_eq!(retry.delay_seconds, 2);
    assert_eq!(retry.max_connections, None);
    let retry = Retry::builder().max_connections(7).delay_seconds(1).retries(0).build();
    assert_eq!(retry.retries, 0);
    assert_eq!(retry.delay_seconds, 1);
    assert_eq!(retry.max_connections, Some(7));
}

#[test]
fn retries_are_bounded() {
    assert_eq!(steps(2, &[429, 502, 503]), vec![Step::Retry, Step::Retry, Step::Reject]);
    assert_eq!(steps(0, &[504]), vec![Step::Reject]);
    assert_eq!(steps(1, &[503, 200]), vec![Step::Retry, Step::Accept]);
}

#[test]
fn final_statuses() {
    for (status, step) in [
        (200, Step::Accept),
        (201, Step::Accept),
        (308, Step::Accept),
        (400, Step::ReadServerError),
        (403, Step::ReadServerError),
        (499, Step::ReadServerError),
        (500, Step::Reject),
        (501, Step::Reject),
        (599, Step::Reject),
    ] {
        assert_eq!(steps(3, &[status]), vec![step], "{status}");
    }
}

#[test]
fn server_errors_carry_a_message() {
    let error = ServerError { error: "no such token".to_string() }.into_error(403);
    assert!(matches!(&error, Error::SymbolsServer4xx { status: 403, msg } if msg == "no such token"));
    assert_eq!(error.message(), "status 403 response from symbols server: no such token");
}

fn header(text: &str) -> Option<Vec<u8>> {
    Some(text.as_bytes().to_vec())
}

#[test]
fn chunks_cover_the_file() {
    let transfer = Transfer::new(10, 4, 0);
    let chunk = transfer.next_chunk();
    assert_eq!((chunk.start, chunk.content_length), (0, 4));
    assert_eq!(chunk.content_range, "bytes 0-3/10");
    assert!(transfer.accepts(308, &header("bytes=0-3")));
    let (transfer, reaction) = transfer.note(308, header("bytes=0-3"));
    assert!(matches!(reaction, Reaction::Continue));
    assert_eq!(transfer.next_chunk().content_range, "bytes 4-7/10");
    // The server may have stored less than what was sent.
    let (transfer, _) = transfer.note(308, header("bytes=0-5"));
    let chunk = transfer.next_chunk();
    assert_eq!((chunk.start, chunk.content_length), (6, 4));
    assert_eq!(chunk.content_range, "bytes 6-9/10");
    let (_, reaction) = transfer.note(201, None);
    assert!(matches!(reaction, Reaction::Finish));
}

#[test]
fn empty_files_have_one_chunk() {
    let chunk = Transfer::new(0, 262_144, 0).next_chunk();
    assert_eq!((chunk.start, chunk.content_length), (0, 0));
    assert_eq!(chunk.content_range, "bytes 0-0/0");
}

#[test]
fn retries_keep_the_chunk() {
    let (transfer, _) = Transfer::new(10, 4, 2).note(308, header("bytes=0-3"));
    let (transfer, reaction) = transfer.note(500, None);
    assert!(matches!(reaction, Reaction::Retry));
    assert_eq!(transfer.next_chunk().content_range, "bytes 4-7/10");
    let (transfer, reaction) = transfer.note(503, None);
    assert!(matches!(reaction, Reaction::Retry));
    let (transfer, _) = transfer.note(308, header("bytes=0-7"));
    let (_, reaction) = transfer.note(429, None);
    assert!(matches!(reaction, Reaction::Reject));
    for status in [429, 500, 502, 503, 504] {
        assert!(matches!(Transfer::new(1, 1, 0).note(status, None).1, Reaction::Reject));
        assert!(matches!(Transfer::new(1, 1, 1).note(status, None).1, Reaction::Retry));
    }
}

#[test]
fn other_statuses() {
    for status in [400, 404, 410, 501, 599] {
        assert!(matches!(Transfer::new(1, 1, 5).note(status, None).1, Reaction::Reject));
    }
    for status in [100, 204, 301, 307, 600] {
        assert!(matches!(Transfer::new(1, 1, 5).note(status, None).1, Reaction::Unexpected));
    }
}

#[test]
fn range_headers_must_be_there() {
    let (_, reaction) = Transfer::new(10, 4, 5).note(308, None);
    match reaction {
        Reaction::Fail(error) => {
            assert!(matches!(error, Error::MissingRangeHeader));
            assert_eq!(error.message(), "missing range header in GCS response");
        }
        _ => panic!("expected an error"),
    }
}

#[test]
fn range_headers_must_be_understood() {
    for range in [&b"bytes=1-3"[..], b"bytes=0-", b"bytes=0-x", b"0-3", b"", b"bytes=0-3 ", b"\xff"] {
        assert_eq!(parse_range(range), None);
        let (_, reaction) = Transfer::new(10, 4, 5).note(308, Some(range.to_vec()));
        assert!(matches!(reaction, Reaction::Fail(Error::InvalidRangeHeader(h)) if h == range));
    }
    assert_eq!(parse_range(b"bytes=0-18446744073709551615"), Some(u64::MAX));
    assert_eq!(parse_range(b"bytes=0-18446744073709551616"), None);
    assert_eq!(parse_range(b"bytes=0-+7"), Some(7));
    let error = Error::InvalidRangeHeader(b"a\"b\t\xff\x01".to_vec());
    assert_eq!(error.message(), "invalid range header in GCS response: \"a\\\"b\t\\xff\\x1\"");
}

#[test]
fn claims_beyond_the_file_are_not_accepted() {
    let transfer = Transfer::new(10, 4, 5);
    assert!(transfer.accepts(308, &header("bytes=0-9")));
    assert!(!transfer.accepts(308, &header("bytes=0-10")));
    assert!(!transfer.accepts(308, &header("bytes=0-18446744073709551615")));
    assert!(transfer.accepts(308, &header("nonsense")));
    assert!(transfer.accepts(200, &header("bytes=0-10")));
}

#[test]
fn gzip_is_named() {
    assert_eq!(ContentEncoding::Gzip.header_value(), "gzip");
}

#[test]
fn numbers_read_back() {
    for n in [0, 7, 10, 99, 100, 12_345, u64::MAX] {
        assert_eq!(to_decimal(n), n.to_string());
        assert_eq!(parse_u64(&to_decimal(n)), Some(n));
    }
    for (text, expected) in [
        ("007", Some(7)),
        ("+5", Some(5)),
        ("", None),
        ("+", None),
        ("-1", None),
        ("1 ", None),
        ("++1", None),
        ("18446744073709551616", None),
    ] {
        assert_eq!(parse_u64(text), expected);
        assert_eq!(text.parse::<u64>().ok(), expected);
    }
}

#[test]
fn limit_is_kept() {
    let mut pool = Pool::new(2);
    let mut jobs = 5;
    let mut running = 0;
    let mut most = 0;
    let mut ended = 0;
    loop {
        let event = match pool.next() {
            Action::Receive => {
                if jobs == 0 {
                    Event::Closed
                } else {
                    jobs -= 1;
                    Event::Received
                }
            }
            Action::Start => {
                running += 1;
                most = std::cmp::max(most, running);
                Event::Started
            }
            Action::Join => {
                running -= 1;
                ended += 1;
                Event::Joined
            }
            Action::Done => break,
        };
        pool = pool.note(event);
    }
    assert_eq!((most, ended, running), (2, 5, 0));
}
