//! Tests for the framing accumulator: marker recognition across split
//! reads, the failure marker, and short reads.
use at_protocol::framing::{Accumulator, FeedResult};
use at_protocol::Error;

#[test]
fn success_marker_in_one_read() {
    let mut acc = Accumulator::new();
    let r = acc.feed(b"body\r\nOK\r\n");
    assert_eq!(r, FeedResult::Complete(b"body".to_vec()));
}

#[test]
fn success_marker_split_across_reads() {
    let mut acc = Accumulator::new();
    assert_eq!(acc.feed(b"body\r\nOK"), FeedResult::Incomplete);
    assert_eq!(acc.feed(b"\r\n"), FeedResult::Complete(b"body".to_vec()));
}

#[test]
fn success_marker_split_byte_by_byte() {
    let mut acc = Accumulator::new();
    for b in b"x\r\nOK\r" {
        assert_eq!(acc.feed(&[*b]), FeedResult::Incomplete);
    }
    assert_eq!(acc.feed(b"\n"), FeedResult::Complete(b"x".to_vec()));
}

#[test]
fn error_marker_aborts_with_full_text() {
    let mut acc = Accumulator::new();
    let r = acc.feed(b"junk\r\nERROR\r\n");
    assert_eq!(r, FeedResult::Failed(Error::Protocol(b"junk\r\nERROR\r\n".to_vec())));
}

#[test]
fn error_marker_split_across_reads() {
    let mut acc = Accumulator::new();
    assert_eq!(acc.feed(b"x\r\nERR"), FeedResult::Incomplete);
    assert_eq!(
        acc.feed(b"OR\r\n"),
        FeedResult::Failed(Error::Protocol(b"x\r\nERROR\r\n".to_vec()))
    );
}

#[test]
fn empty_read_is_transport_failure() {
    let mut acc = Accumulator::new();
    assert_eq!(acc.feed(b"partial"), FeedResult::Incomplete);
    assert_eq!(
        acc.feed(b""),
        FeedResult::Failed(Error::InvalidResponse(b"partial".to_vec()))
    );
}

#[test]
fn marker_only_counts_at_the_tail() {
    let mut acc = Accumulator::new();
    assert_eq!(acc.feed(b"\r\nOK\r\nmore"), FeedResult::Incomplete);
    assert_eq!(acc.feed(b"\r\nOK\r\n"), FeedResult::Complete(b"\r\nOK\r\nmore".to_vec()));
}

#[test]
fn empty_body_before_marker() {
    let mut acc = Accumulator::new();
    assert_eq!(acc.feed(b"\r\nOK\r\n"), FeedResult::Complete(Vec::new()));
}
