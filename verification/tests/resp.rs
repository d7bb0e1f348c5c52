use redis_operator::error::Error;
use redis_operator::metrics::resp::{
    bad_length_message, output_text, read_reply_header, reply_body, unexpected_message, ReplyStep,
    INFO_CMD,
};

fn message(line: Option<&str>) -> String {
    match read_reply_header(line) {
        Err(Error::Resp(m)) => m,
        other => panic!("{other:?}"),
    }
}

#[test]
fn reads_a_bulk_string_reply() {
    assert_eq!(
        read_reply_header(Some("$15\r\n")),
        Ok(ReplyStep::Read { len: 15 })
    );
    let body = b"# Server\r\nhz:10\r\n".to_vec();
    assert_eq!(reply_body(body, 15), "# Server\r\nhz:10");
}

#[test]
fn reassembles_a_reply_split_across_writes() {
    assert_eq!(
        read_reply_header(Some("$8\r\n")),
        Ok(ReplyStep::Read { len: 8 })
    );
    let mut buf = b"hz:".to_vec();
    buf.extend_from_slice(b"10\r\nx\r\n");
    assert_eq!(reply_body(buf, 8), "hz:10\r\nx");
}

#[test]
fn sends_a_bare_info_command() {
    assert_eq!(INFO_CMD, "*1\r\n$4\r\nINFO\r\n");
    assert_eq!(
        read_reply_header(Some("$0\r\n")),
        Ok(ReplyStep::Read { len: 0 })
    );
    assert_eq!(reply_body(b"\r\n".to_vec(), 0), "");
}

#[test]
fn maps_an_error_reply_to_a_protocol_error() {
    let m = message(Some("-NOPERM this user has no permissions\r\n"));
    assert_eq!(m, "NOPERM this user has no permissions");
    assert_eq!(
        Error::Resp(m).message(),
        "redis protocol error: NOPERM this user has no permissions"
    );
}

#[test]
fn treats_a_nil_bulk_string_as_empty() {
    assert_eq!(
        read_reply_header(Some("$-1\r\n")),
        Ok(ReplyStep::Done(String::new()))
    );
}

#[test]
fn rejects_a_reply_over_the_size_cap() {
    let m = message(Some("$9999999999\r\n"));
    assert!(m.contains("exceeds cap"), "{m}");
    assert_eq!(m, "reply of 9999999999 bytes exceeds cap");
    assert_eq!(
        read_reply_header(Some("$8388608\r\n")),
        Ok(ReplyStep::Read { len: 8388608 })
    );
    assert_eq!(
        message(Some("$8388609\r\n")),
        "reply of 8388609 bytes exceeds cap"
    );
}

#[test]
fn rejects_an_unexpected_reply_type() {
    let m = message(Some("+PONG\r\n"));
    assert!(m.contains("unexpected reply type"), "{m}");
    assert_eq!(m, "unexpected reply type in \"+PONG\"");
    assert_eq!(
        message(Some("+OK \"x\"\r\n")),
        "unexpected reply type in \"+OK \\\"x\\\"\""
    );
    assert_eq!(unexpected_message("\"+OK\""), "unexpected reply type in \"+OK\"");
}

#[test]
fn rejects_a_length_that_is_no_number() {
    assert_eq!(message(Some("$ten\r\n")), "bad bulk length \"ten\"");
    assert_eq!(bad_length_message("\"ten\""), "bad bulk length \"ten\"");
}

#[test]
fn rejects_a_header_without_a_type() {
    assert_eq!(message(Some("\r\n")), "empty reply header");
    assert_eq!(message(Some("é5\r\n")), "empty reply header");
}

#[test]
fn reports_a_closed_connection() {
    assert_eq!(message(None), "connection closed before any reply");
}

#[test]
fn bytes_that_are_no_text_are_stood_in_for() {
    assert_eq!(reply_body(vec![b'a', 0xff, b'b', b'\r', b'\n'], 3), "a\u{fffd}b");
    assert_eq!(output_text(&"grüße".as_bytes().to_vec()), "grüße");
}
