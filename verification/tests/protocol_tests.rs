//! Codec tests: parsing, serialization, and the command reader.

use respkv::protocol::{Data, Cmd};
use respkv::error::Error;

#[test]
fn bulk_decode_test() {
    let result: Data = Data::parse("$5\r\nhello\r\n".as_bytes(), 0).unwrap().0;
    assert_eq!(result, Data::BulkString("hello".to_string()));
}

#[test]
fn test_array() {
    let result = Data::parse("*2\r\n$5\r\nhello\r\n$5\r\nworld\r\n".as_bytes(), 0).unwrap().0;

    let expected = Data::Array(vec![
        Data::BulkString("hello".to_string()),
        Data::BulkString("world".to_string()),
    ]);
    assert_eq!(result, expected);
}

#[test]
fn simple_string_decode() {
    let (d, p) = Data::parse("+PONG\r\n".as_bytes(), 0).unwrap();
    assert_eq!(d, Data::SimpleString("PONG".to_string()));
    assert_eq!(p, 7);
}

#[test]
fn null_bulk_decode() {
    let (d, p) = Data::parse("$-1\r\n".as_bytes(), 0).unwrap();
    assert_eq!(d, Data::NullBuilkString);
    assert_eq!(p, 5);
}

#[test]
fn empty_bulk_decode() {
    let (d, _) = Data::parse("$0\r\n\r\n".as_bytes(), 0).unwrap();
    assert_eq!(d, Data::BulkString(String::new()));
}

#[test]
fn parse_rejects_unknown_prefix() {
    let e = Data::parse("?oops\r\n".as_bytes(), 0).unwrap_err();
    assert!(matches!(e, Error::InvalidResp));
}

#[test]
fn parse_rejects_bad_length() {
    let e = Data::parse("$abc\r\n".as_bytes(), 0).unwrap_err();
    assert!(matches!(e, Error::Parser));
}

#[test]
fn parse_reports_truncated_frame() {
    let e = Data::parse("$5\r\nhe".as_bytes(), 0).unwrap_err();
    assert!(matches!(e, Error::IO));
}

#[test]
fn write_simple_string() {
    let mut out: Vec<u8> = Vec::new();
    Data::SimpleString("OK".to_string()).write_resp(&mut out).unwrap();
    assert_eq!(out, "+OK\r\n".as_bytes().to_vec());
}

#[test]
fn write_bulk_string() {
    let mut out: Vec<u8> = Vec::new();
    Data::BulkString("hello".to_string()).write_resp(&mut out).unwrap();
    assert_eq!(out, "$5\r\nhello\r\n".as_bytes().to_vec());
}

#[test]
fn write_null_bulk() {
    let mut out: Vec<u8> = Vec::new();
    Data::NullBuilkString.write_resp(&mut out).unwrap();
    assert_eq!(out, "$-1\r\n".as_bytes().to_vec());
}

#[test]
fn write_then_parse_round_trip() {
    let frame = Data::Array(vec![
        Data::BulkString("SET".to_string()),
        Data::BulkString("key".to_string()),
        Data::SimpleString("value".to_string()),
    ]);
    let mut out: Vec<u8> = Vec::new();
    frame.write_resp(&mut out).unwrap();
    let (back, p) = Data::parse(out.as_slice(), 0).unwrap();
    assert_eq!(back, frame);
    assert_eq!(p, out.len());
}

#[test]
fn write_full_resync_has_no_trailing_crlf() {
    let frame = Data::FullResyncBinaryConent(
        Box::new(Data::SimpleString("FULLRESYNC abc 0".to_string())),
        vec![1u8, 2, 3],
    );
    let mut out: Vec<u8> = Vec::new();
    frame.write_resp(&mut out).unwrap();
    let mut expected = "+FULLRESYNC abc 0\r\n$3\r\n".as_bytes().to_vec();
    expected.extend_from_slice(&[1u8, 2, 3]);
    assert_eq!(out, expected);
}

#[test]
fn parse_cmd_reads_ping() {
    let (c, p) = Data::parse_cmd("*1\r\n$4\r\nPING\r\n".as_bytes(), 0).unwrap();
    assert!(matches!(c, Cmd::Ping));
    assert_eq!(p, 14);
}

#[test]
fn parse_cmd_is_case_insensitive() {
    let (c, _) = Data::parse_cmd("*2\r\n$4\r\necho\r\n$2\r\nhi\r\n".as_bytes(), 0).unwrap();
    match c {
        Cmd::Echo { args } => assert_eq!(args, vec![Data::BulkString("hi".to_string())]),
        other => panic!("expected ECHO, got {:?}", other),
    }
}

#[test]
fn parse_cmd_empty_input_is_connection_closed() {
    let (c, p) = Data::parse_cmd("".as_bytes(), 0).unwrap();
    assert!(matches!(c, Cmd::ConnectionClosed));
    assert_eq!(p, 0);
}

#[test]
fn parse_cmd_inline_probe_is_ping() {
    let (c, p) = Data::parse_cmd("x".as_bytes(), 0).unwrap();
    assert!(matches!(c, Cmd::Ping));
    assert_eq!(p, 1);
}

#[test]
fn parse_cmd_rejects_unknown_verb() {
    let e = Data::parse_cmd("*1\r\n$3\r\nFOO\r\n".as_bytes(), 0).unwrap_err();
    assert!(matches!(e, Error::Unsupported(_)));
}

#[test]
fn to_data_serializes_set() {
    let cmd = Cmd::SetCmd {
        args: vec![
            Data::BulkString("foo".to_string()),
            Data::BulkString("bar".to_string()),
        ],
    };
    let frame = cmd.to_data().unwrap();
    let mut out: Vec<u8> = Vec::new();
    frame.write_resp(&mut out).unwrap();
    assert_eq!(out, "*3\r\n$3\r\nSET\r\n$3\r\nfoo\r\n$3\r\nbar\r\n".as_bytes().to_vec());
}

#[test]
fn to_data_rejects_get() {
    let cmd = Cmd::Get { args: vec![Data::BulkString("foo".to_string())] };
    assert!(matches!(cmd.to_data(), Err(Error::Unsupported(_))));
}

#[test]
fn is_write_only_for_set() {
    assert!(Cmd::SetCmd { args: vec![] }.is_write());
    assert!(!Cmd::Get { args: vec![] }.is_write());
    assert!(!Cmd::Ping.is_write());
}
