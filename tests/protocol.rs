use tinyredis::dispatch::{commit_reply, handle_line, Action};
use tinyredis::protocol::{parse_redis_protocol, FrameParser, RedisCommand, RedisCommandError};
use tinyredis::storage::{read_live, StorageData};

fn lines(frame: &str) -> Vec<String> {
    let mut v: Vec<String> = frame.split("\r\n").map(|s| s.to_string()).collect();
    if v.last().map(|s| s.is_empty()).unwrap_or(false) {
        v.pop();
    }
    v
}

/// Feeds a whole frame line by line; returns the reply bytes, committing a
/// `SET` as saved.
fn send(parser: &mut FrameParser, store: &mut StorageData, frame: &str, now: u64) -> Vec<u8> {
    let ls = lines(frame);
    let n = ls.len();
    for (i, l) in ls.into_iter().enumerate() {
        let r = handle_line(parser, store, l, now);
        if i + 1 < n {
            assert!(r.is_none(), "frame ended early at line {}", i);
        } else {
            return match r {
                Some(Action::Reply(b)) => b,
                Some(Action::Commit) => commit_reply(&Ok(())),
                None => panic!("frame incomplete"),
            };
        }
    }
    panic!("empty frame")
}

#[test]
fn ping_gets_pong() {
    let mut p = FrameParser::new();
    let mut s = StorageData::new();
    assert_eq!(send(&mut p, &mut s, "*1\r\n$4\r\nPING\r\n", 0), b"+PONG\r\n".to_vec());
}

#[test]
fn echo_returns_bulk() {
    let mut p = FrameParser::new();
    let mut s = StorageData::new();
    assert_eq!(send(&mut p, &mut s, "*2\r\n$4\r\nECHO\r\n$3\r\nhey\r\n", 0), b"$3\r\nhey\r\n".to_vec());
}

#[test]
fn echo_counts_utf8_bytes() {
    let mut p = FrameParser::new();
    let mut s = StorageData::new();
    let reply = send(&mut p, &mut s, "*2\r\n$4\r\necho\r\n$6\r\nh\u{e9}llo\r\n", 0);
    assert_eq!(reply, "$6\r\nh\u{e9}llo\r\n".as_bytes().to_vec());
}

#[test]
fn echo_two_digit_length() {
    let mut p = FrameParser::new();
    let mut s = StorageData::new();
    let reply = send(&mut p, &mut s, "*2\r\n$4\r\nECHO\r\n$12\r\nhello, world\r\n", 0);
    assert_eq!(reply, b"$12\r\nhello, world\r\n".to_vec());
}

#[test]
fn set_then_get() {
    let mut p = FrameParser::new();
    let mut s = StorageData::new();
    assert_eq!(
        send(&mut p, &mut s, "*3\r\n$3\r\nSET\r\n$4\r\npear\r\n$6\r\norange\r\n", 10),
        b"+OK\r\n".to_vec()
    );
    assert_eq!(send(&mut p, &mut s, "*2\r\n$3\r\nGET\r\n$4\r\npear\r\n", 20), b"$6\r\norange\r\n".to_vec());
}

#[test]
fn get_missing_is_null() {
    let mut p = FrameParser::new();
    let mut s = StorageData::new();
    assert_eq!(send(&mut p, &mut s, "*2\r\n$3\r\nGET\r\n$7\r\nmissing\r\n", 0), b"$-1\r\n".to_vec());
}

#[test]
fn set_with_px_expires() {
    let mut p = FrameParser::new();
    let mut s = StorageData::new();
    let frame = "*5\r\n$3\r\nSET\r\n$4\r\npear\r\n$6\r\norange\r\n$2\r\npx\r\n$3\r\n100\r\n";
    assert_eq!(send(&mut p, &mut s, frame, 1000), b"+OK\r\n".to_vec());
    let get = "*2\r\n$3\r\nGET\r\n$4\r\npear\r\n";
    assert_eq!(send(&mut p, &mut s, get, 1000), b"$6\r\norange\r\n".to_vec());
    assert_eq!(send(&mut p, &mut s, get, 1099), b"$6\r\norange\r\n".to_vec());
    assert_eq!(send(&mut p, &mut s, get, 1100), b"$-1\r\n".to_vec());
    assert_eq!(send(&mut p, &mut s, get, 1201), b"$-1\r\n".to_vec());
    assert_eq!(read_live(&s, "pear", 1050), Some("orange".to_string()));
}

#[test]
fn length_mismatch_is_malformed() {
    let mut p = FrameParser::new();
    let mut s = StorageData::new();
    let reply = send(&mut p, &mut s, "*2\r\n$4\r\nECHO\r\n$5\r\nhey\r\n", 0);
    assert_eq!(reply, b"-ERR malformed frame\r\n".to_vec());
    // the connection goes on after the error
    assert_eq!(send(&mut p, &mut s, "*1\r\n$4\r\nPING\r\n", 0), b"+PONG\r\n".to_vec());
}

#[test]
fn bad_header_is_malformed_at_once() {
    let mut p = FrameParser::new();
    let mut s = StorageData::new();
    match handle_line(&mut p, &mut s, "*x".to_string(), 0) {
        Some(Action::Reply(b)) => assert_eq!(b, b"-ERR malformed frame\r\n".to_vec()),
        _ => panic!("expected an error reply"),
    }
    match handle_line(&mut p, &mut s, "*4".to_string(), 0) {
        Some(Action::Reply(b)) => assert_eq!(b, b"-ERR malformed frame\r\n".to_vec()),
        _ => panic!("expected an error reply"),
    }
}

#[test]
fn unknown_command_reply() {
    let mut p = FrameParser::new();
    let mut s = StorageData::new();
    let reply = send(&mut p, &mut s, "*1\r\n$4\r\nQUIT\r\n", 0);
    assert_eq!(reply, b"-ERR unknown command\r\n".to_vec());
}

#[test]
fn wrong_arity_is_malformed() {
    let mut p = FrameParser::new();
    let mut s = StorageData::new();
    let reply = send(&mut p, &mut s, "*3\r\n$3\r\nGET\r\n$1\r\na\r\n$1\r\nb\r\n", 0);
    assert_eq!(reply, b"-ERR malformed frame\r\n".to_vec());
    let reply = send(&mut p, &mut s, "*5\r\n$3\r\nSET\r\n$1\r\na\r\n$1\r\nb\r\n$2\r\nEX\r\n$1\r\n5\r\n", 0);
    assert_eq!(reply, b"-ERR malformed frame\r\n".to_vec());
}

#[test]
fn ping_ignores_arguments() {
    let mut p = FrameParser::new();
    let mut s = StorageData::new();
    assert_eq!(send(&mut p, &mut s, "*2\r\n$4\r\nping\r\n$1\r\nx\r\n", 0), b"+PONG\r\n".to_vec());
}

#[test]
fn parse_waits_for_whole_frame() {
    let q = lines("*2\r\n$4\r\nECHO\r\n$3\r\n");
    assert!(matches!(parse_redis_protocol(&q), Ok(None)));
    let q = lines("*2\r\n$4\r\nECHO\r\n$3\r\nhey\r\n");
    match parse_redis_protocol(&q) {
        Ok(Some(v)) => {
            assert_eq!(v.command, RedisCommand::Echo);
            assert_eq!(v.param_2, Some("hey".to_string()));
        }
        _ => panic!("expected a command"),
    }
    assert!(matches!(parse_redis_protocol(&Vec::new()), Ok(None)));
}

#[test]
fn parse_set_with_expiry() {
    let q = lines("*5\r\n$3\r\nset\r\n$1\r\nk\r\n$1\r\nv\r\n$2\r\nPX\r\n$4\r\n2500\r\n");
    match parse_redis_protocol(&q) {
        Ok(Some(v)) => {
            assert_eq!(v.command, RedisCommand::SetKey);
            assert_eq!(v.param_1, Some("k".to_string()));
            assert_eq!(v.param_2, Some("v".to_string()));
            assert_eq!(v.expires_for, Some(2500));
        }
        _ => panic!("expected a command"),
    }
}

#[test]
fn parse_rejects_bad_millis_and_empty_key() {
    let q = lines("*5\r\n$3\r\nSET\r\n$1\r\nk\r\n$1\r\nv\r\n$2\r\npx\r\n$2\r\n1a\r\n");
    assert!(matches!(parse_redis_protocol(&q), Err(RedisCommandError::Malformed)));
    let q = lines("*3\r\n$3\r\nSET\r\n$0\r\n\r\n$1\r\nv\r\n");
    assert!(matches!(parse_redis_protocol(&q), Err(RedisCommandError::Malformed)));
}

#[test]
fn from_str_any_case() {
    assert!(matches!(RedisCommand::from_str("PiNg"), Ok(RedisCommand::Ping)));
    assert!(matches!(RedisCommand::from_str("GET"), Ok(RedisCommand::Get)));
    assert!(matches!(RedisCommand::from_str("echo"), Ok(RedisCommand::Echo)));
    assert!(matches!(RedisCommand::from_str("Set"), Ok(RedisCommand::SetKey)));
    match RedisCommand::from_str("del") {
        Err(RedisCommandError::Unknown(name)) => assert_eq!(name, "del"),
        _ => panic!("expected unknown"),
    }
}
