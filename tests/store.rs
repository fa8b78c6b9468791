use tinyredis::dispatch::{commit_reply, Action, RedisResponseCommandError};
use tinyredis::protocol::{RedisCommand, RedisCommandError, RedisCommandValue};
use tinyredis::storage::{add, filter_expired, get, read_live, CommandData, StorageData, StorageError};

#[test]
fn put_without_ttl_reads_back() {
    let mut s = StorageData::new();
    add(&mut s, "k", "v", None, 5);
    assert_eq!(read_live(&s, "k", 5), Some("v".to_string()));
    assert_eq!(read_live(&s, "k", u64::MAX), Some("v".to_string()));
    assert_eq!(read_live(&s, "other", 5), None);
}

#[test]
fn put_with_ttl_expires() {
    let mut s = StorageData::new();
    add(&mut s, "k", "v", Some(10), 100);
    assert_eq!(read_live(&s, "k", 100), Some("v".to_string()));
    assert_eq!(read_live(&s, "k", 109), Some("v".to_string()));
    assert_eq!(read_live(&s, "k", 111), None);
    // the stale entry stays until overwritten
    assert!(get(&s, "k").is_some());
    add(&mut s, "k", "w", None, 200);
    assert_eq!(read_live(&s, "k", 300), Some("w".to_string()));
}

#[test]
fn clock_before_write_counts_as_fresh() {
    let cd = CommandData { key: "k".to_string(), value: "v".to_string(), created_at: 50, expires_for: Some(1) };
    assert!(filter_expired(&cd, 10).is_some());
    let zero = CommandData { key: "k".to_string(), value: "v".to_string(), created_at: 50, expires_for: Some(0) };
    assert!(filter_expired(&zero, 50).is_none());
}

#[test]
fn overwrite_keeps_one_entry() {
    let mut s = StorageData::new();
    add(&mut s, "a", "1", None, 0);
    add(&mut s, "b", "2", None, 0);
    add(&mut s, "a", "3", Some(7), 4);
    let e = get(&s, "a").unwrap();
    assert_eq!(e.value, "3");
    assert_eq!(e.created_at, 4);
    assert_eq!(e.expires_for, Some(7));
    assert_eq!(s.snapshot().len(), 2);
}

#[test]
fn distinct_puts_all_kept() {
    let mut s = StorageData::new();
    for i in 0..50u64 {
        add(&mut s, &format!("key{}", i), &format!("value{}", i), None, i);
    }
    for i in 0..50u64 {
        assert_eq!(read_live(&s, &format!("key{}", i), 100), Some(format!("value{}", i)));
    }
}

#[test]
fn snapshot_round_trip() {
    let mut s = StorageData::new();
    add(&mut s, "x", "1", None, 3);
    add(&mut s, "y", "2", Some(9), 4);
    let records = s.snapshot();
    assert_eq!(records.len(), 2);
    let t = StorageData::from_records(records).unwrap();
    for k in ["x", "y"] {
        let a = get(&s, k).unwrap();
        let b = get(&t, k).unwrap();
        assert_eq!(a.value, b.value);
        assert_eq!(a.created_at, b.created_at);
        assert_eq!(a.expires_for, b.expires_for);
    }
    assert!(get(&t, "z").is_none());
}

fn entry(key: &str, value: &str) -> CommandData {
    CommandData { key: key.to_string(), value: value.to_string(), created_at: 0, expires_for: None }
}

#[test]
fn corrupt_records_rejected() {
    let dup = vec![("a".to_string(), entry("a", "1")), ("a".to_string(), entry("a", "2"))];
    assert!(matches!(StorageData::from_records(dup), Err(StorageError::Corrupt(_))));
    let mismatch = vec![("a".to_string(), entry("b", "1"))];
    assert!(matches!(StorageData::from_records(mismatch), Err(StorageError::Corrupt(_))));
    let empty = vec![("".to_string(), entry("", "1"))];
    assert!(matches!(StorageData::from_records(empty), Err(StorageError::Corrupt(_))));
    assert!(StorageData::from_records(Vec::new()).is_ok());
}

#[test]
fn commit_reply_outcomes() {
    assert_eq!(commit_reply(&Ok(())), b"+OK\r\n".to_vec());
    let failed = Err(StorageError::SaveUnsuccessful("disk full".to_string()));
    assert_eq!(commit_reply(&failed), b"-ERR storage failure\r\n".to_vec());
}

#[test]
fn error_replies() {
    let e = RedisResponseCommandError::Protocol(RedisCommandError::Malformed);
    assert_eq!(e.to_response(), b"-ERR malformed frame\r\n".to_vec());
    let e = RedisResponseCommandError::Protocol(RedisCommandError::Unknown("x".to_string()));
    assert_eq!(e.to_response(), b"-ERR unknown command\r\n".to_vec());
    let e = RedisResponseCommandError::Storage(StorageError::Corrupt("x".to_string()));
    assert_eq!(e.to_response(), b"-ERR storage failure\r\n".to_vec());
}

#[test]
fn execute_set_asks_for_commit() {
    let mut s = StorageData::new();
    let cmd = RedisCommandValue::new(RedisCommand::SetKey, Some("k".to_string()), Some("v".to_string()), None);
    assert!(matches!(cmd.execute(&mut s, 1), Action::Commit));
    let get_cmd = RedisCommandValue::new(RedisCommand::Get, None, Some("k".to_string()), None);
    match get_cmd.execute(&mut s, 2) {
        Action::Reply(b) => assert_eq!(b, b"$1\r\nv\r\n".to_vec()),
        Action::Commit => panic!("GET does not commit"),
    }
    assert_eq!(get_cmd.to_response(&s, 2), b"$1\r\nv\r\n".to_vec());
}
