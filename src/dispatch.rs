//! The reply side: each command becomes one reply, read against the store;
//! `SET` changes the store and asks its caller to commit the change before
//! the reply is chosen.
use vstd::prelude::*;
use crate::protocol::{
    bytes_of, frame_spec, outcome_of, CommandView, FrameParser, FrameView, RedisCommand,
    RedisCommandError, RedisCommandValue,
};
use crate::storage::{filter_expired, get, get_spec, put_spec, EntryView, StorageData, StorageError};

verus! {

/// Why a request got an error reply.
#[derive(Debug)]
pub enum RedisResponseCommandError {
    /// The request was not a valid frame, or named no known command.
    Protocol(RedisCommandError),
    /// The change could not be committed.
    Storage(StorageError),
}

/// What the connection does next after a command.
#[derive(Debug)]
pub enum Action {
    /// Send these bytes.
    Reply(Vec<u8>),
    /// The store changed: commit it, then send `commit_reply` of the outcome.
    Commit,
}

pub open spec fn crlf() -> Seq<u8> {
    seq![13u8, 10u8]
}

/// The decimal digits of `n`.
pub open spec fn decimal_bytes(n: nat) -> Seq<u8>
    decreases n,
{
    if n < 10 {
        seq![(48 + n) as u8]
    } else {
        decimal_bytes(n / 10).push((48 + n % 10) as u8)
    }
}

/// `+<text>\r\n`
pub open spec fn simple_reply(text: Seq<u8>) -> Seq<u8> {
    seq![43u8] + text + crlf()
}

/// `$<len>\r\n<data>\r\n`
pub open spec fn bulk_reply(data: Seq<u8>) -> Seq<u8> {
    seq![36u8] + decimal_bytes(data.len()) + crlf() + data + crlf()
}

/// `$-1\r\n`
pub open spec fn null_reply() -> Seq<u8> {
    seq![36u8, 45u8, 49u8] + crlf()
}

/// `-ERR <message>\r\n`
pub open spec fn error_reply(message: Seq<u8>) -> Seq<u8> {
    seq![45u8] + bytes_of("ERR "@) + message + crlf()
}

pub open spec fn error_message(e: RedisResponseCommandError) -> Seq<u8> {
    match e {
        RedisResponseCommandError::Protocol(RedisCommandError::Malformed) => bytes_of("malformed frame"@),
        RedisResponseCommandError::Protocol(RedisCommandError::Unknown(_)) => bytes_of("unknown command"@),
        RedisResponseCommandError::Storage(_) => bytes_of("storage failure"@),
    }
}

/// A command whose arguments are where its kind needs them.
pub open spec fn command_wf(c: CommandView) -> bool {
    match c.command {
        RedisCommand::Ping => true,
        RedisCommand::Echo | RedisCommand::Get => c.param_2 is Some,
        RedisCommand::SetKey => c.param_1 is Some && c.param_1->Some_0.len() > 0 && c.param_2 is Some,
    }
}

/// The reply to a command, given the store it reads and the time.
pub open spec fn response_spec(c: CommandView, m: Map<Seq<char>, EntryView>, now: u64) -> Seq<u8> {
    match c.command {
        RedisCommand::Ping => simple_reply(bytes_of("PONG"@)),
        RedisCommand::SetKey => simple_reply(bytes_of("OK"@)),
        RedisCommand::Echo => bulk_reply(bytes_of(c.param_2->Some_0)),
        RedisCommand::Get => match get_spec(m, c.param_2->Some_0, now) {
            Some(v) => bulk_reply(bytes_of(v)),
            None => null_reply(),
        },
    }
}

fn push_bytes(out: &mut Vec<u8>, b: &[u8])
    ensures
        final(out)@ == old(out)@ + b@,
{
    let mut i: usize = 0;
    while i < b.len()
        invariant
            i <= b@.len(),
            out@ == old(out)@ + b@.subrange(0, i as int),
        decreases b@.len() - i,
    {
        out.push(b[i]);
        i = i + 1;
        assert(out@ =~= old(out)@ + b@.subrange(0, i as int));
    }
    assert(b@.subrange(0, i as int) =~= b@);
}

fn push_decimal(out: &mut Vec<u8>, n: usize)
    ensures
        final(out)@ == old(out)@ + decimal_bytes(n as nat),
    decreases n,
{
    let ghost start = out@;
    if n >= 10 {
        push_decimal(out, n / 10);
    }
    out.push((48 + n % 10) as u8);
    assert(out@ =~= start + decimal_bytes(n as nat));
}

fn push_crlf(out: &mut Vec<u8>)
    ensures
        final(out)@ == old(out)@ + crlf(),
{
    out.push(13);
    out.push(10);
    assert(out@ =~= old(out)@ + crlf());
}

fn simple(text: &str) -> (r: Vec<u8>)
    ensures
        r@ == simple_reply(bytes_of(text@)),
{
    let mut r: Vec<u8> = Vec::new();
    r.push(43);
    push_bytes(&mut r, text.as_bytes());
    push_crlf(&mut r);
    assert(r@ =~= simple_reply(bytes_of(text@)));
    r
}

fn bulk(data: &str) -> (r: Vec<u8>)
    ensures
        r@ == bulk_reply(bytes_of(data@)),
{
    let b = data.as_bytes();
    let mut r: Vec<u8> = Vec::new();
    r.push(36);
    push_decimal(&mut r, b.len());
    push_crlf(&mut r);
    push_bytes(&mut r, b);
    push_crlf(&mut r);
    assert(r@ =~= bulk_reply(bytes_of(data@)));
    r
}

fn null_bulk() -> (r: Vec<u8>)
    ensures
        r@ == null_reply(),
{
    let mut r: Vec<u8> = Vec::new();
    r.push(36);
    r.push(45);
    r.push(49);
    push_crlf(&mut r);
    assert(r@ =~= null_reply());
    r
}

impl RedisResponseCommandError {
    /// The error reply for this error.
    pub fn to_response(&self) -> (r: Vec<u8>)
        ensures
            r@ == error_reply(error_message(*self)),
    {
        let mut r: Vec<u8> = Vec::new();
        r.push(45);
        push_bytes(&mut r, "ERR ".as_bytes());
        match self {
            RedisResponseCommandError::Protocol(RedisCommandError::Malformed) => {
                push_bytes(&mut r, "malformed frame".as_bytes());
            },
            RedisResponseCommandError::Protocol(RedisCommandError::Unknown(_)) => {
                push_bytes(&mut r, "unknown command".as_bytes());
            },
            RedisResponseCommandError::Storage(_) => {
                push_bytes(&mut r, "storage failure".as_bytes());
            },
        }
        push_crlf(&mut r);
        assert(r@ =~= error_reply(error_message(*self)));
        r
    }
}

impl RedisCommandValue {
    /// The reply to this command against `store` at time `now`.
    pub fn to_response(&self, store: &StorageData, now: u64) -> (r: Vec<u8>)
        requires
            store.wf(),
            command_wf(self@),
        ensures
            r@ == response_spec(self@, store@, now),
    {
        match self.command {
            RedisCommand::Ping => simple("PONG"),
            RedisCommand::SetKey => simple("OK"),
            RedisCommand::Echo => match &self.param_2 {
                Some(arg) => bulk(arg.as_str()),
                None => null_bulk(),
            },
            RedisCommand::Get => match &self.param_2 {
                Some(key) => match get(store, key.as_str()) {
                    Some(cd) => match filter_expired(cd, now) {
                        Some(live) => bulk(live.value.as_str()),
                        None => null_bulk(),
                    },
                    None => null_bulk(),
                },
                None => null_bulk(),
            },
        }
    }

    /// Runs this command: `SET` writes its entry, stamped `now`, and asks for
    /// a commit; every other command leaves the store alone and replies.
    pub fn execute(&self, store: &mut StorageData, now: u64) -> (r: Action)
        requires
            old(store).wf(),
            command_wf(self@),
        ensures
            final(store).wf(),
            self.command == RedisCommand::SetKey ==> r is Commit && final(store)@ == put_spec(
                old(store)@,
                self@.param_1->Some_0,
                self@.param_2->Some_0,
                self.expires_for,
                now,
            ),
            self.command != RedisCommand::SetKey ==> final(store)@ == old(store)@,
            self.command != RedisCommand::SetKey ==> (r matches Action::Reply(b) && b@ == response_spec(
                self@,
                old(store)@,
                now,
            )),
    {
        match (self.command, &self.param_1, &self.param_2) {
            (RedisCommand::SetKey, Some(key), Some(value)) => {
                crate::storage::add(store, key.as_str(), value.as_str(), self.expires_for, now);
                Action::Commit
            },
            _ => Action::Reply(self.to_response(store, now)),
        }
    }
}

/// The reply to a `SET` once its commit has run: `+OK` if it was saved,
/// an error reply if not.
pub fn commit_reply(saved: &Result<(), StorageError>) -> (r: Vec<u8>)
    ensures
        saved is Ok ==> r@ == simple_reply(bytes_of("OK"@)),
        saved is Err ==> r@ == error_reply(bytes_of("storage failure"@)),
{
    match saved {
        Ok(()) => simple("OK"),
        Err(e) => {
            let mut r: Vec<u8> = Vec::new();
            r.push(45);
            push_bytes(&mut r, "ERR ".as_bytes());
            push_bytes(&mut r, "storage failure".as_bytes());
            push_crlf(&mut r);
            assert(r@ =~= error_reply(bytes_of("storage failure"@)));
            r
        },
    }
}


/// Every command a frame yields has its arguments where its kind needs them.
pub proof fn lemma_frame_command_wf(lines: Seq<Seq<char>>)
    ensures
        frame_spec(lines) matches FrameView::Complete(c) ==> command_wf(c),
{
}

/// Handles one line of a connection at time `now`: `None` while the frame
/// is incomplete; otherwise what to do next, an error reply for a frame that
/// is malformed or names no known command.
pub fn handle_line(parser: &mut FrameParser, store: &mut StorageData, line: String, now: u64) -> (r: Option<Action>)
    requires
        old(store).wf(),
    ensures
        final(store).wf(),
        final(parser).pending() == (if frame_spec(old(parser).pending().push(line@)) is Incomplete {
            old(parser).pending().push(line@)
        } else {
            Seq::<Seq<char>>::empty()
        }),
        match frame_spec(old(parser).pending().push(line@)) {
            FrameView::Incomplete => r is None && final(store)@ == old(store)@,
            FrameView::Malformed => final(store)@ == old(store)@ && (r matches Some(Action::Reply(b))
                && b@ == error_reply(bytes_of("malformed frame"@))),
            FrameView::Unknown(_) => final(store)@ == old(store)@ && (r matches Some(Action::Reply(b))
                && b@ == error_reply(bytes_of("unknown command"@))),
            FrameView::Complete(c) => if c.command == RedisCommand::SetKey {
                r matches Some(Action::Commit) && final(store)@ == put_spec(
                    old(store)@,
                    c.param_1->Some_0,
                    c.param_2->Some_0,
                    c.expires_for,
                    now,
                )
            } else {
                final(store)@ == old(store)@ && (r matches Some(Action::Reply(b)) && b@ == response_spec(
                    c,
                    old(store)@,
                    now,
                ))
            },
        },
{
    proof {
        lemma_frame_command_wf(old(parser).pending().push(line@));
    }
    match parser.feed(line) {
        Ok(None) => None,
        Ok(Some(command)) => Some(command.execute(store, now)),
        Err(e) => Some(Action::Reply(RedisResponseCommandError::Protocol(e).to_response())),
    }
}

} // verus!
