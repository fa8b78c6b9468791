//! The request side of the wire protocol: a frame is a header line `*<N>`
//! followed by `N` pairs of a length line `$<len>` and a token whose UTF-8
//! length is `len`. The first token names the command, case-insensitively.
use vstd::prelude::*;
use vstd::utf8::encode_utf8;

verus! {

/// The commands the store understands.
#[derive(PartialEq, Eq, Structural, Clone, Copy, Debug)]
pub enum RedisCommand {
    Ping,
    Echo,
    SetKey,
    Get,
}

/// Why a frame could not be turned into a command.
#[derive(Debug)]
pub enum RedisCommandError {
    /// The frame breaks the framing rules, or its arguments do not fit the command.
    Malformed,
    /// The frame is well formed but names no known command; the name is kept.
    Unknown(String),
}

/// A parsed command. `ECHO` and `GET` carry their argument in `param_2`;
/// `SET` carries its key in `param_1`, its value in `param_2` and its
/// optional expiry, in milliseconds, in `expires_for`.
#[derive(Debug)]
pub struct RedisCommandValue {
    pub command: RedisCommand,
    pub param_1: Option<String>,
    pub param_2: Option<String>,
    pub expires_for: Option<u64>,
}

pub ghost struct CommandView {
    pub command: RedisCommand,
    pub param_1: Option<Seq<char>>,
    pub param_2: Option<Seq<char>>,
    pub expires_for: Option<u64>,
}

pub open spec fn opt_view(o: Option<String>) -> Option<Seq<char>> {
    match o {
        Some(s) => Some(s@),
        None => None,
    }
}

impl View for RedisCommandValue {
    type V = CommandView;

    open spec fn view(&self) -> CommandView {
        CommandView {
            command: self.command,
            param_1: opt_view(self.param_1),
            param_2: opt_view(self.param_2),
            expires_for: self.expires_for,
        }
    }
}

impl RedisCommandValue {
    pub fn new(
        command: RedisCommand,
        param_1: Option<String>,
        param_2: Option<String>,
        expires_for: Option<u64>,
    ) -> (r: Self)
        ensures
            r.command == command,
            r.param_1 == param_1,
            r.param_2 == param_2,
            r.expires_for == expires_for,
    {
        Self { command, param_1, param_2, expires_for }
    }
}

/// The UTF-8 bytes of a line.
pub open spec fn bytes_of(s: Seq<char>) -> Seq<u8> {
    encode_utf8(s)
}

pub open spec fn is_digit(b: u8) -> bool {
    48 <= b <= 57
}

pub open spec fn all_digits(s: Seq<u8>) -> bool {
    forall|i: int| 0 <= i < s.len() ==> is_digit(#[trigger] s[i])
}

/// The number that a string of decimal digits spells.
pub open spec fn digits_value(s: Seq<u8>) -> nat
    decreases s.len(),
{
    if s.len() == 0 {
        0
    } else {
        digits_value(s.drop_last()) * 10 + (s.last() - 48) as nat
    }
}

/// A non-empty run of decimal digits whose value fits in a `u64`.
pub open spec fn decimal_u64(s: Seq<u8>) -> Option<u64> {
    if s.len() > 0 && all_digits(s) && digits_value(s) <= u64::MAX {
        Some(digits_value(s) as u64)
    } else {
        None
    }
}

/// The number in a header line: the tag byte, then decimal digits.
pub open spec fn header_spec(line: Seq<u8>, tag: u8) -> Option<u64> {
    if line.len() > 0 && line[0] == tag {
        decimal_u64(line.drop_first())
    } else {
        None
    }
}

pub open spec fn ascii_lower(b: u8) -> u8 {
    if 65 <= b <= 90 {
        (b + 32) as u8
    } else {
        b
    }
}

/// Whether a token spells the lower-case ASCII `name`, in any case.
pub open spec fn same_name(tok: Seq<u8>, name: Seq<u8>) -> bool {
    tok.len() == name.len() && forall|i: int| 0 <= i < tok.len() ==> ascii_lower(#[trigger] tok[i]) == name[i]
}

pub open spec fn command_named(tok: Seq<u8>) -> Option<RedisCommand> {
    if same_name(tok, bytes_of("ping"@)) {
        Some(RedisCommand::Ping)
    } else if same_name(tok, bytes_of("echo"@)) {
        Some(RedisCommand::Echo)
    } else if same_name(tok, bytes_of("set"@)) {
        Some(RedisCommand::SetKey)
    } else if same_name(tok, bytes_of("get"@)) {
        Some(RedisCommand::Get)
    } else {
        None
    }
}

proof fn lemma_digits_prefix(s: Seq<u8>, k: int)
    requires
        all_digits(s),
        0 <= k <= s.len(),
    ensures
        digits_value(s.subrange(0, k)) <= digits_value(s),
    decreases s.len(),
{
    if k < s.len() {
        let d = s.drop_last();
        assert(d.subrange(0, k) =~= s.subrange(0, k));
        lemma_digits_prefix(d, k);
        assert(digits_value(d) <= digits_value(d) * 10) by (nonlinear_arith);
    } else {
        assert(s.subrange(0, k) =~= s);
    }
}

/// Reads the decimal number that fills `b` from `start` to its end.
fn parse_decimal(b: &[u8], start: usize) -> (r: Option<u64>)
    requires
        start <= b@.len(),
    ensures
        r == decimal_u64(b@.subrange(start as int, b@.len() as int)),
{
    let ghost s = b@.subrange(start as int, b@.len() as int);
    if start == b.len() {
        return None;
    }
    let mut v: u64 = 0;
    let mut i: usize = start;
    while i < b.len()
        invariant
            start <= i <= b@.len(),
            s == b@.subrange(start as int, b@.len() as int),
            all_digits(s.subrange(0, i - start)),
            v == digits_value(s.subrange(0, i - start)),
        decreases b@.len() - i,
    {
        let c = b[i];
        let ghost p = s.subrange(0, i - start + 1);
        assert(p.drop_last() =~= s.subrange(0, i - start));
        assert(p.last() == c);
        if c < 48 || c > 57 {
            assert(!all_digits(s));
            return None;
        }
        let d: u64 = (c - 48) as u64;
        match v.checked_mul(10) {
            Some(t) => match t.checked_add(d) {
                Some(w) => {
                    v = w;
                },
                None => {
                    proof {
                        if all_digits(s) {
                            lemma_digits_prefix(s, i - start + 1);
                        }
                    }
                    return None;
                },
            },
            None => {
                proof {
                    if all_digits(s) {
                        lemma_digits_prefix(s, i - start + 1);
                    }
                }
                return None;
            },
        }
        i = i + 1;
    }
    assert(s.subrange(0, i - start) =~= s);
    Some(v)
}

/// Reads the number of a header line `<tag><digits>`.
fn header_value(line: &String, tag: u8) -> (r: Option<u64>)
    ensures
        r == header_spec(bytes_of(line@), tag),
{
    let b = line.as_str().as_bytes();
    if b.len() == 0 || b[0] != tag {
        return None;
    }
    let r = parse_decimal(b, 1);
    assert(b@.subrange(1, b@.len() as int) =~= b@.drop_first());
    r
}

/// Whether `tok` spells `name` (lower-case ASCII) in any case.
fn name_matches(tok: &[u8], name: &[u8]) -> (r: bool)
    ensures
        r == same_name(tok@, name@),
{
    if tok.len() != name.len() {
        return false;
    }
    let mut i: usize = 0;
    while i < tok.len()
        invariant
            tok@.len() == name@.len(),
            i <= tok@.len(),
            forall|j: int| 0 <= j < i ==> ascii_lower(#[trigger] tok@[j]) == name@[j],
        decreases tok@.len() - i,
    {
        let c = tok[i];
        let lc: u8 = if c >= 65 && c <= 90 { c + 32 } else { c };
        if lc != name[i] {
            return false;
        }
        i = i + 1;
    }
    true
}

impl RedisCommand {
    /// The command a token names, compared without regard to ASCII case.
    pub fn from_str(s: &str) -> (r: Result<RedisCommand, RedisCommandError>)
        ensures
            match command_named(bytes_of(s@)) {
                Some(c) => r == Ok::<RedisCommand, RedisCommandError>(c),
                None => r matches Err(RedisCommandError::Unknown(t)) && t@ == s@,
            },
    {
        let b = s.as_bytes();
        if name_matches(b, "ping".as_bytes()) {
            Ok(RedisCommand::Ping)
        } else if name_matches(b, "echo".as_bytes()) {
            Ok(RedisCommand::Echo)
        } else if name_matches(b, "set".as_bytes()) {
            Ok(RedisCommand::SetKey)
        } else if name_matches(b, "get".as_bytes()) {
            Ok(RedisCommand::Get)
        } else {
            Err(RedisCommandError::Unknown(s.to_owned()))
        }
    }
}


/// What a buffer of lines amounts to.
pub ghost enum FrameView {
    /// More lines are needed before the frame can be judged.
    Incomplete,
    Malformed,
    Unknown(Seq<char>),
    Complete(CommandView),
}

pub open spec fn lines_view(q: Seq<String>) -> Seq<Seq<char>> {
    q.map_values(|s: String| s@)
}

/// The argument counts that a frame may declare.
pub open spec fn supported_arity(n: u64) -> bool {
    n == 1 || n == 2 || n == 3 || n == 5
}

/// Pair `i` of a frame: its length line declares the byte length of its token.
pub open spec fn pair_ok(lines: Seq<Seq<char>>, i: int) -> bool {
    header_spec(bytes_of(lines[2 * i + 1]), 36) == Some(bytes_of(lines[2 * i + 2]).len() as u64)
}

pub open spec fn pairs_ok(lines: Seq<Seq<char>>, n: u64) -> bool {
    forall|i: int| 0 <= i < n ==> #[trigger] pair_ok(lines, i)
}

pub open spec fn with_arg(command: RedisCommand, arg: Seq<char>) -> FrameView {
    FrameView::Complete(CommandView { command, param_1: None, param_2: Some(arg), expires_for: None })
}

pub open spec fn set_of(key: Seq<char>, value: Seq<char>, expires_for: Option<u64>) -> FrameView {
    FrameView::Complete(
        CommandView { command: RedisCommand::SetKey, param_1: Some(key), param_2: Some(value), expires_for },
    )
}

/// The command in a well-framed buffer of `2 * n + 1` lines. `PING` ignores
/// any arguments; `ECHO` and `GET` take one; `SET` takes a non-empty key and a
/// value, optionally followed by `PX` and a number of milliseconds.
pub open spec fn command_spec(lines: Seq<Seq<char>>, n: u64) -> FrameView {
    match command_named(bytes_of(lines[2])) {
        None => FrameView::Unknown(lines[2]),
        Some(RedisCommand::Ping) => FrameView::Complete(
            CommandView { command: RedisCommand::Ping, param_1: None, param_2: None, expires_for: None },
        ),
        Some(RedisCommand::Echo) => if n == 2 {
            with_arg(RedisCommand::Echo, lines[4])
        } else {
            FrameView::Malformed
        },
        Some(RedisCommand::Get) => if n == 2 {
            with_arg(RedisCommand::Get, lines[4])
        } else {
            FrameView::Malformed
        },
        Some(RedisCommand::SetKey) => if n == 3 && lines[4].len() > 0 {
            set_of(lines[4], lines[6], None)
        } else if n == 5 && lines[4].len() > 0 && same_name(bytes_of(lines[8]), bytes_of("px"@))
            && decimal_u64(bytes_of(lines[10])) is Some {
            set_of(lines[4], lines[6], Some(decimal_u64(bytes_of(lines[10]))->Some_0))
        } else {
            FrameView::Malformed
        },
    }
}

/// What a buffer of lines, the start of a frame, amounts to.
pub open spec fn frame_spec(lines: Seq<Seq<char>>) -> FrameView {
    if lines.len() == 0 {
        FrameView::Incomplete
    } else {
        match header_spec(bytes_of(lines[0]), 42) {
            None => FrameView::Malformed,
            Some(n) => if !supported_arity(n) {
                FrameView::Malformed
            } else if lines.len() < 2 * n + 1 {
                FrameView::Incomplete
            } else if lines.len() > 2 * n + 1 || !pairs_ok(lines, n) {
                FrameView::Malformed
            } else {
                command_spec(lines, n)
            },
        }
    }
}

/// How a parse result reads as a `FrameView`.
pub open spec fn outcome_of(r: Result<Option<RedisCommandValue>, RedisCommandError>) -> FrameView {
    match r {
        Ok(None) => FrameView::Incomplete,
        Ok(Some(v)) => FrameView::Complete(v@),
        Err(RedisCommandError::Malformed) => FrameView::Malformed,
        Err(RedisCommandError::Unknown(s)) => FrameView::Unknown(s@),
    }
}

proof fn lemma_bytes_empty(s: Seq<char>)
    ensures
        bytes_of(s).len() == 0 <==> s.len() == 0,
{
    vstd::utf8::encode_utf8_decode_utf8(s);
    if bytes_of(s).len() == 0 {
        assert(bytes_of(s) =~= Seq::<u8>::empty());
        assert(vstd::utf8::decode_utf8(Seq::<u8>::empty()) =~= Seq::<char>::empty());
    }
}

/// Turns the tokens of a well-framed buffer into a command.
fn build_command(q: &Vec<String>, n: u64) -> (r: Result<Option<RedisCommandValue>, RedisCommandError>)
    requires
        supported_arity(n),
        q@.len() == 2 * n + 1,
    ensures
        outcome_of(r) == command_spec(lines_view(q@), n),
{
    let ghost lines = lines_view(q@);
    assert(lines[2] == q@[2]@);
    let command = match RedisCommand::from_str(q[2].as_str()) {
        Ok(c) => c,
        Err(e) => return Err(e),
    };
    match command {
        RedisCommand::Ping => Ok(Some(RedisCommandValue::new(command, None, None, None))),
        RedisCommand::Echo | RedisCommand::Get => {
            if n != 2 {
                return Err(RedisCommandError::Malformed);
            }
            assert(lines[4] == q@[4]@);
            Ok(Some(RedisCommandValue::new(command, None, Some(q[4].clone()), None)))
        },
        RedisCommand::SetKey => {
            if n == 1 || n == 2 {
                return Err(RedisCommandError::Malformed);
            }
            assert(lines[4] == q@[4]@);
            assert(lines[6] == q@[6]@);
            proof {
                lemma_bytes_empty(lines[4]);
            }
            if q[4].as_str().as_bytes().len() == 0 {
                return Err(RedisCommandError::Malformed);
            }
            if n == 3 {
                return Ok(Some(RedisCommandValue::new(command, Some(q[4].clone()), Some(q[6].clone()), None)));
            }
            assert(lines[8] == q@[8]@);
            assert(lines[10] == q@[10]@);
            if !name_matches(q[8].as_str().as_bytes(), "px".as_bytes()) {
                return Err(RedisCommandError::Malformed);
            }
            let ms = q[10].as_str().as_bytes();
            match parse_decimal(ms, 0) {
                Some(v) => {
                    assert(ms@.subrange(0, ms@.len() as int) =~= ms@);
                    Ok(Some(RedisCommandValue::new(command, Some(q[4].clone()), Some(q[6].clone()), Some(v))))
                },
                None => {
                    assert(ms@.subrange(0, ms@.len() as int) =~= ms@);
                    Err(RedisCommandError::Malformed)
                },
            }
        },
    }
}

/// Judges a buffer of lines that starts a frame: `Ok(None)` while more lines
/// are needed, the command once the frame is complete, or the reason it is
/// not a valid frame.
pub fn parse_redis_protocol(command_queue: &Vec<String>) -> (r: Result<Option<RedisCommandValue>, RedisCommandError>)
    ensures
        outcome_of(r) == frame_spec(lines_view(command_queue@)),
{
    let ghost lines = lines_view(command_queue@);
    if command_queue.len() == 0 {
        return Ok(None);
    }
    assert(lines[0] == command_queue@[0]@);
    let n = match header_value(&command_queue[0], 42) {
        Some(n) => n,
        None => return Err(RedisCommandError::Malformed),
    };
    if !(n == 1 || n == 2 || n == 3 || n == 5) {
        return Err(RedisCommandError::Malformed);
    }
    let need: usize = (2 * n + 1) as usize;
    if command_queue.len() < need {
        return Ok(None);
    }
    if command_queue.len() > need {
        return Err(RedisCommandError::Malformed);
    }
    let mut i: usize = 0;
    while i < n as usize
        invariant
            supported_arity(n),
            command_queue@.len() == 2 * n + 1,
            lines == lines_view(command_queue@),
            lines.len() == 2 * n + 1,
            header_spec(bytes_of(lines[0]), 42) == Some(n),
            i <= n,
            forall|j: int| 0 <= j < i ==> #[trigger] pair_ok(lines, j),
        decreases n - i,
    {
        assert(lines[2 * i + 1] == command_queue@[2 * i + 1]@);
        assert(lines[2 * i + 2] == command_queue@[2 * i + 2]@);
        let declared = header_value(&command_queue[2 * i + 1], 36);
        let actual = command_queue[2 * i + 2].as_str().as_bytes().len();
        match declared {
            Some(d) => {
                if d != actual as u64 {
                    assert(!pair_ok(lines, i as int));
                    assert(!pairs_ok(lines, n));
                    return Err(RedisCommandError::Malformed);
                }
            },
            None => {
                assert(!pair_ok(lines, i as int));
                assert(!pairs_ok(lines, n));
                return Err(RedisCommandError::Malformed);
            },
        }
        i = i + 1;
    }
    build_command(command_queue, n)
}

/// The lines of the frame that one connection is receiving.
pub struct FrameParser {
    buffer: Vec<String>,
}

impl FrameParser {
    pub closed spec fn pending(&self) -> Seq<Seq<char>> {
        lines_view(self.buffer@)
    }

    /// A parser with no pending lines.
    pub fn new() -> (r: FrameParser)
        ensures
            r.pending() == Seq::<Seq<char>>::empty(),
    {
        let r = FrameParser { buffer: Vec::new() };
        assert(r.pending() =~= Seq::<Seq<char>>::empty());
        r
    }

    /// Takes the next line of the connection. While the frame is incomplete
    /// the line is kept and `Ok(None)` comes back; once the frame is complete,
    /// or found invalid, the buffer is emptied and the command or the error
    /// comes back.
    pub fn feed(&mut self, line: String) -> (r: Result<Option<RedisCommandValue>, RedisCommandError>)
        ensures
            outcome_of(r) == frame_spec(old(self).pending().push(line@)),
            final(self).pending() == (if outcome_of(r) is Incomplete {
                old(self).pending().push(line@)
            } else {
                Seq::<Seq<char>>::empty()
            }),
    {
        let ghost line_view = line@;
        self.buffer.push(line);
        assert(self.pending() =~= old(self).pending().push(line_view));
        let r = parse_redis_protocol(&self.buffer);
        match r {
            Ok(None) => {},
            _ => {
                self.buffer.clear();
                assert(self.pending() =~= Seq::<Seq<char>>::empty());
            },
        }
        r
    }
}

} // verus!
