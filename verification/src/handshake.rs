//! The handshake of one connection: an optional authentication, a liveness
//! check and the naming of the connection, then the socket options.
//!
//! The handshake is a state machine. It says what to do next on the socket;
//! whoever owns the socket does it and reports how it went.

use crate::error::{RedisConnErr, RedisConnErrView};
use crate::reply::{
    classify, classify_reply, has_prefix, ok_token, pong_token, same_bytes, starts_with,
    ReplyClass,
};
use crate::resp::{
    auth_command, encode_auth, encode_ping, encode_set_name, ping_command, set_name_command,
};
use crate::text::{lossy_text, text_of, utf8_lossy};
use vstd::prelude::*;

verus! {

/// The number of bytes of the reply to the authentication.
pub const AUTH_REPLY_LEN: usize = 5;

/// The room for the replies to the liveness check and to the naming, in bytes.
pub const REPLY_WINDOW: usize = 100;

/// The read timeout of an established connection, in milliseconds.
pub const READ_TIMEOUT_MILLIS: u64 = 10;

/// How the reply to a command is to be read.
#[derive(Debug, Clone, Copy, PartialEq, Eq, Structural)]
pub enum ReplyRead {
    /// Read until exactly this many bytes have arrived.
    Exactly(usize),
    /// Read once into a zeroed buffer of this many bytes and hand back the
    /// buffer.
    UpTo(usize),
}

/// What the owner of the socket is asked to do next.
#[derive(Debug, PartialEq, Eq)]
pub enum Request {
    /// Open a connection to this address.
    Connect(String),
    /// Write `command` in full, then read the reply.
    Exchange { command: Vec<u8>, reply: ReplyRead },
    /// Set the read timeout to this many milliseconds.
    SetReadTimeout(u64),
    /// Switch the socket to non-blocking mode.
    SetNonblocking,
}

/// A request as a mathematical value.
pub enum RequestView {
    Connect(Seq<char>),
    Exchange { command: Seq<u8>, reply: ReplyRead },
    SetReadTimeout(u64),
    SetNonblocking,
}

impl View for Request {
    type V = RequestView;

    open spec fn view(&self) -> RequestView {
        match *self {
            Request::Connect(addr) => RequestView::Connect(addr@),
            Request::Exchange { command, reply } => RequestView::Exchange {
                command: command@,
                reply,
            },
            Request::SetReadTimeout(millis) => RequestView::SetReadTimeout(millis),
            Request::SetNonblocking => RequestView::SetNonblocking,
        }
    }
}

impl Clone for Request {
    fn clone(&self) -> (copy: Request)
        ensures
            copy@ == self@,
    {
        match self {
            Request::Connect(addr) => Request::Connect(addr.clone()),
            Request::Exchange { command, reply } => Request::Exchange {
                command: command.clone(),
                reply: *reply,
            },
            Request::SetReadTimeout(millis) => Request::SetReadTimeout(*millis),
            Request::SetNonblocking => Request::SetNonblocking,
        }
    }
}

/// The request whose outcome a handshake waits for.
#[derive(Debug, Clone, Copy, PartialEq, Eq, Structural)]
pub enum Phase {
    Connecting,
    Authenticating,
    Validating,
    Naming,
    SettingTimeout,
    SettingNonblocking,
}

/// A handshake that is under way.
#[derive(Debug)]
pub struct Handshake {
    addr: String,
    password: Option<String>,
    primary: bool,
    phase: Phase,
}

/// A handshake as a mathematical value.
pub struct HandshakeView {
    /// The address of the store, `host:port`.
    pub addr: Seq<char>,
    /// The configured password, if any.
    pub password: Option<Seq<char>>,
    /// Whether this is the connection that is polled for messages.
    pub primary: bool,
    pub phase: Phase,
}

impl View for Handshake {
    type V = HandshakeView;

    closed spec fn view(&self) -> HandshakeView {
        HandshakeView {
            addr: self.addr@,
            password: text_of(self.password),
            primary: self.primary,
            phase: self.phase,
        }
    }
}

/// Where a handshake stands after a step.
#[derive(Debug)]
pub enum Progress {
    /// The handshake goes on once the request has been carried out.
    Continue(Handshake, Request),
    /// The connection is ready for use.
    Established,
    /// The handshake has failed; the connection is to be dropped.
    Failed(RedisConnErr),
}

/// A progress as a mathematical value.
pub enum ProgressView {
    Continue(HandshakeView, RequestView),
    Established,
    Failed(RedisConnErrView),
}

impl View for Progress {
    type V = ProgressView;

    open spec fn view(&self) -> ProgressView {
        match *self {
            Progress::Continue(handshake, request) => ProgressView::Continue(
                handshake@,
                request@,
            ),
            Progress::Established => ProgressView::Established,
            Progress::Failed(err) => ProgressView::Failed(err@),
        }
    }
}

/// An outcome as a mathematical value: the bytes that were read, or the cause
/// of the failure.
pub open spec fn outcome_of(outcome: Result<Vec<u8>, String>) -> Result<Seq<u8>, Seq<char>> {
    match outcome {
        Ok(bytes) => Ok(bytes@),
        Err(cause) => Err(cause@),
    }
}

/// A verdict as a mathematical value.
pub open spec fn verdict_of(verdict: Result<(), RedisConnErr>) -> Result<(), RedisConnErrView> {
    match verdict {
        Ok(()) => Ok(()),
        Err(err) => Err(err@),
    }
}

/// The verdict on the reply to the authentication with `password`: only the
/// exact reply `+OK\r\n` accepts it.
pub open spec fn auth_verdict(reply: Seq<u8>, password: Seq<char>) -> Result<
    (),
    RedisConnErrView,
> {
    if reply == ok_token() {
        Ok(())
    } else {
        Err(RedisConnErrView::IncorrectPassword(password))
    }
}

/// The verdict on the reply to the liveness check that came from `addr` and
/// reads `text`.
pub open spec fn ping_verdict(reply: Seq<u8>, addr: Seq<char>, text: Seq<char>) -> Result<
    (),
    RedisConnErrView,
> {
    match classify(reply, pong_token()) {
        ReplyClass::Expected => Ok(()),
        ReplyClass::AuthRequired => Err(RedisConnErrView::MissingPassword),
        ReplyClass::NotThisProtocol => Err(RedisConnErrView::NotRedis(addr)),
        ReplyClass::Unrecognized => Err(RedisConnErrView::InvalidRedisReply(text)),
    }
}

/// The verdict on the reply to the naming, which reads `text`.
pub open spec fn name_verdict(reply: Seq<u8>, text: Seq<char>) -> Result<(), RedisConnErrView> {
    if has_prefix(reply, ok_token()) {
        Ok(())
    } else {
        Err(RedisConnErrView::InvalidRedisReply(text))
    }
}

/// Judges the reply to the authentication with `password`.
pub fn check_auth_reply(reply: &[u8], password: String) -> (verdict: Result<(), RedisConnErr>)
    ensures
        verdict_of(verdict) == auth_verdict(reply@, password@),
{
    if same_bytes(reply, "+OK\r\n".as_bytes()) {
        Ok(())
    } else {
        Err(RedisConnErr::IncorrectPassword(password))
    }
}

/// Judges the reply to the liveness check. `addr` is where the reply came
/// from and `text` is the reply as text.
pub fn check_ping_reply(reply: &[u8], addr: String, text: String) -> (verdict: Result<
    (),
    RedisConnErr,
>)
    ensures
        verdict_of(verdict) == ping_verdict(reply@, addr@, text@),
{
    match classify_reply(reply, "+PONG\r\n".as_bytes()) {
        ReplyClass::Expected => Ok(()),
        ReplyClass::AuthRequired => Err(RedisConnErr::MissingPassword),
        ReplyClass::NotThisProtocol => Err(RedisConnErr::NotRedis(addr)),
        ReplyClass::Unrecognized => Err(RedisConnErr::InvalidRedisReply(text)),
    }
}

/// Judges the reply to the naming of the connection. `text` is the reply as
/// text.
pub fn check_name_reply(reply: &[u8], text: String) -> (verdict: Result<(), RedisConnErr>)
    ensures
        verdict_of(verdict) == name_verdict(reply@, text@),
{
    if starts_with(reply, "+OK\r\n".as_bytes()) {
        Ok(())
    } else {
        Err(RedisConnErr::InvalidRedisReply(text))
    }
}

/// The liveness check and how its reply is read.
pub open spec fn ping_request() -> RequestView {
    RequestView::Exchange { command: ping_command(), reply: ReplyRead::UpTo(REPLY_WINDOW) }
}

/// The start of a handshake with the store at `addr`: the connection is to be
/// opened.
pub open spec fn begin(
    addr: Seq<char>,
    password: Option<Seq<char>>,
    primary: bool,
) -> ProgressView {
    ProgressView::Continue(
        HandshakeView { addr, password, primary, phase: Phase::Connecting },
        RequestView::Connect(addr),
    )
}

/// One step of the handshake: where it stands once the request that `state`
/// waits for has had the outcome `outcome`.
///
/// Any I/O failure ends the handshake. Otherwise the steps are: connect;
/// where a password is configured, authenticate; check liveness; name the
/// connection; set the read timeout; on the primary connection, switch to
/// non-blocking mode.
pub open spec fn step(state: HandshakeView, outcome: Result<Seq<u8>, Seq<char>>) -> ProgressView {
    match outcome {
        Err(cause) => ProgressView::Failed(
            RedisConnErrView::ConnectFailure { addr: state.addr, cause },
        ),
        Ok(reply) => match state.phase {
            Phase::Connecting => match state.password {
                Some(password) => ProgressView::Continue(
                    HandshakeView { phase: Phase::Authenticating, ..state },
                    RequestView::Exchange {
                        command: auth_command(password),
                        reply: ReplyRead::Exactly(AUTH_REPLY_LEN),
                    },
                ),
                None => ProgressView::Continue(
                    HandshakeView { phase: Phase::Validating, ..state },
                    ping_request(),
                ),
            },
            Phase::Authenticating => match auth_verdict(reply, state.password->0) {
                Ok(()) => ProgressView::Continue(
                    HandshakeView { phase: Phase::Validating, ..state },
                    ping_request(),
                ),
                Err(err) => ProgressView::Failed(err),
            },
            Phase::Validating => match ping_verdict(reply, state.addr, utf8_lossy(reply)) {
                Ok(()) => ProgressView::Continue(
                    HandshakeView { phase: Phase::Naming, ..state },
                    RequestView::Exchange {
                        command: set_name_command(),
                        reply: ReplyRead::UpTo(REPLY_WINDOW),
                    },
                ),
                Err(err) => ProgressView::Failed(err),
            },
            Phase::Naming => match name_verdict(reply, utf8_lossy(reply)) {
                Ok(()) => ProgressView::Continue(
                    HandshakeView { phase: Phase::SettingTimeout, ..state },
                    RequestView::SetReadTimeout(READ_TIMEOUT_MILLIS),
                ),
                Err(err) => ProgressView::Failed(err),
            },
            Phase::SettingTimeout => if state.primary {
                ProgressView::Continue(
                    HandshakeView { phase: Phase::SettingNonblocking, ..state },
                    RequestView::SetNonblocking,
                )
            } else {
                ProgressView::Established
            },
            Phase::SettingNonblocking => ProgressView::Established,
        },
    }
}

/// Where the handshake stands after the outcomes `outcomes`, one for each
/// request in turn. Outcomes after the end of the handshake count for nothing.
pub open spec fn run(
    progress: ProgressView,
    outcomes: Seq<Result<Seq<u8>, Seq<char>>>,
) -> ProgressView
    decreases outcomes.len(),
{
    if outcomes.len() == 0 {
        progress
    } else {
        match progress {
            ProgressView::Continue(state, _) => run(
                step(state, outcomes.first()),
                outcomes.drop_first(),
            ),
            _ => progress,
        }
    }
}

impl Handshake {
    /// A handshake that waits for the authentication's reply has a password.
    pub open spec fn wf(&self) -> bool {
        self@.phase == Phase::Authenticating ==> self@.password is Some
    }

    /// A handshake with the store at `addr` that has yet to connect, and the
    /// request to do so. `primary` says whether the connection will be polled
    /// for messages.
    pub fn open(addr: String, password: Option<String>, primary: bool) -> (opened: (
        Handshake,
        Request,
    ))
        ensures
            ProgressView::Continue(opened.0@, opened.1@) == begin(
                addr@,
                text_of(password),
                primary,
            ),
            opened.0.wf(),
    {
        let target = addr.clone();
        (Handshake { addr, password, primary, phase: Phase::Connecting }, Request::Connect(target))
    }

    /// Starts the handshake of a connection to the store at `addr`. `primary`
    /// says whether the connection will be polled for messages.
    pub fn start(addr: String, password: Option<String>, primary: bool) -> (progress: Progress)
        ensures
            progress@ == begin(addr@, text_of(password), primary),
            progress.wf(),
    {
        let (handshake, request) = Handshake::open(addr, password, primary);
        Progress::Continue(handshake, request)
    }

    /// Takes the outcome of the request that the handshake waits for: the
    /// bytes that were read, none where the request reads nothing, or the
    /// cause of an I/O failure.
    pub fn advance(self, outcome: Result<Vec<u8>, String>) -> (progress: Progress)
        requires
            self.wf(),
        ensures
            progress@ == step(self@, outcome_of(outcome)),
            progress.wf(),
    {
        let Handshake { addr, password, primary, phase } = self;
        let reply = match outcome {
            Ok(reply) => reply,
            Err(cause) => {
                return Progress::Failed(RedisConnErr::ConnectFailure { addr, cause });
            },
        };
        match phase {
            Phase::Connecting => match password {
                Some(word) => {
                    let command = encode_auth(word.as_str());
                    Progress::Continue(
                        Handshake {
                            addr,
                            password: Some(word),
                            primary,
                            phase: Phase::Authenticating,
                        },
                        Request::Exchange { command, reply: ReplyRead::Exactly(AUTH_REPLY_LEN) },
                    )
                },
                None => Progress::Continue(
                    Handshake { addr, password: None, primary, phase: Phase::Validating },
                    Request::Exchange {
                        command: encode_ping(),
                        reply: ReplyRead::UpTo(REPLY_WINDOW),
                    },
                ),
            },
            Phase::Authenticating => match password {
                Some(word) => {
                    let kept = word.clone();
                    match check_auth_reply(reply.as_slice(), word) {
                        Ok(()) => Progress::Continue(
                            Handshake {
                                addr,
                                password: Some(kept),
                                primary,
                                phase: Phase::Validating,
                            },
                            Request::Exchange {
                                command: encode_ping(),
                                reply: ReplyRead::UpTo(REPLY_WINDOW),
                            },
                        ),
                        Err(err) => Progress::Failed(err),
                    }
                },
                None => vstd::pervasive::unreached(),
            },
            Phase::Validating => {
                let text = lossy_text(reply.as_slice());
                match check_ping_reply(reply.as_slice(), addr.clone(), text) {
                    Ok(()) => Progress::Continue(
                        Handshake { addr, password, primary, phase: Phase::Naming },
                        Request::Exchange {
                            command: encode_set_name(),
                            reply: ReplyRead::UpTo(REPLY_WINDOW),
                        },
                    ),
                    Err(err) => Progress::Failed(err),
                }
            },
            Phase::Naming => {
                let text = lossy_text(reply.as_slice());
                match check_name_reply(reply.as_slice(), text) {
                    Ok(()) => Progress::Continue(
                        Handshake { addr, password, primary, phase: Phase::SettingTimeout },
                        Request::SetReadTimeout(READ_TIMEOUT_MILLIS),
                    ),
                    Err(err) => Progress::Failed(err),
                }
            },
            Phase::SettingTimeout => if primary {
                Progress::Continue(
                    Handshake { addr, password, primary, phase: Phase::SettingNonblocking },
                    Request::SetNonblocking,
                )
            } else {
                Progress::Established
            },
            Phase::SettingNonblocking => Progress::Established,
        }
    }
}

impl Progress {
    /// The handshake that goes on, if any, is well formed.
    pub open spec fn wf(&self) -> bool {
        match *self {
            Progress::Continue(handshake, _) => handshake.wf(),
            _ => true,
        }
    }
}

/// Law: a store that needs no password and answers the liveness check with
/// `+PONG\r\n` and the naming with `+OK\r\n` is connected to, whatever the
/// address, on the primary connection as on the secondary one, as long as the
/// I/O itself succeeds. `connected`, `timed` and `unblocked` stand for what
/// the requests that read nothing hand back.
pub proof fn lemma_handshake_without_password(
    addr: Seq<char>,
    primary: bool,
    connected: Seq<u8>,
    pong: Seq<u8>,
    named: Seq<u8>,
    timed: Seq<u8>,
    unblocked: Seq<u8>,
)
    requires
        has_prefix(pong, pong_token()),
        has_prefix(named, ok_token()),
    ensures
        run(
            begin(addr, None, primary),
            seq![Ok(connected), Ok(pong), Ok(named), Ok(timed), Ok(unblocked)],
        ) == ProgressView::Established,
{
    let outcomes: Seq<Result<Seq<u8>, Seq<char>>> = seq![
        Ok(connected),
        Ok(pong),
        Ok(named),
        Ok(timed),
        Ok(unblocked),
    ];
    let rest1 = outcomes.drop_first();
    let rest2 = rest1.drop_first();
    let rest3 = rest2.drop_first();
    let rest4 = rest3.drop_first();
    let rest5 = rest4.drop_first();
    let start = HandshakeView { addr, password: None, primary, phase: Phase::Connecting };
    let after1 = step(start, outcomes.first());
    let after2 = step(HandshakeView { phase: Phase::Validating, ..start }, rest1.first());
    let after3 = step(HandshakeView { phase: Phase::Naming, ..start }, rest2.first());
    let after4 = step(HandshakeView { phase: Phase::SettingTimeout, ..start }, rest3.first());
    assert(run(begin(addr, None, primary), outcomes) == run(after1, rest1));
    assert(run(after1, rest1) == run(after2, rest2));
    assert(run(after2, rest2) == run(after3, rest3));
    assert(run(after3, rest3) == run(after4, rest4));
    if primary {
        let after5 = step(
            HandshakeView { phase: Phase::SettingNonblocking, ..start },
            rest4.first(),
        );
        assert(run(after4, rest4) == run(after5, rest5));
        assert(run(after5, rest5) == ProgressView::Established);
    } else {
        assert(run(after4, rest4) == ProgressView::Established);
    }
}

/// Law: where the store answers the authentication with anything but
/// `+OK\r\n`, the handshake fails with `IncorrectPassword`, which carries the
/// password that was tried. Nothing more is asked of the connection, whatever
/// is reported afterwards.
pub proof fn lemma_wrong_password_fails(
    addr: Seq<char>,
    password: Seq<char>,
    primary: bool,
    connected: Seq<u8>,
    reply: Seq<u8>,
    later: Seq<Result<Seq<u8>, Seq<char>>>,
)
    requires
        reply != ok_token(),
    ensures
        run(begin(addr, Some(password), primary), seq![Ok(connected), Ok(reply)] + later)
            == ProgressView::Failed(RedisConnErrView::IncorrectPassword(password)),
{
    let outcomes: Seq<Result<Seq<u8>, Seq<char>>> = seq![Ok(connected), Ok(reply)] + later;
    let rest1 = outcomes.drop_first();
    let rest2 = rest1.drop_first();
    let start = HandshakeView { addr, password: Some(password), primary, phase: Phase::Connecting };
    let after1 = step(start, outcomes.first());
    let after2 = step(HandshakeView { phase: Phase::Authenticating, ..start }, rest1.first());
    assert(outcomes.first() == Ok::<Seq<u8>, Seq<char>>(connected));
    assert(rest1.first() == Ok::<Seq<u8>, Seq<char>>(reply));
    assert(run(begin(addr, Some(password), primary), outcomes) == run(after1, rest1));
    assert(run(after1, rest1) == run(after2, rest2));
    assert(after2 == ProgressView::Failed(RedisConnErrView::IncorrectPassword(password)));
    assert(run(after2, rest2) == after2);
}

/// Law: a reply to the liveness check that begins like an HTTP response ends
/// the handshake with `NotRedis`, which carries the address, and never with
/// `InvalidRedisReply`.
pub proof fn lemma_http_reply_is_not_redis(state: HandshakeView, reply: Seq<u8>)
    requires
        state.phase == Phase::Validating,
        has_prefix(reply, crate::reply::http_token()),
    ensures
        step(state, Ok(reply)) == ProgressView::Failed(RedisConnErrView::NotRedis(state.addr)),
        forall|text: Seq<char>|
            ping_verdict(reply, state.addr, text) == Err::<(), RedisConnErrView>(
                RedisConnErrView::NotRedis(state.addr),
            ),
{
    crate::reply::lemma_http_is_not_this_protocol(reply);
}

} // verus!
