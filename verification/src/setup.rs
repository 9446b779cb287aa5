//! The construction of a manager: the handshake of the primary connection,
//! then that of the secondary one. Either failure ends the construction, and
//! no manager is handed out.

use crate::config::{address_of, Redis};
use crate::connection::{fresh, RedisConn, RedisConnView};
use crate::error::{RedisConnErr, RedisConnErrView};
use crate::handshake::{
    outcome_of, step, Handshake, HandshakeView, Phase, Progress, ProgressView, Request,
    RequestView,
};
use crate::reply::{has_prefix, ok_token, pong_token};
use crate::text::{copy_of, text_of};
use vstd::prelude::*;

verus! {

/// One of the two connections of a manager.
#[derive(Debug, Clone, Copy, PartialEq, Eq, Structural)]
pub enum Socket {
    /// The connection that subscribes and is polled for messages.
    Primary,
    /// The connection that records which channels are listened to.
    Secondary,
}

/// A construction that is under way.
#[derive(Debug)]
pub struct Construction {
    namespace: Option<String>,
    addr: String,
    password: Option<String>,
    socket: Socket,
    handshake: Handshake,
}

/// A construction under way as a mathematical value.
pub struct ConstructionView {
    /// The namespace of the manager to be.
    pub namespace: Option<Seq<char>>,
    /// The connection whose handshake is under way.
    pub socket: Socket,
    pub handshake: HandshakeView,
}

impl View for Construction {
    type V = ConstructionView;

    closed spec fn view(&self) -> ConstructionView {
        ConstructionView {
            namespace: text_of(self.namespace),
            socket: self.socket,
            handshake: self.handshake@,
        }
    }
}

/// Where a construction stands after a step.
#[derive(Debug)]
pub enum Setup {
    /// The construction goes on once the request has been carried out on the
    /// connection named.
    Continue(Construction, Socket, Request),
    /// Both connections are ready; here is the manager.
    Connected(RedisConn),
    /// The construction has failed; both connections are to be dropped.
    Failed(RedisConnErr),
}

/// A setup as a mathematical value.
pub enum SetupView {
    Continue(ConstructionView, RequestView),
    Connected(RedisConnView),
    Failed(RedisConnErrView),
}

impl View for Setup {
    type V = SetupView;

    open spec fn view(&self) -> SetupView {
        match *self {
            Setup::Continue(construction, _, request) => SetupView::Continue(
                construction@,
                request@,
            ),
            Setup::Connected(conn) => SetupView::Connected(conn@),
            Setup::Failed(err) => SetupView::Failed(err@),
        }
    }
}

/// The setup that goes with the progress `progress` of the handshake on
/// `socket`: once the primary connection is established, the secondary one is
/// opened; once that is established too, the manager is there.
pub open spec fn setup_of(
    namespace: Option<Seq<char>>,
    socket: Socket,
    state: HandshakeView,
    progress: ProgressView,
) -> SetupView {
    match progress {
        ProgressView::Continue(handshake, request) => SetupView::Continue(
            ConstructionView { namespace, socket, handshake },
            request,
        ),
        ProgressView::Failed(err) => SetupView::Failed(err),
        ProgressView::Established => match socket {
            Socket::Primary => SetupView::Continue(
                ConstructionView {
                    namespace,
                    socket: Socket::Secondary,
                    handshake: HandshakeView {
                        addr: state.addr,
                        password: state.password,
                        primary: false,
                        phase: Phase::Connecting,
                    },
                },
                RequestView::Connect(state.addr),
            ),
            Socket::Secondary => SetupView::Connected(fresh(namespace)),
        },
    }
}

/// The start of a construction: the primary connection is to be opened.
pub open spec fn setup_begin(
    addr: Seq<char>,
    password: Option<Seq<char>>,
    namespace: Option<Seq<char>>,
) -> SetupView {
    SetupView::Continue(
        ConstructionView {
            namespace,
            socket: Socket::Primary,
            handshake: HandshakeView { addr, password, primary: true, phase: Phase::Connecting },
        },
        RequestView::Connect(addr),
    )
}

/// One step of the construction: where it stands once the request that
/// `state` waits for has had the outcome `outcome`.
pub open spec fn setup_step(
    state: ConstructionView,
    outcome: Result<Seq<u8>, Seq<char>>,
) -> SetupView {
    setup_of(state.namespace, state.socket, state.handshake, step(state.handshake, outcome))
}

/// Where the construction stands after the outcomes `outcomes`, one for each
/// request in turn. Outcomes after its end count for nothing.
pub open spec fn setup_run(
    setup: SetupView,
    outcomes: Seq<Result<Seq<u8>, Seq<char>>>,
) -> SetupView
    decreases outcomes.len(),
{
    if outcomes.len() == 0 {
        setup
    } else {
        match setup {
            SetupView::Continue(state, _) => setup_run(
                setup_step(state, outcomes.first()),
                outcomes.drop_first(),
            ),
            _ => setup,
        }
    }
}

impl Construction {
    /// The handshake under way is well formed, it is the handshake of the
    /// connection named, and it goes to the configured address with the
    /// configured password.
    pub closed spec fn wf(&self) -> bool {
        &&& self.handshake.wf()
        &&& self.handshake@.addr == self.addr@
        &&& self.handshake@.password == text_of(self.password)
        &&& self.handshake@.primary == (self.socket == Socket::Primary)
    }
}

impl Setup {
    /// The construction that goes on, if any, is well formed and names the
    /// connection whose handshake is under way; the manager, if any, is too.
    pub open spec fn wf(&self) -> bool {
        match *self {
            Setup::Continue(construction, socket, _) => construction.wf() && construction@.socket
                == socket,
            Setup::Connected(conn) => conn.wf(),
            Setup::Failed(_) => true,
        }
    }

    /// Starts the construction of a manager for the store of `redis_cfg`.
    pub fn start(redis_cfg: &Redis) -> (setup: Setup)
        ensures
            setup.wf(),
            setup@ == setup_begin(
                address_of(redis_cfg.host@, redis_cfg.port),
                text_of(redis_cfg.password),
                text_of(redis_cfg.namespace),
            ),
    {
        let addr = redis_cfg.address();
        let (handshake, request) = Handshake::open(
            addr.clone(),
            copy_of(&redis_cfg.password),
            true,
        );
        Setup::Continue(
            Construction {
                namespace: copy_of(&redis_cfg.namespace),
                addr,
                password: copy_of(&redis_cfg.password),
                socket: Socket::Primary,
                handshake,
            },
            Socket::Primary,
            request,
        )
    }
}

impl Construction {
    /// Takes the outcome of the request that the construction waits for: the
    /// bytes that were read, none where the request reads nothing, or the
    /// cause of an I/O failure.
    pub fn advance(self, outcome: Result<Vec<u8>, String>) -> (setup: Setup)
        requires
            self.wf(),
        ensures
            setup.wf(),
            setup@ == setup_step(self@, outcome_of(outcome)),
    {
        let Construction { namespace, addr, password, socket, handshake } = self;
        match handshake.advance(outcome) {
            Progress::Continue(handshake, request) => Setup::Continue(
                Construction { namespace, addr, password, socket, handshake },
                socket,
                request,
            ),
            Progress::Failed(err) => Setup::Failed(err),
            Progress::Established => match socket {
                Socket::Primary => {
                    let (handshake, request) = Handshake::open(
                        addr.clone(),
                        copy_of(&password),
                        false,
                    );
                    Setup::Continue(
                        Construction {
                            namespace,
                            addr,
                            password,
                            socket: Socket::Secondary,
                            handshake,
                        },
                        Socket::Secondary,
                        request,
                    )
                },
                Socket::Secondary => Setup::Connected(RedisConn::with_namespace(namespace)),
            },
        }
    }
}

/// Law: a store that needs no password and answers each liveness check with
/// `+PONG\r\n` and each naming with `+OK\r\n` gets its manager, whatever the
/// address and the namespace, as long as the I/O itself succeeds: both
/// connections pass the handshake. `blank` stands for what the requests that
/// read nothing hand back.
pub proof fn lemma_setup_without_password(
    addr: Seq<char>,
    namespace: Option<Seq<char>>,
    blank: Seq<u8>,
    pong: Seq<u8>,
    named: Seq<u8>,
)
    requires
        has_prefix(pong, pong_token()),
        has_prefix(named, ok_token()),
    ensures
        setup_run(
            setup_begin(addr, None, namespace),
            seq![
                Ok(blank),
                Ok(pong),
                Ok(named),
                Ok(blank),
                Ok(blank),
                Ok(blank),
                Ok(pong),
                Ok(named),
                Ok(blank),
            ],
        ) == SetupView::Connected(fresh(namespace)),
{
    let o0: Seq<Result<Seq<u8>, Seq<char>>> = seq![
        Ok(blank),
        Ok(pong),
        Ok(named),
        Ok(blank),
        Ok(blank),
        Ok(blank),
        Ok(pong),
        Ok(named),
        Ok(blank),
    ];
    let o1 = o0.drop_first();
    let o2 = o1.drop_first();
    let o3 = o2.drop_first();
    let o4 = o3.drop_first();
    let o5 = o4.drop_first();
    let o6 = o5.drop_first();
    let o7 = o6.drop_first();
    let o8 = o7.drop_first();
    let o9 = o8.drop_first();
    let at = |socket: Socket, phase: Phase|
        ConstructionView {
            namespace,
            socket,
            handshake: HandshakeView {
                addr,
                password: None,
                primary: socket == Socket::Primary,
                phase,
            },
        };
    let s1 = setup_step(at(Socket::Primary, Phase::Connecting), o0.first());
    let s2 = setup_step(at(Socket::Primary, Phase::Validating), o1.first());
    let s3 = setup_step(at(Socket::Primary, Phase::Naming), o2.first());
    let s4 = setup_step(at(Socket::Primary, Phase::SettingTimeout), o3.first());
    let s5 = setup_step(at(Socket::Primary, Phase::SettingNonblocking), o4.first());
    let s6 = setup_step(at(Socket::Secondary, Phase::Connecting), o5.first());
    let s7 = setup_step(at(Socket::Secondary, Phase::Validating), o6.first());
    let s8 = setup_step(at(Socket::Secondary, Phase::Naming), o7.first());
    let s9 = setup_step(at(Socket::Secondary, Phase::SettingTimeout), o8.first());
    assert(setup_run(setup_begin(addr, None, namespace), o0) == setup_run(s1, o1));
    assert(setup_run(s1, o1) == setup_run(s2, o2));
    assert(setup_run(s2, o2) == setup_run(s3, o3));
    assert(setup_run(s3, o3) == setup_run(s4, o4));
    assert(setup_run(s4, o4) == setup_run(s5, o5));
    assert(setup_run(s5, o5) == setup_run(s6, o6));
    assert(setup_run(s6, o6) == setup_run(s7, o7));
    assert(setup_run(s7, o7) == setup_run(s8, o8));
    assert(setup_run(s8, o8) == setup_run(s9, o9));
    assert(s9 == SetupView::Connected(fresh(namespace)));
}

/// Law: where the store answers the first authentication with anything but
/// `+OK\r\n`, the construction fails with `IncorrectPassword`, which carries
/// the password that was tried. No manager is handed out and nothing more is
/// asked of either connection, whatever is reported afterwards.
pub proof fn lemma_setup_wrong_password(
    addr: Seq<char>,
    password: Seq<char>,
    namespace: Option<Seq<char>>,
    connected: Seq<u8>,
    reply: Seq<u8>,
    later: Seq<Result<Seq<u8>, Seq<char>>>,
)
    requires
        reply != ok_token(),
    ensures
        setup_run(
            setup_begin(addr, Some(password), namespace),
            seq![Ok(connected), Ok(reply)] + later,
        ) == SetupView::Failed(RedisConnErrView::IncorrectPassword(password)),
{
    let o0: Seq<Result<Seq<u8>, Seq<char>>> = seq![Ok(connected), Ok(reply)] + later;
    let o1 = o0.drop_first();
    let o2 = o1.drop_first();
    let first = HandshakeView {
        addr,
        password: Some(password),
        primary: true,
        phase: Phase::Connecting,
    };
    let s1 = setup_step(
        ConstructionView { namespace, socket: Socket::Primary, handshake: first },
        o0.first(),
    );
    let s2 = setup_step(
        ConstructionView {
            namespace,
            socket: Socket::Primary,
            handshake: HandshakeView { phase: Phase::Authenticating, ..first },
        },
        o1.first(),
    );
    assert(o0.first() == Ok::<Seq<u8>, Seq<char>>(connected));
    assert(o1.first() == Ok::<Seq<u8>, Seq<char>>(reply));
    assert(setup_run(setup_begin(addr, Some(password), namespace), o0) == setup_run(s1, o1));
    assert(setup_run(s1, o1) == setup_run(s2, o2));
    assert(s2 == SetupView::Failed(RedisConnErrView::IncorrectPassword(password)));
    assert(setup_run(s2, o2) == s2);
}

} // verus!
