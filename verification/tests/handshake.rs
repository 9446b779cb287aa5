use redis_conn::config::Redis;
use redis_conn::error::RedisConnErr;
use redis_conn::handshake::{
    check_auth_reply, check_name_reply, check_ping_reply, Handshake, Progress, ReplyRead, Request,
};

fn padded(reply: &[u8]) -> Vec<u8> {
    let mut buffer = vec![0_u8; 100];
    buffer[..reply.len()].copy_from_slice(reply);
    buffer
}

/// A store that accepts `expected` as password, or any connection if it wants none.
fn backend(command: &[u8], reply: ReplyRead, expected: Option<&str>, authed: &mut bool) -> Vec<u8> {
    if command.starts_with(b"*2\r\n$4\r\nauth\r\n") {
        assert_eq!(reply, ReplyRead::Exactly(5));
        let wanted = expected.map(|p| {
            format!("*2\r\n$4\r\nauth\r\n${}\r\n{}\r\n", p.len(), p).into_bytes()
        });
        if wanted.as_deref() == Some(command) {
            *authed = true;
            b"+OK\r\n".to_vec()
        } else {
            b"-ERR ".to_vec()
        }
    } else if expected.is_some() && !*authed {
        padded(b"-NOAUTH Authentication required.\r\n")
    } else if command == b"PING\r\n" {
        assert_eq!(reply, ReplyRead::UpTo(100));
        padded(b"+PONG\r\n")
    } else {
        assert_eq!(reply, ReplyRead::UpTo(100));
        padded(b"+OK\r\n")
    }
}

/// Runs a handshake against `backend` and returns how it ended and what was asked.
fn connect(
    cfg: &Redis,
    primary: bool,
    expected: Option<&str>,
) -> (Result<(), RedisConnErr>, Vec<Request>) {
    let mut asked = Vec::new();
    let mut authed = false;
    let mut progress = Handshake::start(cfg.address(), cfg.password.clone(), primary);
    loop {
        match progress {
            Progress::Continue(handshake, request) => {
                asked.push(request.clone());
                let outcome = match request {
                    Request::Exchange { command, reply } => {
                        Ok(backend(&command, reply, expected, &mut authed))
                    }
                    _ => Ok(Vec::new()),
                };
                progress = handshake.advance(outcome);
            }
            Progress::Established => return (Ok(()), asked),
            Progress::Failed(err) => return (Err(err), asked),
        }
    }
}

#[test]
fn handshake_without_password_is_established() {
    for (host, port) in [("127.0.0.1", 6379_u16), ("redis.example", 1), ("::1", 65535)] {
        let cfg = Redis {
            host: host.to_string(),
            port,
            ..Redis::default()
        };
        for primary in [true, false] {
            let (ended, _) = connect(&cfg, primary, None);
            assert_eq!(ended, Ok(()));
        }
    }
}

#[test]
fn primary_handshake_asks_in_order() {
    let (ended, asked) = connect(&Redis::default(), true, None);
    assert_eq!(ended, Ok(()));
    assert_eq!(
        asked,
        vec![
            Request::Connect("127.0.0.1:6379".to_string()),
            Request::Exchange {
                command: b"PING\r\n".to_vec(),
                reply: ReplyRead::UpTo(100)
            },
            Request::Exchange {
                command: b"*3\r\n$6\r\nCLIENT\r\n$7\r\nSETNAME\r\n$8\r\nflodgatt\r\n".to_vec(),
                reply: ReplyRead::UpTo(100)
            },
            Request::SetReadTimeout(10),
            Request::SetNonblocking,
        ]
    );
}

#[test]
fn secondary_handshake_stays_blocking() {
    let (ended, asked) = connect(&Redis::default(), false, None);
    assert_eq!(ended, Ok(()));
    assert_eq!(asked.len(), 4);
    assert_eq!(asked[3], Request::SetReadTimeout(10));
    assert!(!asked.contains(&Request::SetNonblocking));
}

#[test]
fn handshake_with_the_right_password_is_established() {
    let cfg = Redis {
        password: Some("hunter2".to_string()),
        ..Redis::default()
    };
    let (ended, asked) = connect(&cfg, true, Some("hunter2"));
    assert_eq!(ended, Ok(()));
    assert_eq!(
        asked[1],
        Request::Exchange {
            command: b"*2\r\n$4\r\nauth\r\n$7\r\nhunter2\r\n".to_vec(),
            reply: ReplyRead::Exactly(5)
        }
    );
    assert_eq!(asked.len(), 6);
}

#[test]
fn handshake_with_a_wrong_password_fails() {
    for wrong in ["", "hunter", "hunter22", "HUNTER2", "\u{fc}ber"] {
        let cfg = Redis {
            password: Some(wrong.to_string()),
            ..Redis::default()
        };
        for primary in [true, false] {
            let (ended, asked) = connect(&cfg, primary, Some("hunter2"));
            assert_eq!(ended, Err(RedisConnErr::IncorrectPassword(wrong.to_string())));
            assert_eq!(asked.len(), 2);
        }
    }
}

#[test]
fn handshake_without_the_needed_password_fails() {
    let (ended, asked) = connect(&Redis::default(), true, Some("hunter2"));
    assert_eq!(ended, Err(RedisConnErr::MissingPassword));
    assert_eq!(asked.len(), 2);
}

fn answer_ping(reply: &[u8]) -> Progress {
    let cfg = Redis {
        host: "example.org".to_string(),
        port: 80,
        ..Redis::default()
    };
    let progress = Handshake::start(cfg.address(), None, true);
    let progress = match progress {
        Progress::Continue(handshake, _) => handshake.advance(Ok(Vec::new())),
        _ => panic!("the handshake ended before it began"),
    };
    match progress {
        Progress::Continue(handshake, _) => handshake.advance(Ok(reply.to_vec())),
        _ => panic!("the handshake ended before the liveness check"),
    }
}

#[test]
fn http_reply_to_ping_is_not_redis() {
    for reply in [
        &b"HTTP/1.1 400 Bad Request\r\n"[..],
        &b"HTTP/1.0 200 OK\r\n\r\n<html>"[..],
        &b"HTTP/1."[..],
        &b"HTTP/1.\xff\xfe"[..],
    ] {
        match answer_ping(&padded(reply)) {
            Progress::Failed(err) => {
                assert_eq!(err, RedisConnErr::NotRedis("example.org:80".to_string()))
            }
            _ => panic!("an HTTP reply was accepted"),
        }
    }
}

#[test]
fn unknown_reply_to_ping_is_invalid() {
    match answer_ping(b"-ERR unknown command 'PING'\r\n") {
        Progress::Failed(err) => assert_eq!(
            err,
            RedisConnErr::InvalidRedisReply("-ERR unknown command 'PING'\r\n".to_string())
        ),
        _ => panic!("an error reply was accepted"),
    }
}

#[test]
fn invalid_reply_text_replaces_broken_bytes() {
    match answer_ping(b"\xff+PONG\r\n") {
        Progress::Failed(err) => assert_eq!(
            err,
            RedisConnErr::InvalidRedisReply("\u{fffd}+PONG\r\n".to_string())
        ),
        _ => panic!("a broken reply was accepted"),
    }
}

#[test]
fn invalid_reply_text_keeps_the_whole_window() {
    match answer_ping(&padded(b"-ERR\r\n")) {
        Progress::Failed(RedisConnErr::InvalidRedisReply(text)) => {
            assert_eq!(text.len(), 100);
            assert!(text.starts_with("-ERR\r\n\0"));
        }
        _ => panic!("an error reply was accepted"),
    }
}

#[test]
fn refused_name_is_an_invalid_reply() {
    let progress = match answer_ping(&padded(b"+PONG\r\n")) {
        Progress::Continue(handshake, request) => {
            assert_eq!(
                request,
                Request::Exchange {
                    command: b"*3\r\n$6\r\nCLIENT\r\n$7\r\nSETNAME\r\n$8\r\nflodgatt\r\n"
                        .to_vec(),
                    reply: ReplyRead::UpTo(100)
                }
            );
            handshake.advance(Ok(b"-ERR no".to_vec()))
        }
        _ => panic!("the liveness check failed"),
    };
    match progress {
        Progress::Failed(err) => {
            assert_eq!(err, RedisConnErr::InvalidRedisReply("-ERR no".to_string()))
        }
        _ => panic!("a refusal was accepted"),
    }
}

#[test]
fn http_reply_to_naming_is_an_invalid_reply() {
    let progress = match answer_ping(&padded(b"+PONG\r\n")) {
        Progress::Continue(handshake, _) => handshake.advance(Ok(b"HTTP/1.1 200".to_vec())),
        _ => panic!("the liveness check failed"),
    };
    match progress {
        Progress::Failed(err) => {
            assert_eq!(err, RedisConnErr::InvalidRedisReply("HTTP/1.1 200".to_string()))
        }
        _ => panic!("an HTTP reply was accepted"),
    }
}

#[test]
fn failed_connect_carries_address_and_cause() {
    let progress = match Handshake::start("10.0.0.1:6379".to_string(), None, false) {
        Progress::Continue(handshake, request) => {
            assert_eq!(request, Request::Connect("10.0.0.1:6379".to_string()));
            handshake.advance(Err("connection refused".to_string()))
        }
        _ => panic!("the handshake ended before it began"),
    };
    match progress {
        Progress::Failed(err) => assert_eq!(
            err,
            RedisConnErr::ConnectFailure {
                addr: "10.0.0.1:6379".to_string(),
                cause: "connection refused".to_string()
            }
        ),
        _ => panic!("a failed connect was accepted"),
    }
}

#[test]
fn io_failure_in_any_phase_ends_the_handshake() {
    let cfg = Redis {
        password: Some("pw".to_string()),
        ..Redis::default()
    };
    for fail_at in 0..6 {
        let mut progress = Handshake::start(cfg.address(), cfg.password.clone(), true);
        let mut authed = false;
        let mut step = 0;
        let ended = loop {
            match progress {
                Progress::Continue(handshake, request) => {
                    let outcome = if step == fail_at {
                        Err("timed out".to_string())
                    } else {
                        match request {
                            Request::Exchange { command, reply } => {
                                Ok(backend(&command, reply, Some("pw"), &mut authed))
                            }
                            _ => Ok(Vec::new()),
                        }
                    };
                    step += 1;
                    progress = handshake.advance(outcome);
                }
                Progress::Established => break Ok(()),
                Progress::Failed(err) => break Err(err),
            }
        };
        assert_eq!(
            ended,
            Err(RedisConnErr::with_addr("127.0.0.1:6379", "timed out".to_string()))
        );
        assert_eq!(step, fail_at + 1);
    }
}

#[test]
fn open_handshake_asks_to_connect() {
    let (handshake, request) = Handshake::open("h:6379".to_string(), None, true);
    assert_eq!(request, Request::Connect("h:6379".to_string()));
    match handshake.advance(Ok(Vec::new())) {
        Progress::Continue(_, request) => assert_eq!(
            request,
            Request::Exchange {
                command: b"PING\r\n".to_vec(),
                reply: ReplyRead::UpTo(100)
            }
        ),
        _ => panic!("the handshake ended after the connect"),
    }
}

#[test]
fn auth_reply_must_be_exactly_ok() {
    assert_eq!(check_auth_reply(b"+OK\r\n", "pw".to_string()), Ok(()));
    for reply in [&b"+OK\r"[..], b"+OK\r\n\0", b"-ERR ", b"+PONG", b""] {
        assert_eq!(
            check_auth_reply(reply, "pw".to_string()),
            Err(RedisConnErr::IncorrectPassword("pw".to_string()))
        );
    }
}

#[test]
fn ping_reply_verdicts() {
    let addr = || "h:1".to_string();
    let text = || "text".to_string();
    assert_eq!(check_ping_reply(b"+PONG\r\n", addr(), text()), Ok(()));
    assert_eq!(check_ping_reply(&padded(b"+PONG\r\n"), addr(), text()), Ok(()));
    assert_eq!(
        check_ping_reply(b"-NOAUTH", addr(), text()),
        Err(RedisConnErr::MissingPassword)
    );
    assert_eq!(
        check_ping_reply(b"HTTP/1.1", addr(), text()),
        Err(RedisConnErr::NotRedis("h:1".to_string()))
    );
    assert_eq!(
        check_ping_reply(b"+OK\r\n", addr(), text()),
        Err(RedisConnErr::InvalidRedisReply("text".to_string()))
    );
}

#[test]
fn name_reply_verdicts() {
    assert_eq!(check_name_reply(b"+OK\r\n", "t".to_string()), Ok(()));
    assert_eq!(check_name_reply(&padded(b"+OK\r\n"), "t".to_string()), Ok(()));
    for reply in [&b"+PONG\r\n"[..], b"-NOAUTH", b"HTTP/1.1", b"+OK", b""] {
        assert_eq!(
            check_name_reply(reply, "t".to_string()),
            Err(RedisConnErr::InvalidRedisReply("t".to_string()))
        );
    }
}

#[test]
fn clone_of_an_error_is_equal() {
    for err in [
        RedisConnErr::with_addr("a:1", "refused".to_string()),
        RedisConnErr::IncorrectPassword("pw".to_string()),
        RedisConnErr::MissingPassword,
        RedisConnErr::NotRedis("a:1".to_string()),
        RedisConnErr::InvalidRedisReply("-ERR".to_string()),
        RedisConnErr::IoError("broken pipe".to_string()),
    ] {
        assert_eq!(err.clone(), err);
    }
}

#[test]
fn clone_of_a_request_is_equal() {
    for request in [
        Request::Connect("a:1".to_string()),
        Request::Exchange {
            command: b"PING\r\n".to_vec(),
            reply: ReplyRead::UpTo(100),
        },
        Request::SetReadTimeout(10),
        Request::SetNonblocking,
    ] {
        assert_eq!(request.clone(), request);
    }
}
