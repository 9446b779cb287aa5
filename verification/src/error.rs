//! What can go wrong on a connection to the store.

use vstd::prelude::*;

verus! {

/// A failure of one connection. None is retried here: the caller discards the
/// connection and builds a new one.
#[derive(Debug, PartialEq, Eq)]
pub enum RedisConnErr {
    /// The connection to `addr` could not be opened or prepared.
    ConnectFailure { addr: String, cause: String },
    /// The store refused the password that is carried here.
    IncorrectPassword(String),
    /// The store asks for a password and none was configured.
    MissingPassword,
    /// What answers at the address that is carried here is not the store.
    NotRedis(String),
    /// The store answered, but not with what the handshake expects; the reply
    /// is carried as text.
    InvalidRedisReply(String),
    /// Reading or writing failed after the handshake.
    IoError(String),
}

/// A failure as a mathematical value: every string by its characters.
pub enum RedisConnErrView {
    ConnectFailure { addr: Seq<char>, cause: Seq<char> },
    IncorrectPassword(Seq<char>),
    MissingPassword,
    NotRedis(Seq<char>),
    InvalidRedisReply(Seq<char>),
    IoError(Seq<char>),
}

impl View for RedisConnErr {
    type V = RedisConnErrView;

    open spec fn view(&self) -> RedisConnErrView {
        match *self {
            RedisConnErr::ConnectFailure { addr, cause } => RedisConnErrView::ConnectFailure {
                addr: addr@,
                cause: cause@,
            },
            RedisConnErr::IncorrectPassword(password) => RedisConnErrView::IncorrectPassword(
                password@,
            ),
            RedisConnErr::MissingPassword => RedisConnErrView::MissingPassword,
            RedisConnErr::NotRedis(addr) => RedisConnErrView::NotRedis(addr@),
            RedisConnErr::InvalidRedisReply(reply) => RedisConnErrView::InvalidRedisReply(reply@),
            RedisConnErr::IoError(cause) => RedisConnErrView::IoError(cause@),
        }
    }
}

impl Clone for RedisConnErr {
    fn clone(&self) -> (copy: RedisConnErr)
        ensures
            copy@ == self@,
    {
        match self {
            RedisConnErr::ConnectFailure { addr, cause } => RedisConnErr::ConnectFailure {
                addr: addr.clone(),
                cause: cause.clone(),
            },
            RedisConnErr::IncorrectPassword(password) => RedisConnErr::IncorrectPassword(
                password.clone(),
            ),
            RedisConnErr::MissingPassword => RedisConnErr::MissingPassword,
            RedisConnErr::NotRedis(addr) => RedisConnErr::NotRedis(addr.clone()),
            RedisConnErr::InvalidRedisReply(reply) => RedisConnErr::InvalidRedisReply(
                reply.clone(),
            ),
            RedisConnErr::IoError(cause) => RedisConnErr::IoError(cause.clone()),
        }
    }
}

impl RedisConnErr {
    /// The failure to open or prepare the connection to `addr`.
    pub fn with_addr(addr: &str, cause: String) -> (err: RedisConnErr)
        ensures
            err@ == (RedisConnErrView::ConnectFailure { addr: addr@, cause: cause@ }),
    {
        RedisConnErr::ConnectFailure { addr: addr.to_owned(), cause }
    }
}

} // verus!
