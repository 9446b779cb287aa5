//! Classes of the replies that the handshake looks at. A reply is judged by
//! its leading bytes alone.

use vstd::prelude::*;
use vstd::string::StringSliceAdditionalSpecFns;

verus! {

/// What a reply to the liveness check tells about the other end.
#[derive(Debug, Clone, Copy, PartialEq, Eq, Structural)]
pub enum ReplyClass {
    /// The reply begins with the token that was expected.
    Expected,
    /// The store asks for a password first.
    AuthRequired,
    /// The reply is the status line of an HTTP response.
    NotThisProtocol,
    /// Anything else.
    Unrecognized,
}

/// `bytes` begins with `prefix`.
pub open spec fn has_prefix(bytes: Seq<u8>, prefix: Seq<u8>) -> bool {
    prefix.len() <= bytes.len() && bytes.subrange(0, prefix.len() as int) == prefix
}

/// The reply that accepts a command, `+OK\r\n`.
pub open spec fn ok_token() -> Seq<u8> {
    "+OK\r\n".spec_bytes()
}

/// The reply to the liveness check, `+PONG\r\n`.
pub open spec fn pong_token() -> Seq<u8> {
    "+PONG\r\n".spec_bytes()
}

/// How the refusal of a store that wants a password begins.
pub open spec fn noauth_token() -> Seq<u8> {
    "-NOAUTH".spec_bytes()
}

/// How the status line of an HTTP response begins.
pub open spec fn http_token() -> Seq<u8> {
    "HTTP/1.".spec_bytes()
}

/// The class of `reply` where `expected` is the token of success.
pub open spec fn classify(reply: Seq<u8>, expected: Seq<u8>) -> ReplyClass {
    if has_prefix(reply, expected) {
        ReplyClass::Expected
    } else if has_prefix(reply, noauth_token()) {
        ReplyClass::AuthRequired
    } else if has_prefix(reply, http_token()) {
        ReplyClass::NotThisProtocol
    } else {
        ReplyClass::Unrecognized
    }
}

/// Whether `bytes` begins with `prefix`.
pub fn starts_with(bytes: &[u8], prefix: &[u8]) -> (yes: bool)
    ensures
        yes == has_prefix(bytes@, prefix@),
{
    if prefix.len() > bytes.len() {
        return false;
    }
    let mut i: usize = 0;
    while i < prefix.len()
        invariant
            i <= prefix.len() <= bytes.len(),
            forall|k: int| 0 <= k < i ==> bytes[k] == prefix[k],
        decreases prefix.len() - i,
    {
        if bytes[i] != prefix[i] {
            assert(bytes@.subrange(0, prefix.len() as int)[i as int] != prefix[i as int]);
            return false;
        }
        i = i + 1;
    }
    assert(bytes@.subrange(0, prefix.len() as int) =~= prefix@);
    true
}

/// Whether `left` and `right` hold the same bytes.
pub fn same_bytes(left: &[u8], right: &[u8]) -> (yes: bool)
    ensures
        yes == (left@ == right@),
{
    if left.len() != right.len() {
        return false;
    }
    let yes = starts_with(left, right);
    assert(left@.subrange(0, left.len() as int) =~= left@);
    yes
}

/// Classifies `reply` by its leading bytes, `expected` being the token of
/// success.
pub fn classify_reply(reply: &[u8], expected: &[u8]) -> (class: ReplyClass)
    ensures
        class == classify(reply@, expected@),
{
    if starts_with(reply, expected) {
        ReplyClass::Expected
    } else if starts_with(reply, "-NOAUTH".as_bytes()) {
        ReplyClass::AuthRequired
    } else if starts_with(reply, "HTTP/1.".as_bytes()) {
        ReplyClass::NotThisProtocol
    } else {
        ReplyClass::Unrecognized
    }
}

/// The bytes of the four tokens.
pub proof fn lemma_tokens()
    ensures
        ok_token() == seq![43u8, 79, 75, 13, 10],
        pong_token() == seq![43u8, 80, 79, 78, 71, 13, 10],
        noauth_token() == seq![45u8, 78, 79, 65, 85, 84, 72],
        http_token() == seq![72u8, 84, 84, 80, 47, 49, 46],
{
    broadcast use vstd::string::is_ascii_spec_bytes;

    reveal_strlit("+OK\r\n");
    reveal_strlit("+PONG\r\n");
    reveal_strlit("-NOAUTH");
    reveal_strlit("HTTP/1.");
    assert(vstd::string::is_ascii("+OK\r\n"));
    assert(vstd::string::is_ascii("+PONG\r\n"));
    assert(vstd::string::is_ascii("-NOAUTH"));
    assert(vstd::string::is_ascii("HTTP/1."));
    assert(ok_token() =~= seq![43u8, 79, 75, 13, 10]);
    assert(pong_token() =~= seq![43u8, 80, 79, 78, 71, 13, 10]);
    assert(noauth_token() =~= seq![45u8, 78, 79, 65, 85, 84, 72]);
    assert(http_token() =~= seq![72u8, 84, 84, 80, 47, 49, 46]);
}

/// A reply that begins like an HTTP response is never taken for the store's,
/// whichever of the store's tokens was expected.
pub proof fn lemma_http_is_not_this_protocol(reply: Seq<u8>)
    requires
        has_prefix(reply, http_token()),
    ensures
        classify(reply, pong_token()) == ReplyClass::NotThisProtocol,
        classify(reply, ok_token()) == ReplyClass::NotThisProtocol,
{
    lemma_tokens();
    assert(reply.subrange(0, 7)[0] == 72u8);
    assert(reply[0] == 72u8);
    if has_prefix(reply, pong_token()) {
        assert(reply.subrange(0, 7)[0] == 43u8);
    }
    if has_prefix(reply, ok_token()) {
        assert(reply.subrange(0, 5)[0] == 43u8);
    }
    if has_prefix(reply, noauth_token()) {
        assert(reply.subrange(0, 7)[0] == 45u8);
    }
}

} // verus!
