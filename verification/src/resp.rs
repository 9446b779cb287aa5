//! Commands as they go on the wire: arrays of length-prefixed, binary-safe
//! strings.

use crate::decimal::{decimal, lemma_decimal_unambiguous, push_decimal};
use vstd::prelude::*;
use vstd::string::StringSliceAdditionalSpecFns;
use vstd::utf8::encode_utf8;

verus! {

/// The line ending of the protocol, `\r\n`.
pub open spec fn crlf() -> Seq<u8> {
    seq![13u8, 10u8]
}

/// One binary-safe string: `$`, the payload's length, the payload, each
/// followed by a line ending.
pub open spec fn bulk(payload: Seq<u8>) -> Seq<u8> {
    seq![36u8] + decimal(payload.len()) + crlf() + payload + crlf()
}

/// The strings of `items`, one after another.
pub open spec fn bulks(items: Seq<Seq<u8>>) -> Seq<u8>
    decreases items.len(),
{
    if items.len() == 0 {
        Seq::empty()
    } else {
        bulks(items.drop_last()) + bulk(items.last())
    }
}

/// The head of an array of `count` strings: `*`, the count, a line ending.
pub open spec fn array_header(count: nat) -> Seq<u8> {
    seq![42u8] + decimal(count) + crlf()
}

/// A command: the array of its words.
pub open spec fn array(items: Seq<Seq<u8>>) -> Seq<u8> {
    array_header(items.len()) + bulks(items)
}

/// The command that presents `password` to the store.
pub open spec fn auth_command(password: Seq<char>) -> Seq<u8> {
    array(seq!["auth".spec_bytes(), encode_utf8(password)])
}

/// The liveness check, sent as an inline command.
pub open spec fn ping_command() -> Seq<u8> {
    "PING\r\n".spec_bytes()
}

/// The command that names the connection.
pub open spec fn set_name_command() -> Seq<u8> {
    array(seq!["CLIENT".spec_bytes(), "SETNAME".spec_bytes(), "flodgatt".spec_bytes()])
}

/// What is asked of the store for a set of channels.
#[derive(Clone, Copy, Debug, PartialEq, Eq, Structural)]
pub enum RedisCmd {
    Subscribe,
    Unsubscribe,
}

/// The channel names as the byte strings that go on the wire.
pub open spec fn wire_names(names: Seq<String>) -> Seq<Seq<u8>> {
    names.map_values(|name: String| encode_utf8(name@))
}

/// The key that records whether anyone listens to the channel `name`.
pub open spec fn subscribed_key(name: Seq<u8>) -> Seq<u8> {
    "subscribed:".spec_bytes() + name
}

/// For each channel its key and then `mark`.
pub open spec fn marks(names: Seq<Seq<u8>>, mark: Seq<u8>) -> Seq<Seq<u8>>
    decreases names.len(),
{
    if names.len() == 0 {
        Seq::empty()
    } else {
        marks(names.drop_last(), mark).push(subscribed_key(names.last())).push(mark)
    }
}

impl RedisCmd {
    /// The first word of the command on the primary connection.
    pub open spec fn verb(self) -> Seq<u8> {
        match self {
            RedisCmd::Subscribe => "subscribe".spec_bytes(),
            RedisCmd::Unsubscribe => "unsubscribe".spec_bytes(),
        }
    }

    /// What the secondary connection stores under each channel's key: `1`
    /// while the channel is listened to, `0` once it is not.
    pub open spec fn mark(self) -> Seq<u8> {
        match self {
            RedisCmd::Subscribe => "1".spec_bytes(),
            RedisCmd::Unsubscribe => "0".spec_bytes(),
        }
    }

    /// The command for the primary connection: the verb and every channel.
    pub open spec fn primary(self, names: Seq<Seq<u8>>) -> Seq<u8> {
        array(seq![self.verb()] + names)
    }

    /// The command for the secondary connection: one `MSET` that sets every
    /// channel's key to the mark.
    pub open spec fn secondary(self, names: Seq<Seq<u8>>) -> Seq<u8> {
        array(seq!["MSET".spec_bytes()] + marks(names, self.mark()))
    }

    /// Encodes the command over `names` for both connections: first what goes
    /// to the primary connection, then what goes to the secondary one.
    pub fn into_sendable(self, names: &[String]) -> (sendable: (Vec<u8>, Vec<u8>))
        ensures
            sendable.0@ == self.primary(wire_names(names@)),
            sendable.1@ == self.secondary(wire_names(names@)),
    {
        match self {
            RedisCmd::Subscribe => (encode_listing("subscribe", names), encode_marking("1", names)),
            RedisCmd::Unsubscribe => (
                encode_listing("unsubscribe", names),
                encode_marking("0", names),
            ),
        }
    }
}

/// The array of `verb` and every name.
fn encode_listing(verb: &str, names: &[String]) -> (command: Vec<u8>)
    ensures
        command@ == array(seq![verb.spec_bytes()] + wire_names(names@)),
{
    let ghost wire = wire_names(names@);
    let mut command: Vec<u8> = Vec::new();
    push_array_header(&mut command, 1 + names.len() as u128);
    push_bulk(&mut command, verb.as_bytes());
    let ghost mut items = seq![verb.spec_bytes()];
    proof {
        lemma_bulks_one(verb.spec_bytes());
    }
    let mut i: usize = 0;
    while i < names.len()
        invariant
            i <= names.len(),
            wire == wire_names(names@),
            items == seq![verb.spec_bytes()] + wire.take(i as int),
            command@ == array_header((1 + names.len()) as nat) + bulks(items),
        decreases names.len() - i,
    {
        let name = names[i].as_str().as_bytes();
        push_bulk(&mut command, name);
        proof {
            lemma_bulks_push(items, name@);
            assert(items.push(name@) =~= seq![verb.spec_bytes()] + wire.take(i + 1));
            items = items.push(name@);
        }
        i = i + 1;
    }
    proof {
        assert(wire.take(names.len() as int) =~= wire);
    }
    command
}

/// The `MSET` that sets every name's key to `mark`.
fn encode_marking(mark: &str, names: &[String]) -> (command: Vec<u8>)
    ensures
        command@ == array(seq!["MSET".spec_bytes()] + marks(wire_names(names@), mark.spec_bytes())),
{
    let ghost wire = wire_names(names@);
    let mut command: Vec<u8> = Vec::new();
    push_array_header(&mut command, 1 + 2 * (names.len() as u128));
    push_bulk(&mut command, "MSET".as_bytes());
    let ghost mut items = seq!["MSET".spec_bytes()];
    proof {
        lemma_bulks_one("MSET".spec_bytes());
        assert(marks(wire.take(0), mark.spec_bytes()) =~= Seq::empty());
    }
    let mut i: usize = 0;
    while i < names.len()
        invariant
            i <= names.len(),
            wire == wire_names(names@),
            items == seq!["MSET".spec_bytes()] + marks(wire.take(i as int), mark.spec_bytes()),
            command@ == array_header((1 + 2 * names.len()) as nat) + bulks(items),
        decreases names.len() - i,
    {
        let name = names[i].as_str().as_bytes();
        let mut key: Vec<u8> = Vec::new();
        key.extend_from_slice("subscribed:".as_bytes());
        key.extend_from_slice(name);
        push_bulk(&mut command, key.as_slice());
        push_bulk(&mut command, mark.as_bytes());
        proof {
            lemma_bulks_push(items, key@);
            lemma_bulks_push(items.push(key@), mark.spec_bytes());
            assert(wire.take(i + 1).drop_last() =~= wire.take(i as int));
            assert(key@ =~= subscribed_key(wire.take(i + 1).last()));
            assert(items.push(key@).push(mark.spec_bytes()) =~= seq!["MSET".spec_bytes()] + marks(
                wire.take(i + 1),
                mark.spec_bytes(),
            ));
            items = items.push(key@).push(mark.spec_bytes());
        }
        i = i + 1;
    }
    proof {
        assert(wire.take(names.len() as int) =~= wire);
        lemma_marks_len(wire, mark.spec_bytes());
    }
    command
}

/// One more string after `items` adds its encoding at the end.
pub proof fn lemma_bulks_push(items: Seq<Seq<u8>>, item: Seq<u8>)
    ensures
        bulks(items.push(item)) == bulks(items) + bulk(item),
{
    assert(items.push(item).drop_last() =~= items);
}

/// A single string is encoded as itself.
pub proof fn lemma_bulks_one(item: Seq<u8>)
    ensures
        bulks(seq![item]) == bulk(item),
{
    lemma_bulks_push(Seq::empty(), item);
    assert(Seq::<Seq<u8>>::empty().push(item) =~= seq![item]);
    assert(bulks(seq![item]) =~= bulk(item));
}

/// Every channel contributes two words.
pub proof fn lemma_marks_len(names: Seq<Seq<u8>>, mark: Seq<u8>)
    ensures
        marks(names, mark).len() == 2 * names.len(),
    decreases names.len(),
{
    if names.len() > 0 {
        lemma_marks_len(names.drop_last(), mark);
    }
}

/// Law of the encoding: a string is read off unambiguously, whatever bytes it
/// holds. Two strings whose encodings begin the same bytes are the same
/// string, and what follows them is the same too.
pub proof fn lemma_bulk_unambiguous(a: Seq<u8>, b: Seq<u8>, after_a: Seq<u8>, after_b: Seq<u8>)
    requires
        bulk(a) + after_a == bulk(b) + after_b,
    ensures
        a == b,
        after_a == after_b,
{
    let rest_a = crlf() + a + crlf() + after_a;
    let rest_b = crlf() + b + crlf() + after_b;
    let all_a = bulk(a) + after_a;
    let all_b = bulk(b) + after_b;
    assert(all_a =~= seq![36u8] + (decimal(a.len()) + rest_a));
    assert(all_b =~= seq![36u8] + (decimal(b.len()) + rest_b));
    assert(decimal(a.len()) + rest_a =~= all_a.subrange(1, all_a.len() as int));
    assert(decimal(b.len()) + rest_b =~= all_b.subrange(1, all_b.len() as int));
    assert(rest_a[0] == 13u8);
    assert(rest_b[0] == 13u8);
    lemma_decimal_unambiguous(a.len(), b.len(), rest_a, rest_b);
    assert(a =~= b) by {
        assert forall|i: int| 0 <= i < a.len() implies a[i] == b[i] by {
            assert(rest_a[2 + i] == a[i]);
            assert(rest_b[2 + i] == b[i]);
        }
    }
    assert(after_a =~= after_b) by {
        assert(rest_a.len() == rest_b.len());
        assert forall|i: int| 0 <= i < after_a.len() implies after_a[i] == after_b[i] by {
            assert(rest_a[4 + a.len() + i] == after_a[i]);
            assert(rest_b[4 + b.len() + i] == after_b[i]);
        }
    }
}

/// The first string of a sequence is encoded first.
pub proof fn lemma_bulks_first(items: Seq<Seq<u8>>)
    requires
        items.len() > 0,
    ensures
        bulks(items) == bulk(items.first()) + bulks(items.drop_first()),
    decreases items.len(),
{
    if items.len() == 1 {
        lemma_bulks_one(items.first());
        assert(items =~= seq![items.first()]);
        assert(items.drop_first() =~= Seq::<Seq<u8>>::empty());
        assert(bulks(items) =~= bulk(items.first()) + bulks(items.drop_first()));
    } else {
        let front = items.drop_last();
        lemma_bulks_first(front);
        assert(front.first() == items.first());
        assert(front.drop_first() =~= items.drop_first().drop_last());
        assert(items.drop_first().last() == items.last());
        assert(bulks(items) =~= bulk(items.first()) + bulks(items.drop_first()));
    }
}

/// Two sequences of equally many strings that are encoded alike hold the same
/// strings.
pub proof fn lemma_bulks_unambiguous(left: Seq<Seq<u8>>, right: Seq<Seq<u8>>)
    requires
        left.len() == right.len(),
        bulks(left) == bulks(right),
    ensures
        left == right,
    decreases left.len(),
{
    if left.len() == 0 {
        assert(left =~= right);
    } else {
        lemma_bulks_first(left);
        lemma_bulks_first(right);
        lemma_bulk_unambiguous(
            left.first(),
            right.first(),
            bulks(left.drop_first()),
            bulks(right.drop_first()),
        );
        lemma_bulks_unambiguous(left.drop_first(), right.drop_first());
        assert(left =~= seq![left.first()] + left.drop_first());
        assert(right =~= seq![right.first()] + right.drop_first());
    }
}

/// Law of the encoding: a command is read off unambiguously. Two commands
/// that are the same bytes on the wire have the same words, whatever bytes the
/// words hold.
pub proof fn lemma_array_unambiguous(left: Seq<Seq<u8>>, right: Seq<Seq<u8>>)
    requires
        array(left) == array(right),
    ensures
        left == right,
{
    let rest_left = crlf() + bulks(left);
    let rest_right = crlf() + bulks(right);
    assert(array(left) =~= seq![42u8] + (decimal(left.len()) + rest_left));
    assert(array(right) =~= seq![42u8] + (decimal(right.len()) + rest_right));
    assert(decimal(left.len()) + rest_left =~= array(left).subrange(
        1,
        array(left).len() as int,
    ));
    assert(decimal(right.len()) + rest_right =~= array(right).subrange(
        1,
        array(right).len() as int,
    ));
    assert(rest_left[0] == 13u8);
    assert(rest_right[0] == 13u8);
    lemma_decimal_unambiguous(left.len(), right.len(), rest_left, rest_right);
    assert(bulks(left) =~= rest_left.subrange(2, rest_left.len() as int));
    assert(bulks(right) =~= rest_right.subrange(2, rest_right.len() as int));
    lemma_bulks_unambiguous(left, right);
}


/// Appends the head of an array of `count` strings.
pub fn push_array_header(out: &mut Vec<u8>, count: u128)
    ensures
        final(out)@ == old(out)@ + array_header(count as nat),
{
    out.push(42);
    push_decimal(out, count);
    out.push(13);
    out.push(10);
    assert(out@ =~= old(out)@ + array_header(count as nat));
}

/// Appends `payload` as one binary-safe string.
pub fn push_bulk(out: &mut Vec<u8>, payload: &[u8])
    ensures
        final(out)@ == old(out)@ + bulk(payload@),
{
    out.push(36);
    push_decimal(out, payload.len() as u128);
    out.push(13);
    out.push(10);
    out.extend_from_slice(payload);
    out.push(13);
    out.push(10);
    assert(out@ =~= old(out)@ + bulk(payload@));
}

/// The command that presents `password` to the store.
pub fn encode_auth(password: &str) -> (command: Vec<u8>)
    ensures
        command@ == auth_command(password@),
{
    let mut command: Vec<u8> = Vec::new();
    push_array_header(&mut command, 2);
    push_bulk(&mut command, "auth".as_bytes());
    push_bulk(&mut command, password.as_bytes());
    proof {
        let items = seq!["auth".spec_bytes(), encode_utf8(password@)];
        lemma_bulks_one("auth".spec_bytes());
        lemma_bulks_push(seq!["auth".spec_bytes()], encode_utf8(password@));
        assert(seq!["auth".spec_bytes()].push(encode_utf8(password@)) =~= items);
    }
    command
}

/// The liveness check.
pub fn encode_ping() -> (command: Vec<u8>)
    ensures
        command@ == ping_command(),
{
    let mut command: Vec<u8> = Vec::new();
    command.extend_from_slice("PING\r\n".as_bytes());
    command
}

/// The command that names the connection.
pub fn encode_set_name() -> (command: Vec<u8>)
    ensures
        command@ == set_name_command(),
{
    let mut command: Vec<u8> = Vec::new();
    push_array_header(&mut command, 3);
    push_bulk(&mut command, "CLIENT".as_bytes());
    push_bulk(&mut command, "SETNAME".as_bytes());
    push_bulk(&mut command, "flodgatt".as_bytes());
    proof {
        let client = "CLIENT".spec_bytes();
        let set_name = "SETNAME".spec_bytes();
        let name = "flodgatt".spec_bytes();
        lemma_bulks_one(client);
        lemma_bulks_push(seq![client], set_name);
        lemma_bulks_push(seq![client, set_name], name);
        assert(seq![client].push(set_name) =~= seq![client, set_name]);
        assert(seq![client, set_name].push(name) =~= seq![client, set_name, name]);
    }
    command
}

} // verus!
