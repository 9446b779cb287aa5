//! The connection manager: the read buffer that the primary connection fills,
//! the namespace that qualifies every channel name, and the cache of tag names.
//!
//! The manager decides and keeps the books; the sockets stay with its owner,
//! who reads once without blocking when the manager is polled and writes what
//! `send_cmd` hands back.

use crate::cache::{
    distinct_keys, inserted, lemma_touched_keeps, lookup, touched, TagNameCache,
};
use crate::config::Redis;
use crate::error::RedisConnErr;
use crate::resp::RedisCmd;
use crate::text::{copy_of, text_of, texts};
use std::collections::VecDeque;
use vstd::prelude::*;
use vstd::string::StringExecFns;
use vstd::utf8::encode_utf8;

verus! {

/// The room that one read may fill, in bytes.
pub const BLOCK: usize = 8192;

/// The length of a new read buffer, in bytes.
pub const INITIAL_INPUT_LEN: usize = 16384;

/// The number of tag names that a manager remembers.
pub const TAG_CACHE_CAPACITY: usize = 1000;

/// What one attempt to read from the primary connection without blocking
/// came to.
#[derive(Debug, PartialEq, Eq)]
pub enum ReadOutcome {
    /// The read returned these bytes; none means that the peer has closed the
    /// stream.
    Bytes(Vec<u8>),
    /// Nothing is there to be read yet.
    WouldBlock,
    /// The read failed otherwise.
    Failed,
}

/// What a poll reports.
#[derive(Debug, Clone, Copy, PartialEq, Eq, Structural)]
pub enum PollOutcome {
    /// This many bytes have been added to the buffer.
    Ready(usize),
    /// The stream has ended.
    Closed,
    /// Nothing has arrived; poll again later.
    NotReady,
}

impl ReadOutcome {
    /// The bytes that the attempt brought.
    pub open spec fn bytes(self) -> Seq<u8> {
        match self {
            ReadOutcome::Bytes(bytes) => bytes@,
            _ => Seq::empty(),
        }
    }

    /// What a poll reports of the attempt: a failure other than "would
    /// block" counts as the end of the stream.
    pub open spec fn report(self) -> PollOutcome {
        match self {
            ReadOutcome::Bytes(bytes) => if bytes@.len() == 0 {
                PollOutcome::Closed
            } else {
                PollOutcome::Ready(bytes@.len() as usize)
            },
            ReadOutcome::WouldBlock => PollOutcome::NotReady,
            ReadOutcome::Failed => PollOutcome::Closed,
        }
    }
}

/// What the manager asks of a channel descriptor: the tag it is about, and
/// its name on the wire.
pub trait ChannelDescriptor {
    /// The identifier of the tag that the channel is about, if it is about one.
    fn tag_id(&self) -> Option<i64>;

    /// The channel's name on the wire. `tag_name` is the name of the tag,
    /// where the channel is about a tag whose name is known.
    fn to_wire_name(&self, tag_name: Option<&String>) -> Result<String, RedisConnErr>;
}

/// The buffer before a read at `start`: where less than a block is free from
/// `start` on, the buffer is doubled, the new half zeroed.
pub open spec fn grown(input: Seq<u8>, start: int) -> Seq<u8> {
    if input.len() < start + BLOCK {
        input + Seq::new(input.len(), |i: int| 0u8)
    } else {
        input
    }
}

/// The buffer with `bytes` written from `start` on.
pub open spec fn stored(input: Seq<u8>, start: int, bytes: Seq<u8>) -> Seq<u8> {
    input.subrange(0, start) + bytes + input.subrange(start + bytes.len(), input.len() as int)
}

/// The name of a channel as it goes on the wire: behind the namespace and a
/// colon, where there is a namespace.
pub open spec fn qualified(namespace: Option<Seq<char>>, name: Seq<char>) -> Seq<char> {
    match namespace {
        Some(prefix) => prefix + seq![':'] + name,
        None => name,
    }
}

/// The bytes of the qualified names of `names`.
pub open spec fn channels(namespace: Option<Seq<char>>, names: Seq<Seq<char>>) -> Seq<Seq<u8>> {
    names.map_values(|name: Seq<char>| encode_utf8(qualified(namespace, name)))
}

/// Two caches that hold the same names under the same keys.
pub open spec fn same_tags(before: Seq<(i64, Seq<char>)>, after: Seq<(i64, Seq<char>)>) -> bool {
    &&& after.len() == before.len()
    &&& forall|key: i64| lookup(after, key) == lookup(before, key)
}

/// `channel` may answer `tag` when asked which tag it is about.
pub open spec fn tagged<T: ChannelDescriptor>(channel: &T, tag: Option<i64>) -> bool {
    call_ensures(T::tag_id, (channel,), tag)
}

/// `channel` may answer `answer` when asked for its name on the wire and told
/// that its tag is called `tag_name`.
pub open spec fn named<T: ChannelDescriptor>(
    channel: &T,
    tag_name: Option<&String>,
    answer: Result<String, RedisConnErr>,
) -> bool {
    call_ensures(T::to_wire_name, (channel, tag_name), answer)
}

/// A reference to the string, if there is one.
pub open spec fn borrowed(text: &Option<String>) -> Option<&String> {
    match text {
        Some(text) => Some(text),
        None => None,
    }
}

/// How one channel came by its name: the tag it said it is about, the name
/// that the cache had for that tag, and what the channel answered when asked
/// for its name.
pub struct Naming {
    pub tag: Option<i64>,
    pub tag_name: Option<String>,
    pub answer: Result<String, RedisConnErr>,
}

/// The cache after the lookups that `namings` tell of, the first one first.
pub open spec fn tags_after(
    tags: Seq<(i64, Seq<char>)>,
    namings: Seq<Naming>,
) -> Seq<(i64, Seq<char>)>
    decreases namings.len(),
{
    if namings.len() == 0 {
        tags
    } else {
        let before = tags_after(tags, namings.drop_last());
        match namings.last().tag {
            Some(id) => touched(before, id),
            None => before,
        }
    }
}

/// `namings` tell how the first channels of `timelines` came by their names,
/// one after the other, with a cache that held `tags` at the start: each
/// channel was asked for its tag, the tag was looked up in the cache as the
/// earlier lookups had left it, and the channel was asked for its name with
/// what the lookup found.
pub open spec fn names_channels<T: ChannelDescriptor>(
    timelines: Seq<T>,
    tags: Seq<(i64, Seq<char>)>,
    namings: Seq<Naming>,
) -> bool {
    &&& namings.len() <= timelines.len()
    &&& forall|i: int|
        0 <= i < namings.len() ==> {
            let naming = #[trigger] namings[i];
            &&& tagged(&timelines[i], naming.tag)
            &&& text_of(naming.tag_name) == match naming.tag {
                Some(id) => lookup(tags_after(tags, namings.take(i)), id),
                None => None,
            }
            &&& named(&timelines[i], borrowed(&naming.tag_name), naming.answer)
        }
}

/// The names that the channels answered with, as far as they answered with
/// one.
pub open spec fn answers(namings: Seq<Naming>) -> Seq<Seq<char>> {
    namings.map_values(
        |naming: Naming|
            match naming.answer {
                Ok(name) => name@,
                Err(_) => Seq::empty(),
            },
    )
}

/// All channels answered with a name.
pub open spec fn all_named(namings: Seq<Naming>) -> bool {
    forall|i: int| 0 <= i < namings.len() ==> (#[trigger] namings[i]).answer is Ok
}

/// What `send_cmd` comes to where the channels came by their names as
/// `namings` tell. Either every channel has a name, and the two commands are
/// `cmd` over those names, qualified with the namespace; or the last channel
/// that was asked, and none before it, answered with an error, which is
/// returned.
pub open spec fn sent<T: ChannelDescriptor>(
    before: RedisConnView,
    cmd: RedisCmd,
    timelines: Seq<T>,
    namings: Seq<Naming>,
    after: RedisConnView,
    sendable: Result<(Vec<u8>, Vec<u8>), RedisConnErr>,
) -> bool {
    &&& names_channels(timelines, before.tags, namings)
    &&& after == (RedisConnView { tags: tags_after(before.tags, namings), ..before })
    &&& match sendable {
        Ok((primary, secondary)) => {
            &&& namings.len() == timelines.len()
            &&& all_named(namings)
            &&& primary@ == cmd.primary(channels(before.namespace, answers(namings)))
            &&& secondary@ == cmd.secondary(channels(before.namespace, answers(namings)))
        },
        Err(err) => {
            &&& namings.len() > 0
            &&& all_named(namings.drop_last())
            &&& namings.last().answer == Err::<String, RedisConnErr>(err)
        },
    }
}

/// A manager before anything has been read or sent.
pub open spec fn fresh(namespace: Option<Seq<char>>) -> RedisConnView {
    RedisConnView {
        namespace,
        tags: Seq::empty(),
        tag_capacity: TAG_CACHE_CAPACITY as nat,
        input: Seq::new(INITIAL_INPUT_LEN as nat, |i: int| 0u8),
    }
}

/// Qualifies `name` with `namespace`.
pub fn qualify(namespace: &Option<String>, name: &str) -> (channel: String)
    ensures
        channel@ == qualified(text_of(*namespace), name@),
{
    match namespace {
        Some(prefix) => {
            let mut channel = prefix.clone();
            channel.append(":");
            channel.append(name);
            proof {
                reveal_strlit(":");
                assert(":"@ =~= seq![':']);
            }
            channel
        },
        None => name.to_owned(),
    }
}

/// The connection manager's state.
#[derive(Debug)]
pub struct RedisConn {
    namespace: Option<String>,
    tag_name_cache: TagNameCache,
    input: Vec<u8>,
}

/// A manager as a mathematical value.
pub struct RedisConnView {
    /// The prefix of every channel name, if any.
    pub namespace: Option<Seq<char>>,
    /// The cached tag names, most recently used first.
    pub tags: Seq<(i64, Seq<char>)>,
    /// How many tag names the cache holds at most.
    pub tag_capacity: nat,
    /// The read buffer.
    pub input: Seq<u8>,
}

impl View for RedisConn {
    type V = RedisConnView;

    closed spec fn view(&self) -> RedisConnView {
        RedisConnView {
            namespace: text_of(self.namespace),
            tags: self.tag_name_cache@,
            tag_capacity: self.tag_name_cache.capacity(),
            input: self.input@,
        }
    }
}

impl RedisConn {
    /// The cache has room for an entry, is not over full and holds no key
    /// twice; the buffer is a whole number of blocks, two at least.
    pub open spec fn wf(&self) -> bool {
        &&& 0 < self@.tag_capacity
        &&& self@.tags.len() <= self@.tag_capacity
        &&& distinct_keys(self@.tags)
        &&& self@.input.len() >= INITIAL_INPUT_LEN
        &&& self@.input.len() % (BLOCK as nat) == 0
    }

    /// The state of a manager for the store of `redis_cfg`, before anything
    /// has been read or sent: the namespace as configured, no tag names, and
    /// a zeroed buffer of two blocks.
    pub fn new(redis_cfg: &Redis) -> (conn: RedisConn)
        ensures
            conn.wf(),
            conn@ == fresh(text_of(redis_cfg.namespace)),
    {
        RedisConn::with_namespace(copy_of(&redis_cfg.namespace))
    }

    /// The state of a manager whose channels are qualified by `namespace`,
    /// before anything has been read or sent.
    pub fn with_namespace(namespace: Option<String>) -> (conn: RedisConn)
        ensures
            conn.wf(),
            conn@ == fresh(text_of(namespace)),
    {
        let mut input: Vec<u8> = Vec::new();
        input.resize(INITIAL_INPUT_LEN, 0);
        assert(input@ =~= Seq::new(INITIAL_INPUT_LEN as nat, |i: int| 0u8));
        RedisConn { namespace, tag_name_cache: TagNameCache::new(TAG_CACHE_CAPACITY), input }
    }

    /// The read buffer.
    pub fn input(&self) -> (input: &Vec<u8>)
        ensures
            input@ == self@.input,
    {
        &self.input
    }

    /// The prefix of every channel name, if any.
    pub fn namespace(&self) -> (namespace: &Option<String>)
        ensures
            text_of(*namespace) == self@.namespace,
    {
        &self.namespace
    }

    /// Remembers that the tag `id` is called `hashtag`.
    pub fn update_cache(&mut self, hashtag: String, id: i64)
        requires
            old(self).wf(),
        ensures
            final(self).wf(),
            final(self)@ == (RedisConnView {
                tags: inserted(old(self)@.tags, old(self)@.tag_capacity, id, hashtag@),
                ..old(self)@
            }),
    {
        self.tag_name_cache.insert(id, hashtag);
    }

    /// Takes what one non-blocking read from the primary connection came to
    /// and puts it at `start` in the buffer.
    ///
    /// Where less than a block is free from `start` on, the buffer is doubled
    /// first. The bytes read are then stored from `start` on and the poll
    /// reports how many they are, or that the stream has ended, or that
    /// nothing has arrived yet.
    ///
    /// The block at `start` has to fit after one doubling, the doubled length
    /// has to be a `usize`, and one read brings at most a block.
    pub fn poll_redis(&mut self, start: usize, read: ReadOutcome) -> (outcome: PollOutcome)
        requires
            old(self).wf(),
            start + BLOCK <= 2 * old(self)@.input.len(),
            old(self)@.input.len() < start + BLOCK ==> 2 * old(self)@.input.len() <= usize::MAX,
            read.bytes().len() <= BLOCK,
        ensures
            final(self).wf(),
            final(self)@ == (RedisConnView {
                input: stored(grown(old(self)@.input, start as int), start as int, read.bytes()),
                ..old(self)@
            }),
            outcome == read.report(),
            old(self)@.input.len() < start + BLOCK ==> final(self)@.input.len() == 2 * old(
                self,
            )@.input.len(),
            final(self)@.input.len() >= start + BLOCK,
    {
        let len = self.input.len();
        if len - BLOCK < start {
            self.input.resize(len * 2, 0);
            assert(self.input@ =~= grown(old(self)@.input, start as int));
        }
        let ghost room = self.input@;
        let total = self.input.len();
        match read {
            ReadOutcome::Bytes(bytes) => {
                let count = bytes.len();
                let mut i: usize = 0;
                while i < count
                    invariant
                        i <= count,
                        count == bytes@.len(),
                        start + count <= total,
                        self.input@.len() == total,
                        room.len() == total,
                        self.input@ == stored(room, start as int, bytes@.take(i as int)),
                        self.tag_name_cache == old(self).tag_name_cache,
                        self.namespace == old(self).namespace,
                    decreases count - i,
                {
                    let byte = bytes[i];
                    self.input[start + i] = byte;
                    assert(self.input@ =~= stored(room, start as int, bytes@.take(i + 1)));
                    i = i + 1;
                }
                assert(bytes@.take(count as int) =~= bytes@);
                if count == 0 {
                    PollOutcome::Closed
                } else {
                    PollOutcome::Ready(count)
                }
            },
            ReadOutcome::WouldBlock => {
                assert(self.input@ =~= stored(room, start as int, Seq::empty()));
                PollOutcome::NotReady
            },
            ReadOutcome::Failed => {
                assert(self.input@ =~= stored(room, start as int, Seq::empty()));
                PollOutcome::Closed
            },
        }
    }

    /// Looks up the name of the tag that a channel is about, `tag` being the
    /// tag's identifier or nothing where the channel is about no tag. A name
    /// that is found counts as used.
    pub fn tag_name(&mut self, tag: Option<i64>) -> (name: Option<String>)
        requires
            old(self).wf(),
        ensures
            final(self).wf(),
            final(self)@ == (RedisConnView {
                tags: match tag {
                    Some(id) => touched(old(self)@.tags, id),
                    None => old(self)@.tags,
                },
                ..old(self)@
            }),
            text_of(name) == match tag {
                Some(id) => lookup(old(self)@.tags, id),
                None => None,
            },
    {
        match tag {
            Some(id) => self.tag_name_cache.get(id),
            None => None,
        }
    }

    /// Encodes `cmd` over the channels whose names on the wire, before the
    /// namespace, are `names`: first what goes to the primary connection, then
    /// what goes to the secondary one.
    pub fn sendable(&self, cmd: RedisCmd, names: &[String]) -> (sendable: (Vec<u8>, Vec<u8>))
        ensures
            sendable.0@ == cmd.primary(channels(self@.namespace, texts(names@))),
            sendable.1@ == cmd.secondary(channels(self@.namespace, texts(names@))),
    {
        let mut qualified_names: Vec<String> = Vec::new();
        let mut i: usize = 0;
        while i < names.len()
            invariant
                i <= names.len(),
                qualified_names@.len() == i,
                forall|k: int|
                    0 <= k < i ==> (#[trigger] qualified_names@[k])@ == qualified(
                        text_of(self.namespace),
                        names@[k]@,
                    ),
            decreases names.len() - i,
        {
            let channel = qualify(&self.namespace, names[i].as_str());
            qualified_names.push(channel);
            i = i + 1;
        }
        assert(crate::resp::wire_names(qualified_names@) =~= channels(
            self@.namespace,
            texts(names@),
        ));
        cmd.into_sendable(qualified_names.as_slice())
    }

    /// Resolves every channel of `timelines` to its name on the wire and
    /// encodes `cmd` over them: first what is to be written to the primary
    /// connection, then what is to be written to the secondary one.
    ///
    /// Each channel in turn is asked for its tag, the tag's name is looked up
    /// in the cache, which counts as a use of that entry, and the channel is
    /// asked for its name with what was found. The first channel that answers
    /// with an error ends the call with that error. The namespace and the
    /// buffer stay as they are, and the cache holds what it held.
    pub fn send_cmd<T: ChannelDescriptor>(&mut self, cmd: RedisCmd, timelines: &[T]) -> (sendable:
        Result<(Vec<u8>, Vec<u8>), RedisConnErr>)
        requires
            old(self).wf(),
        ensures
            final(self).wf(),
            exists|namings: Seq<Naming>|
                sent(old(self)@, cmd, timelines@, namings, final(self)@, sendable),
            same_tags(old(self)@.tags, final(self)@.tags),
            timelines@.len() == 0 ==> sendable is Ok,
    {
        let mut names: Vec<String> = Vec::new();
        let ghost mut namings: Seq<Naming> = Seq::empty();
        let mut i: usize = 0;
        while i < timelines.len()
            invariant
                i <= timelines.len(),
                names@.len() == i,
                namings.len() == i,
                self.wf(),
                names_channels(timelines@, old(self)@.tags, namings),
                self@ == (RedisConnView {
                    tags: tags_after(old(self)@.tags, namings),
                    ..old(self)@
                }),
                same_tags(old(self)@.tags, self@.tags),
                forall|k: int|
                    0 <= k < i ==> (#[trigger] namings[k]).answer == Ok::<String, RedisConnErr>(
                        names@[k],
                    ),
            decreases timelines.len() - i,
        {
            let tag = timelines[i].tag_id();
            proof {
                if let Some(id) = tag {
                    lemma_touched_keeps(self@.tags, id);
                }
            }
            let hashtag = self.tag_name(tag);
            let known = hashtag.as_ref();
            let answer = timelines[i].to_wire_name(known);
            proof {
                let naming = Naming { tag, tag_name: hashtag, answer };
                let longer = namings.push(naming);
                assert(longer.drop_last() =~= namings);
                assert forall|k: int| 0 <= k <= i implies longer.take(k) == namings.take(k) by {
                    assert(longer.take(k) =~= namings.take(k));
                }
                assert(namings.take(i as int) =~= namings);
                assert(known == borrowed(&hashtag));
                namings = longer;
            }
            match answer {
                Ok(name) => names.push(name),
                Err(err) => {
                    proof {
                        assert(namings.drop_last() =~= namings.take(i as int));
                        assert(sent(old(self)@, cmd, timelines@, namings, self@, Err(err)));
                    }
                    return Err(err);
                },
            }
            i = i + 1;
        }
        let sendable = self.sendable(cmd, names.as_slice());
        proof {
            assert(answers(namings) =~= texts(names@));
            assert(sent(old(self)@, cmd, timelines@, namings, self@, Ok(sendable)));
        }
        Ok(sendable)
    }
}

/// Law of the read buffer: wherever a block fits after one doubling, the
/// buffer before a read has a whole block free from `start` on, and it has
/// been doubled exactly where it had less.
pub proof fn lemma_grown_has_room(input: Seq<u8>, start: int)
    requires
        0 <= start,
        start + BLOCK <= 2 * input.len(),
    ensures
        grown(input, start).len() - start >= BLOCK,
        input.len() - start < BLOCK ==> grown(input, start).len() == 2 * input.len(),
        input.len() - start >= BLOCK ==> grown(input, start) == input,
        grown(input, start).subrange(0, input.len() as int) == input,
{
    assert(grown(input, start).subrange(0, input.len() as int) =~= input);
}

/// Law of the read buffer: storing `bytes` at `start` changes the bytes from
/// `start` on, as many as were read, to `bytes` and no others.
pub proof fn lemma_stored(input: Seq<u8>, start: int, bytes: Seq<u8>)
    requires
        0 <= start,
        start + bytes.len() <= input.len(),
    ensures
        stored(input, start, bytes).len() == input.len(),
        stored(input, start, bytes).subrange(start, start + bytes.len()) == bytes,
        forall|i: int|
            0 <= i < input.len() && !(start <= i < start + bytes.len()) ==> stored(
                input,
                start,
                bytes,
            )[i] == input[i],
{
    assert(stored(input, start, bytes).subrange(start, start + bytes.len()) =~= bytes);
}

/// Law of the read buffer: bytes arrive in order, without gaps and without
/// repeats. After two polls, the second of which stores where the first one
/// ended, the buffer holds from `start` on what the first read brought and
/// then what the second one brought; and what stood before `start` stands
/// there still.
pub proof fn lemma_reads_join(input: Seq<u8>, start: int, first: Seq<u8>, second: Seq<u8>)
    requires
        0 <= start,
        first.len() <= BLOCK,
        second.len() <= BLOCK,
        start + BLOCK <= 2 * input.len(),
        start + first.len() + BLOCK <= 2 * grown(input, start).len(),
    ensures
        ({
            let once = stored(grown(input, start), start, first);
            let next = start + first.len();
            let twice = stored(grown(once, next), next, second);
            &&& twice.subrange(start, next + second.len()) == first + second
            &&& forall|i: int| 0 <= i < start && i < input.len() ==> twice[i] == input[i]
        }),
{
    let once = stored(grown(input, start), start, first);
    let next = start + first.len();
    let twice = stored(grown(once, next), next, second);
    lemma_grown_has_room(input, start);
    lemma_stored(grown(input, start), start, first);
    assert(once.len() == grown(input, start).len());
    lemma_grown_has_room(once, next);
    lemma_stored(grown(once, next), next, second);
    assert forall|i: int| 0 <= i < first.len() implies twice[start + i] == first[i] by {
        assert(once.subrange(start, start + first.len())[i] == first[i]);
        assert(grown(once, next).subrange(0, once.len() as int)[start + i] == once[start + i]);
    }
    assert forall|i: int| 0 <= i < second.len() implies twice[next + i] == second[i] by {
        assert(twice.subrange(next, next + second.len())[i] == second[i]);
    }
    assert(twice.subrange(start, next + second.len()) =~= first + second);
    assert forall|i: int| 0 <= i < start && i < input.len() implies twice[i] == input[i] by {
        assert(grown(input, start).subrange(0, input.len() as int)[i] == input[i]);
        assert(grown(once, next).subrange(0, once.len() as int)[i] == once[i]);
    }
}

/// A stream that is fed by hand: the bytes that were added and not yet read,
/// in order of arrival. It stands in for the primary connection where no store
/// is at hand.
#[derive(Debug)]
pub struct ByteQueue {
    pending: VecDeque<u8>,
}

impl View for ByteQueue {
    type V = Seq<u8>;

    closed spec fn view(&self) -> Seq<u8> {
        self.pending@
    }
}

impl ByteQueue {
    /// A stream on which nothing has arrived.
    pub fn new() -> (queue: ByteQueue)
        ensures
            queue@ == Seq::<u8>::empty(),
    {
        ByteQueue { pending: VecDeque::new() }
    }

    /// Lets `input` arrive on the stream.
    pub fn add(&mut self, input: &[u8])
        ensures
            final(self)@ == old(self)@ + input@,
    {
        let mut i: usize = 0;
        while i < input.len()
            invariant
                i <= input.len(),
                self.pending@ == old(self).pending@ + input@.take(i as int),
            decreases input.len() - i,
        {
            self.pending.push_back(input[i]);
            assert(self.pending@ =~= old(self).pending@ + input@.take(i + 1));
            i = i + 1;
        }
        assert(input@.take(input.len() as int) =~= input@);
    }

    /// Reads once: takes the bytes that have arrived, `max` at most, off the
    /// stream. An empty stream reads as closed.
    pub fn read(&mut self, max: usize) -> (read: ReadOutcome)
        ensures
            read matches ReadOutcome::Bytes(bytes) && {
                &&& bytes@.len() == if old(self)@.len() <= max {
                    old(self)@.len()
                } else {
                    max as nat
                }
                &&& bytes@ == old(self)@.take(bytes@.len() as int)
                &&& final(self)@ == old(self)@.skip(bytes@.len() as int)
            },
    {
        let mut bytes: Vec<u8> = Vec::new();
        while bytes.len() < max && self.pending.len() > 0
            invariant
                bytes@.len() <= max,
                bytes@.len() <= old(self).pending@.len(),
                bytes@ == old(self).pending@.take(bytes@.len() as int),
                self.pending@ == old(self).pending@.skip(bytes@.len() as int),
            decreases self.pending@.len(),
        {
            let ghost before = bytes@;
            match self.pending.pop_front() {
                Some(byte) => {
                    bytes.push(byte);
                    assert(bytes@ =~= old(self).pending@.take(before.len() as int + 1));
                    assert(self.pending@ =~= old(self).pending@.skip(before.len() as int + 1));
                },
                None => {},
            }
        }
        ReadOutcome::Bytes(bytes)
    }
}

} // verus!
