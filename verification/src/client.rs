//! The client side: turning what the user types into messages, and the state
//! of a key-value client that keeps a vector clock of what it has observed.
use vstd::prelude::*;
use std::collections::hash_map::DefaultHasher;
use std::hash::Hasher;
use vstd::string::StringSliceAdditionalSpecFns;
use crate::clock::{dominates, merge_all, merge_maps, Clock};
use crate::message::{decode_view, encode_view, lemma_decode_encode, ZMessage, ZMessageView};

verus! {

/// The id that every message typed by the user carries.
pub open spec fn stdin_message_id() -> Seq<u8> {
    seq![1u8, 2u8, 3u8, 4u8, 5u8, 6u8]
}

/// The message for a chunk read from standard input: the chunk without its
/// last byte (the line's end) as data, sent from `from` to `to`.
pub open spec fn stdin_message(chunk: Seq<u8>, from: Seq<u8>, to: Seq<u8>) -> ZMessageView {
    ZMessageView { id: stdin_message_id(), from: from, to: to, data: chunk.drop_last() }
}

/// The message for a chunk of input carries the chunk without its last byte,
/// byte for byte and whatever the bytes are, the fixed id, and the sender and
/// addressee as given.
pub proof fn lemma_stdin_message_content(chunk: Seq<u8>, from: Seq<u8>, to: Seq<u8>)
    requires
        chunk.len() >= 1,
    ensures
        stdin_message(chunk, from, to).data.len() == chunk.len() - 1,
        forall|i: int|
            0 <= i < chunk.len() - 1 ==> #[trigger] stdin_message(chunk, from, to).data[i] == chunk[i],
        stdin_message(chunk, from, to).id == seq![1u8, 2u8, 3u8, 4u8, 5u8, 6u8],
        stdin_message(chunk, from, to).from == from,
        stdin_message(chunk, from, to).to == to,
{
}

/// The frame to send for a chunk of `n >= 1` bytes read from standard input:
/// nothing when the chunk is only its last byte, else the encoded message.
pub fn frame_stdin_chunk(chunk: &[u8], from: &str, to: &str) -> (res: Option<Vec<u8>>)
    requires
        chunk@.len() >= 1,
    ensures
        chunk@.len() == 1 ==> res is None,
        chunk@.len() > 1 ==> (res matches Some(frame) && frame@ == encode_view(
            stdin_message(chunk@, from.spec_bytes(), to.spec_bytes()),
        )),
        chunk@.len() > 1 ==> (res matches Some(frame) && decode_view(frame@) matches Some(m) && {
            &&& m.id == seq![1u8, 2u8, 3u8, 4u8, 5u8, 6u8]
            &&& m.from == from.spec_bytes()
            &&& m.to == to.spec_bytes()
            &&& m.data.len() == chunk@.len() - 1
            &&& forall|i: int| 0 <= i < chunk@.len() - 1 ==> m.data[i] == chunk@[i]
        }),
{
    let n: usize = chunk.len();
    if n == 1 {
        return None;
    }
    let mut data: Vec<u8> = Vec::new();
    let mut i: usize = 0;
    while i < n - 1
        invariant
            n == chunk@.len(),
            i <= n - 1,
            data@ == chunk@.take(i as int),
        decreases n - 1 - i,
    {
        data.push(chunk[i]);
        i = i + 1;
        assert(data@ =~= chunk@.take(i as int));
    }
    assert(data@ =~= chunk@.drop_last());
    let msg = ZMessage {
        id: vec![1u8, 2u8, 3u8, 4u8, 5u8, 6u8],
        from: vstd::slice::slice_to_vec(from.as_bytes()),
        to: vstd::slice::slice_to_vec(to.as_bytes()),
        data,
    };
    assert(msg@ =~= stdin_message(chunk@, from.spec_bytes(), to.spec_bytes()));
    let _: usize = msg.id.len();
    let _: usize = msg.from.len();
    let _: usize = msg.to.len();
    let _: usize = msg.data.len();
    let mut frame: Vec<u8> = Vec::new();
    msg.encode(&mut frame);
    assert(frame@ =~= encode_view(msg@));
    proof {
        lemma_decode_encode(msg@);
        lemma_stdin_message_content(chunk@, from.spec_bytes(), to.spec_bytes());
    }
    Some(frame)
}

/// A request to read a key, with the clock of what the client has observed.
pub struct Read {
    pub key: String,
    pub clock: Option<Clock>,
}

/// A request to write a value under a key, with the client's clock.
pub struct Write {
    pub key: String,
    pub value: String,
    pub clock: Option<Clock>,
}

/// A request to a server.
pub enum Request {
    Read(Read),
    Write(Write),
}

/// A server's answer: the value read (if any) and the server's clock, which is
/// missing when the server could not serve the request.
pub struct ReadReply {
    pub value: Option<String>,
    pub clock: Option<Clock>,
}

/// A server's reply to a read or a write.
pub enum Reply {
    ReadReply(ReadReply),
    WriteReply(ReadReply),
}

/// What travels between client and server.
pub enum Message {
    Request(Request),
    Reply(Reply),
}

/// The contents of an optional clock.
pub open spec fn clock_view(c: Option<Clock>) -> Option<Map<u128, u128>> {
    match c {
        Some(c) => Some(c@),
        None => None,
    }
}

/// The client's clock after it has observed a server clock `seen`: the merge
/// of both, or `seen` itself for a client that had none.
pub open spec fn observe(own: Option<Map<u128, u128>>, seen: Map<u128, u128>) -> Map<u128, u128> {
    match own {
        Some(c) => merge_maps(c, seen),
        None => seen,
    }
}

/// After observing a server clock, the client's clock dominates both that
/// clock and the client's own earlier clock: a client never forgets what it
/// has observed.
pub proof fn lemma_observe_dominates(own: Option<Map<u128, u128>>, seen: Map<u128, u128>)
    ensures
        dominates(observe(own, seen), seen),
        own matches Some(o) ==> dominates(observe(own, seen), o),
{
    if let Some(o) = own {
        crate::clock::lemma_merge_least_upper_bound(o, seen, o);
    }
}

/// The clock a client holds after observing a server clock is the least one
/// that dominates both its earlier clock and the server's: any clock that
/// dominates both dominates it. A client that had no clock adopts the server's.
pub proof fn lemma_observe_least(
    own: Option<Map<u128, u128>>,
    seen: Map<u128, u128>,
    d: Map<u128, u128>,
)
    ensures
        own is None ==> observe(own, seen) == seen,
        own matches Some(o) ==> (dominates(d, o) && dominates(d, seen) ==> dominates(
            d,
            observe(own, seen),
        )),
{
    if let Some(o) = own {
        crate::clock::lemma_merge_least_upper_bound(o, seen, d);
    }
}

/// The outcome of processing a reply: success with the value read when the
/// reply carries a clock, failure otherwise.
pub open spec fn reply_outcome(reply: ReadReply) -> (bool, Option<String>) {
    match reply.clock {
        Some(_) => (true, reply.value),
        None => (false, None),
    }
}

/// The state of a client of a causally consistent key-value store: the clock
/// of what it has observed so far.
pub struct VlcClient {
    pub clock: Option<Clock>,
}

impl VlcClient {
    /// A client that has observed nothing.
    pub fn new() -> (c: VlcClient)
        ensures
            c.clock is None,
    {
        VlcClient { clock: None }
    }

    /// The request that reads `key`, carrying the client's clock.
    pub fn read(&self, key: &str) -> (req: Request)
        ensures
            req matches Request::Read(r) && r.key@ == key@ && clock_view(r.clock) == clock_view(
                self.clock,
            ),
    {
        Request::Read(Read { key: key.to_owned(), clock: self.clone_clock() })
    }

    /// The request that writes `value` under `key`, carrying the client's clock,
    /// and the index of the server to send it to: `index` when given, else the
    /// server that `key` maps to.
    pub fn write(&self, key: &str, value: &str, index: Option<usize>) -> (res: (Request, usize))
        ensures
            res.0 matches Request::Write(w) && w.key@ == key@ && w.value@ == value@ && clock_view(
                w.clock,
            ) == clock_view(self.clock),
            res.1 == match index {
                Some(i) => i,
                None => 0,
            },
    {
        let request = Request::Write(
            Write { key: key.to_owned(), value: value.to_owned(), clock: self.clone_clock() },
        );
        let index: usize = match index {
            Some(i) => i,
            None => self.key_to_server(key),
        };
        (request, index)
    }

    fn clone_clock(&self) -> (c: Option<Clock>)
        ensures
            clock_view(c) == clock_view(self.clock),
    {
        match &self.clock {
            Some(c) => Some(c.clone()),
            None => None,
        }
    }

    /// The server that `key` is stored on; there is one server, so it is 0.
    fn key_to_server(&self, key: &str) -> (index: usize)
        ensures
            index == 0,
    {
        let mut hasher = DefaultHasher::new();
        hash_key(key, &mut hasher);
        (hasher.finish() as usize) % 1
    }

    /// Takes in a server clock: merged into the client's clock, or adopted when
    /// the client has none. The client's clock then dominates both.
    fn update_clock(&mut self, clock: &Clock)
        ensures
            clock_view(final(self).clock) == Some(observe(clock_view(old(self).clock), clock@)),
            final(self).clock matches Some(c) && dominates(c@, clock@),
            old(self).clock matches Some(o) ==> (final(self).clock matches Some(c) && dominates(
                c@,
                o@,
            )),
    {
        match self.clock.take() {
            Some(mut mine) => {
                let ghost before = mine@;
                let others = vec![clock];
                assert(others@.map_values(|c: &Clock| c@) =~= seq![clock@]);
                mine.merge(&others);
                proof {
                    let single = seq![clock@];
                    assert(single.drop_last() =~= Seq::<Map<u128, u128>>::empty());
                    assert(merge_all(before, Seq::<Map<u128, u128>>::empty()) == before);
                    assert(merge_all(before, single) == merge_maps(
                        merge_all(before, single.drop_last()),
                        single.last(),
                    ));
                    assert(mine@ == merge_maps(before, clock@));
                    crate::clock::lemma_merge_least_upper_bound(before, clock@, before);
                }
                self.clock = Some(mine);
            },
            None => {
                self.clock = Some(clock.clone());
            },
        }
    }

    /// Processes a message from a server: a reply yields its outcome and, when
    /// it carries a clock, the client observes that clock; anything else yields
    /// nothing and changes nothing.
    pub fn process_message(&mut self, msg: Message) -> (res: Option<(bool, Option<String>)>)
        ensures
            match msg {
                Message::Reply(Reply::ReadReply(r)) | Message::Reply(Reply::WriteReply(r)) => {
                    &&& res == Some(reply_outcome(r))
                    &&& clock_view(final(self).clock) == match r.clock {
                        Some(c) => Some(observe(clock_view(old(self).clock), c@)),
                        None => clock_view(old(self).clock),
                    }
                },
                Message::Request(_) => res is None && clock_view(final(self).clock) == clock_view(
                    old(self).clock,
                ),
            },
    {
        match msg {
            Message::Reply(reply) => match reply {
                Reply::ReadReply(reply) => self.process_reply(reply),
                Reply::WriteReply(reply) => self.process_reply(reply),
            },
            _ => None,
        }
    }

    fn process_reply(&mut self, reply: ReadReply) -> (res: Option<(bool, Option<String>)>)
        ensures
            res == Some(reply_outcome(reply)),
            clock_view(final(self).clock) == match reply.clock {
                Some(c) => Some(observe(clock_view(old(self).clock), c@)),
                None => clock_view(old(self).clock),
            },
    {
        match reply.clock {
            Some(clock) => {
                self.update_clock(&clock);
                Some((true, reply.value))
            },
            None => Some((false, None)),
        }
    }
}

/// `Hash::hash` of a string slice into a `DefaultHasher`; nothing is stated of
/// the hasher's state afterwards, as std leaves its algorithm unspecified.
#[verifier::external_body]
fn hash_key(key: &str, hasher: &mut DefaultHasher) {
    std::hash::Hash::hash(key, hasher)
}

} // verus!
