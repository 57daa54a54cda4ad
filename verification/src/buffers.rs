//! The messages that wait to go out, by the peer that they go to.
use vstd::prelude::*;

use crate::keys::{same_key, PublicKey};
use crate::packet::{message_len, OnionMessage, OnionModel};

verus! {

/// Nothing more is taken in once this many bytes wait, for all peers together.
pub const MAX_TOTAL_BUFFER_SIZE: usize = 134217728;

/// Nothing more is taken in for a peer once this many bytes wait for it.
pub const MAX_PER_PEER_BUFFER_SIZE: usize = 262144;

/// A connected peer, and the messages that wait for it, the oldest first.
#[derive(Debug)]
pub struct PeerBuffer {
    pub node_id: PublicKey,
    pub messages: Vec<OnionMessage>,
}

/// What a [`PeerBuffer`] holds.
#[verifier::ext_equal]
pub struct PeerModel {
    pub id: Seq<u8>,
    pub queue: Seq<OnionModel>,
}

/// What each message holds.
pub open spec fn message_seq(messages: Seq<OnionMessage>) -> Seq<OnionModel> {
    Seq::new(messages.len(), |i: int| messages[i]@)
}

impl View for PeerBuffer {
    type V = PeerModel;

    open spec fn view(&self) -> PeerModel {
        PeerModel { id: self.node_id@, queue: message_seq(self.messages@) }
    }
}

/// The first place in `peers` that holds the peer `id`, or the length if none does.
pub open spec fn find(peers: Seq<PeerModel>, id: Seq<u8>) -> int
    decreases peers.len(),
{
    if peers.len() == 0 {
        0
    } else if peers[0].id == id {
        0
    } else {
        1 + find(peers.drop_first(), id)
    }
}

/// Whether the peer `id` is connected.
pub open spec fn has_peer(peers: Seq<PeerModel>, id: Seq<u8>) -> bool {
    find(peers, id) < peers.len()
}

/// The messages that wait for the connected peer `id`.
pub open spec fn queue_of(peers: Seq<PeerModel>, id: Seq<u8>) -> Seq<OnionModel> {
    peers[find(peers, id)].queue
}

/// Whether no peer occurs twice.
pub open spec fn distinct(peers: Seq<PeerModel>) -> bool {
    forall|i: int, j: int|
        0 <= i < j < peers.len() ==> #[trigger] peers[i].id != #[trigger] peers[j].id
}

/// A peer for which nothing waits.
pub open spec fn idle(id: Seq<u8>) -> PeerModel {
    PeerModel { id, queue: Seq::empty() }
}

/// The peers once `id` is connected, with nothing waiting for it.
pub open spec fn connected(peers: Seq<PeerModel>, id: Seq<u8>) -> Seq<PeerModel> {
    if has_peer(peers, id) {
        peers.update(find(peers, id), idle(id))
    } else {
        peers.push(idle(id))
    }
}

/// The peers once `message` waits for the connected peer `id`, behind what waited before.
pub open spec fn enqueued(peers: Seq<PeerModel>, id: Seq<u8>, message: OnionModel) -> Seq<
    PeerModel,
> {
    peers.update(
        find(peers, id),
        PeerModel { id, queue: queue_of(peers, id).push(message) },
    )
}

/// The peers once nothing waits any more. All stay connected.
pub open spec fn drained(peers: Seq<PeerModel>) -> Seq<PeerModel> {
    Seq::new(peers.len(), |i: int| idle(peers[i].id))
}

/// The bytes of the messages in a queue.
pub open spec fn queue_bytes(queue: Seq<OnionModel>) -> nat
    decreases queue.len(),
{
    if queue.len() == 0 {
        0
    } else {
        queue_bytes(queue.drop_last()) + message_len(queue.last())
    }
}

/// The bytes that wait for the peer `id`; none do for one that is not connected.
pub open spec fn peer_bytes(peers: Seq<PeerModel>, id: Seq<u8>) -> nat {
    if has_peer(peers, id) {
        queue_bytes(queue_of(peers, id))
    } else {
        0
    }
}

/// The bytes that wait for all peers together.
pub open spec fn total_bytes(peers: Seq<PeerModel>) -> nat
    decreases peers.len(),
{
    if peers.len() == 0 {
        0
    } else {
        total_bytes(peers.drop_last()) + queue_bytes(peers.last().queue)
    }
}

/// Whether nothing more is taken in for the peer `id`.
pub open spec fn buffer_full(peers: Seq<PeerModel>, id: Seq<u8>) -> bool {
    total_bytes(peers) >= MAX_TOTAL_BUFFER_SIZE || peer_bytes(peers, id)
        >= MAX_PER_PEER_BUFFER_SIZE
}

/// `find` gives the one place that holds the peer and that no earlier place does, or the
/// length if the peer is at no place.
pub proof fn lemma_find(peers: Seq<PeerModel>, id: Seq<u8>)
    ensures
        0 <= find(peers, id) <= peers.len(),
        find(peers, id) < peers.len() ==> peers[find(peers, id)].id == id,
        forall|i: int| 0 <= i < find(peers, id) ==> peers[i].id != id,
    decreases peers.len(),
{
    if peers.len() > 0 && peers[0].id != id {
        let rest = peers.drop_first();
        lemma_find(rest, id);
        assert forall|i: int| 0 <= i < find(peers, id) implies peers[i].id != id by {
            if i > 0 {
                assert(rest[i - 1] == peers[i]);
            }
        }
        if find(rest, id) < rest.len() {
            assert(rest[find(rest, id)] == peers[find(rest, id) + 1]);
        }
    }
}

/// A place that holds the peer, and before which none does, is the one that `find` gives.
pub proof fn lemma_find_is(peers: Seq<PeerModel>, id: Seq<u8>, at: int)
    requires
        0 <= at <= peers.len(),
        at < peers.len() ==> peers[at].id == id,
        forall|i: int| 0 <= i < at ==> peers[i].id != id,
    ensures
        find(peers, id) == at,
{
    lemma_find(peers, id);
    if find(peers, id) < at {
        assert(peers[find(peers, id)].id == id);
    }
}

/// Sums over a part are no greater than over the whole.
proof fn lemma_total_bytes_take(peers: Seq<PeerModel>, count: int)
    requires
        0 <= count <= peers.len(),
    ensures
        total_bytes(peers.take(count)) <= total_bytes(peers),
    decreases peers.len(),
{
    if count < peers.len() {
        lemma_total_bytes_take(peers.drop_last(), count);
        assert(peers.drop_last().take(count) =~= peers.take(count));
    } else {
        assert(peers.take(count) =~= peers);
    }
}

proof fn lemma_queue_bytes_take(queue: Seq<OnionModel>, count: int)
    requires
        0 <= count <= queue.len(),
    ensures
        queue_bytes(queue.take(count)) <= queue_bytes(queue),
    decreases queue.len(),
{
    if count < queue.len() {
        lemma_queue_bytes_take(queue.drop_last(), count);
        assert(queue.drop_last().take(count) =~= queue.take(count));
    } else {
        assert(queue.take(count) =~= queue);
    }
}

/// Counts the bytes in a queue, up to `limit`.
fn count_queue(messages: &Vec<OnionMessage>, limit: usize) -> (bytes: usize)
    requires
        limit <= MAX_TOTAL_BUFFER_SIZE,
    ensures
        queue_bytes(message_seq(messages@)) < limit ==> bytes == queue_bytes(message_seq(messages@)),
        queue_bytes(message_seq(messages@)) >= limit ==> bytes == limit,
{
    let ghost queue = message_seq(messages@);
    let mut bytes: usize = 0;
    let mut i: usize = 0;
    while i < messages.len()
        invariant
            i <= messages@.len(),
            queue == message_seq(messages@),
            limit <= MAX_TOTAL_BUFFER_SIZE,
            bytes == queue_bytes(queue.take(i as int)),
            bytes <= limit,
        decreases messages@.len() - i,
    {
        bytes = bytes + messages[i].serialized_length();
        i = i + 1;
        proof {
            assert(queue.take(i as int).drop_last() =~= queue.take(i - 1));
            assert(queue.take(i as int).last() == queue[i - 1]);
            lemma_queue_bytes_take(queue, i as int);
        }
        if bytes >= limit {
            return limit;
        }
    }
    assert(queue.take(i as int) =~= queue);
    bytes
}

/// The messages that wait to go out, by peer. No peer occurs twice.
#[derive(Debug)]
pub struct PendingMessages {
    peers: Vec<PeerBuffer>,
}

/// What each buffer holds.
pub open spec fn peer_seq(peers: Seq<PeerBuffer>) -> Seq<PeerModel> {
    Seq::new(peers.len(), |i: int| peers[i]@)
}

impl View for PendingMessages {
    type V = Seq<PeerModel>;

    /// The connected peers, in the order in which they first connected.
    closed spec fn view(&self) -> Seq<PeerModel> {
        peer_seq(self.peers@)
    }
}

impl PendingMessages {
    #[verifier::type_invariant]
    spec fn peers_distinct(&self) -> bool {
        distinct(self@)
    }

    /// No peers.
    pub fn new() -> (pending: PendingMessages)
        ensures
            pending@ == Seq::<PeerModel>::empty(),
    {
        let pending = PendingMessages { peers: Vec::new() };
        assert(pending@ =~= Seq::<PeerModel>::empty());
        pending
    }

    /// Where the peer `id` is, or the number of peers.
    fn position(&self, id: &PublicKey) -> (at: usize)
        ensures
            at == find(self@, id@),
            at <= self.peers@.len(),
            self.peers@.len() == self@.len(),
    {
        let ghost peers = self@;
        let mut i: usize = 0;
        while i < self.peers.len()
            invariant
                i <= self.peers@.len(),
                peers == self@,
                peers == peer_seq(self.peers@),
                forall|j: int| 0 <= j < i ==> peers[j].id != id@,
            decreases self.peers@.len() - i,
        {
            assert(peers[i as int].id == self.peers@[i as int].node_id@);
            if same_key(&self.peers[i].node_id, id) {
                proof {
                    lemma_find_is(peers, id@, i as int);
                }
                return i;
            }
            i = i + 1;
        }
        proof {
            lemma_find_is(peers, id@, i as int);
        }
        i
    }

    /// The messages that wait for the peer `id`, if it is connected.
    pub fn get(&self, id: &PublicKey) -> (messages: Option<&Vec<OnionMessage>>)
        ensures
            distinct(self@),
            match messages {
                Some(messages) => has_peer(self@, id@) && message_seq(messages@) == queue_of(
                    self@,
                    id@,
                ),
                None => !has_peer(self@, id@),
            },
    {
        proof {
            use_type_invariant(self);
        }
        let at = self.position(id);
        if at < self.peers.len() {
            Some(&self.peers[at].messages)
        } else {
            None
        }
    }

    /// Connects the peer `id`, with nothing waiting for it.
    pub fn connect(&mut self, id: &PublicKey)
        ensures
            final(self)@ == connected(old(self)@, id@),
            distinct(final(self)@),
    {
        proof {
            use_type_invariant(&*self);
            lemma_find(self@, id@);
        }
        let ghost before = self@;
        let at = self.position(id);
        let mut peers: Vec<PeerBuffer> = Vec::new();
        std::mem::swap(&mut peers, &mut self.peers);
        let buffer = PeerBuffer { node_id: *id, messages: Vec::new() };
        assert(buffer@ =~= idle(id@));
        if at < peers.len() {
            peers[at] = buffer;
        } else {
            peers.push(buffer);
        }
        assert(peer_seq(peers@) =~= connected(before, id@));
        self.peers = peers;
    }

    /// Adds a message behind those that wait for the connected peer `id`.
    pub fn enqueue(&mut self, id: &PublicKey, message: OnionMessage)
        requires
            has_peer(old(self)@, id@),
        ensures
            final(self)@ == enqueued(old(self)@, id@, message@),
            distinct(final(self)@),
    {
        proof {
            use_type_invariant(&*self);
            lemma_find(self@, id@);
        }
        let ghost before = self@;
        let at = self.position(id);
        let mut peers: Vec<PeerBuffer> = Vec::new();
        std::mem::swap(&mut peers, &mut self.peers);
        let ghost old_peers = peers@;
        peers[at].messages.push(message);
        proof {
            assert(message_seq(peers@[at as int].messages@) =~= message_seq(
                old_peers[at as int].messages@,
            ).push(message@));
            assert(peer_seq(peers@) =~= enqueued(before, id@, message@));
        }
        self.peers = peers;
    }

    /// Hands out all that waits. The peers stay connected.
    pub fn release(&mut self) -> (released: PendingMessages)
        ensures
            released@ == old(self)@,
            final(self)@ == drained(old(self)@),
            distinct(released@),
            distinct(final(self)@),
    {
        proof {
            use_type_invariant(&*self);
        }
        let ghost before = self@;
        let mut left: Vec<PeerBuffer> = Vec::new();
        let mut i: usize = 0;
        while i < self.peers.len()
            invariant
                i <= self.peers@.len(),
                self@ == before,
                before == peer_seq(self.peers@),
                peer_seq(left@) == drained(before).take(i as int),
            decreases self.peers@.len() - i,
        {
            let ghost prev = left@;
            let buffer = PeerBuffer { node_id: self.peers[i].node_id, messages: Vec::new() };
            assert(buffer@ =~= idle(before[i as int].id));
            left.push(buffer);
            i = i + 1;
            assert(peer_seq(left@) =~= peer_seq(prev).push(buffer@));
            assert(drained(before).take(i as int) =~= drained(before).take(i - 1).push(
                drained(before)[i - 1],
            ));
        }
        assert(drained(before).take(i as int) =~= drained(before));
        std::mem::swap(&mut left, &mut self.peers);
        PendingMessages { peers: left }
    }

    /// Whether nothing more is taken in for the peer `id`.
    pub fn outbound_buffer_full(&self, id: &PublicKey) -> (full: bool)
        ensures
            full == buffer_full(self@, id@),
    {
        let at = self.position(id);
        if at < self.peers.len() {
            let bytes = count_queue(&self.peers[at].messages, MAX_PER_PEER_BUFFER_SIZE);
            if bytes >= MAX_PER_PEER_BUFFER_SIZE {
                return true;
            }
        }
        let ghost peers = self@;
        let mut total: usize = 0;
        let mut i: usize = 0;
        while i < self.peers.len()
            invariant
                i <= self.peers@.len(),
                peers == self@,
                peers == peer_seq(self.peers@),
                total == total_bytes(peers.take(i as int)),
                total < MAX_TOTAL_BUFFER_SIZE,
            decreases self.peers@.len() - i,
        {
            let left: usize = MAX_TOTAL_BUFFER_SIZE - total;
            let bytes = count_queue(&self.peers[i].messages, left);
            i = i + 1;
            proof {
                assert(peers.take(i as int).drop_last() =~= peers.take(i - 1));
                assert(peers.take(i as int).last() == peers[i - 1]);
                lemma_total_bytes_take(peers, i as int);
            }
            if bytes >= left {
                return true;
            }
            total = total + bytes;
        }
        assert(peers.take(i as int) =~= peers);
        false
    }
}

} // verus!
