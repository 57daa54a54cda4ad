//! What each operation does, told by what goes in and what comes out.
use vstd::prelude::*;

use crate::buffers::{
    buffer_full, connected, distinct, drained, enqueued, find, has_peer, lemma_find,
    lemma_find_is, message_seq, peer_bytes, peer_seq, queue_bytes, queue_of, total_bytes,
    PeerBuffer, PeerModel,
};
use crate::custom::{
    count_down, count_up, expected_contents, known_message, CustomOnionMessageContents,
    TestCustomMessage, TestCustomMessageHandler,
};
use crate::features::{bit_of, flag_set, ONION_MESSAGES_OPTIONAL, ONION_MESSAGES_REQUIRED};
use crate::keys::{
    be_value, is_secret_key, master_secret, node_key_of_seed, public_of_secret, PublicKey,
};
use crate::laws::{law_enqueued, law_row};
use crate::logger::{
    contains_text, count_matches, line_seq, stands_at, LineModel, LogLine,
};
use crate::messenger::{
    onion_for, opened, passed_on, readable, sent, taken_in, LetterModel, MessengerModel, Opened,
    SendError,
};
use crate::nodes::{
    arrived, awaiting, can_pass, decimal, digit, hop_made, hop_ready, keys_exist, node_label,
    node_seed, node_seq, passed, released, row, row_id, row_peers, waiting,
    MessengerNode, NodeModel,
};
use crate::packet::{
    blinded_hops_len, blinded_path_len, forward_layers_len, layers_len, message_len,
    packet_size_for, peeled, varint_len, OnionMessage, OnionModel, PacketSize,
};
use crate::path::{
    blinded_option, hop_seq, hops_along, key_option, key_seq, route_for, BlindedPath,
    BlindedPathModel, Destination, DestinationModel, Hop, HopModel, OnionMessagePath, PathModel,
    Route, RouteModel,
};

verus! {

// ---------------------------------------------------------------------------------------
// Values and what they say
// ---------------------------------------------------------------------------------------

/// A key says its bytes, all of them.
pub proof fn law_key_says_its_bytes(a: PublicKey, b: PublicKey)
    ensures
        a@ == a.bytes@,
        a@.len() == 33,
        a@ == b@ <==> (forall|i: int| 0 <= i < 33 ==> a.bytes@[i] == b.bytes@[i]),
{
    if forall|i: int| 0 <= i < 33 ==> a.bytes@[i] == b.bytes@[i] {
        assert(a@ =~= b@);
    }
}

/// Hops and paths say every key that they hold, each in its place.
pub proof fn law_paths_say_their_keys(
    hop: Hop,
    blinded: BlindedPath,
    path: OnionMessagePath,
    route: Route,
    keys: Seq<PublicKey>,
    hops: Seq<Hop>,
    i: int,
)
    ensures
        hop@.recipient == hop.recipient.bytes@,
        match hop.next_node_id {
            Some(next) => hop@.next == Some(next.bytes@),
            None => hop@.next is None,
        },
        blinded@.introduction == blinded.introduction_node_id.bytes@,
        blinded@.hops.len() == blinded.blinded_hops@.len(),
        0 <= i < blinded@.hops.len() ==> blinded@.hops[i] == blinded.blinded_hops@[i]@,
        path@.intermediate.len() == path.intermediate_nodes@.len(),
        0 <= i < path@.intermediate.len() ==> path@.intermediate[i]
            == path.intermediate_nodes@[i].bytes@,
        match path.destination {
            Destination::Node(id) => path@.destination == DestinationModel::Node(id.bytes@),
            Destination::BlindedPath(end) => path@.destination == DestinationModel::BlindedPath(
                end@,
            ),
        },
        blinded_option(Some(blinded)) == Some(blinded@),
        blinded_option(None) is None,
        route@.first == route.first_node.bytes@,
        route@.hops.len() == route.hops@.len(),
        0 <= i < route@.hops.len() ==> route@.hops[i] == route.hops@[i]@,
        route@.enters_blinded == route.enters_blinded_path,
        key_seq(keys).len() == keys.len(),
        0 <= i < keys.len() ==> key_seq(keys)[i] == keys[i].bytes@,
        0 <= i < keys.len() ==> key_option(Some(keys[i])) == Some(keys[i].bytes@),
        key_option(None) is None,
        hop_seq(hops).len() == hops.len(),
        0 <= i < hops.len() ==> hop_seq(hops)[i] == hops[i]@,
{
}

/// A message says its layers, its type, its contents, its reply path and its packet, and a
/// peer's buffer says the peer and every message in order.
pub proof fn law_messages_say_what_they_hold(
    message: OnionMessage,
    buffer: PeerBuffer,
    buffers: Seq<PeerBuffer>,
    i: int,
)
    ensures
        message@.hops.len() == message.hops@.len(),
        0 <= i < message@.hops.len() ==> message@.hops[i] == message.hops@[i]@,
        message@.tlv_type == message.tlv_type,
        message@.contents == message.contents@,
        match message.reply_path {
            Some(path) => message@.reply_path == Some(path@),
            None => message@.reply_path is None,
        },
        message@.packet_size == message.packet_size,
        buffer@.id == buffer.node_id.bytes@,
        buffer@.queue.len() == buffer.messages@.len(),
        0 <= i < buffer@.queue.len() ==> buffer@.queue[i] == buffer.messages@[i]@,
        message_seq(buffer.messages@) == buffer@.queue,
        peer_seq(buffers).len() == buffers.len(),
        0 <= i < buffers.len() ==> peer_seq(buffers)[i] == buffers[i]@,
{
}

/// A node says its key, its messenger, how many messages it expects, its name and its log.
pub proof fn law_nodes_say_what_they_hold(
    node: MessengerNode,
    nodes: Seq<MessengerNode>,
    handler: TestCustomMessageHandler,
    line: LogLine,
    lines: Seq<LogLine>,
    i: int,
)
    ensures
        node@.id == node.keys_manager.spec_node_id(),
        node@.messenger == node.messenger@,
        node@.expected == node.custom_message_handler.num_messages_expected,
        node@.label == node.logger.spec_id(),
        node@.log == node.logger.spec_lines(),
        node_seq(nodes).len() == nodes.len(),
        0 <= i < nodes.len() ==> node_seq(nodes)[i] == nodes[i]@,
        handler@ == handler.num_messages_expected,
        line@.module == line.module@,
        line@.line == line.line@,
        line_seq(lines).len() == lines.len(),
        0 <= i < lines.len() ==> line_seq(lines)[i] == lines[i]@,
{
}

// ---------------------------------------------------------------------------------------
// Keys and features
// ---------------------------------------------------------------------------------------

/// The node key of a seed is the public key of the seed's master secret, and there is one
/// exactly where there is such a secret.
pub proof fn law_node_key(seed: Seq<u8>, secret: Seq<u8>)
    ensures
        master_secret(seed) == Some(secret) ==> node_key_of_seed(seed) == Some(
            public_of_secret(secret),
        ),
        node_key_of_seed(seed) is Some <==> master_secret(seed) is Some,
{
}

/// A secret key is thirty-two bytes for a number above zero and below the group's order;
/// each further byte shifts the number by one byte.
pub proof fn law_secret_key(bytes: Seq<u8>, byte: u8)
    ensures
        be_value(Seq::<u8>::empty()) == 0,
        be_value(bytes.push(byte)) == 256 * be_value(bytes) + byte,
        is_secret_key(bytes) <==> (bytes.len() == 32 && be_value(bytes) >= 1 && be_value(bytes)
            <= 0xFFFFFFFFFFFFFFFFFFFFFFFFFFFFFFFEBAAEDCE6AF48A03BBFD25E8CD0364140nat),
{
    assert(bytes.push(byte).drop_last() =~= bytes);
}

/// A feature bit stands in the byte that its number divided by eight gives, and there at
/// the place that the remainder gives, the lowest first.
pub proof fn law_feature_bits(flags: Seq<u8>, bit: int, byte: u8)
    ensures
        flag_set(flags, bit) <==> (0 <= bit && bit / 8 < flags.len() && bit_of(
            flags[bit / 8],
            (bit % 8) as u8,
        )),
        bit_of(byte, 0) <==> byte % 2 == 1,
        bit_of(byte, 1) <==> (byte / 2) % 2 == 1,
        bit_of(byte, 2) <==> (byte / 4) % 2 == 1,
        bit_of(byte, 3) <==> (byte / 8) % 2 == 1,
        bit_of(byte, 4) <==> (byte / 16) % 2 == 1,
        bit_of(byte, 5) <==> (byte / 32) % 2 == 1,
        bit_of(byte, 6) <==> (byte / 64) % 2 == 1,
        bit_of(byte, 7) <==> (byte / 128) % 2 == 1,
        ONION_MESSAGES_REQUIRED == 38,
        ONION_MESSAGES_OPTIONAL == 39,
{
    assert(byte & (1u8 << 0u8) != 0 <==> byte % 2 == 1) by (bit_vector);
    assert(byte & (1u8 << 1u8) != 0 <==> (byte / 2) % 2 == 1) by (bit_vector);
    assert(byte & (1u8 << 2u8) != 0 <==> (byte / 4) % 2 == 1) by (bit_vector);
    assert(byte & (1u8 << 3u8) != 0 <==> (byte / 8) % 2 == 1) by (bit_vector);
    assert(byte & (1u8 << 4u8) != 0 <==> (byte / 16) % 2 == 1) by (bit_vector);
    assert(byte & (1u8 << 5u8) != 0 <==> (byte / 32) % 2 == 1) by (bit_vector);
    assert(byte & (1u8 << 6u8) != 0 <==> (byte / 64) % 2 == 1) by (bit_vector);
    assert(byte & (1u8 << 7u8) != 0 <==> (byte / 128) % 2 == 1) by (bit_vector);
}

// ---------------------------------------------------------------------------------------
// Contents and the handler
// ---------------------------------------------------------------------------------------

/// Reading gives a message for the one known type and for no other; what is read for it are
/// thirty-two bytes of value 42, and any other type may hold anything.
pub proof fn law_only_known_type_is_read(message_type: u64, contents: Seq<u8>)
    ensures
        known_message(message_type) is Some <==> message_type == 4242,
        expected_contents(message_type, contents) <==> (message_type != 4242 || (contents.len()
            == 32 && forall|i: int| 0 <= i < 32 ==> contents[i] == 42)),
{
    lemma_custom_contents();
    let known = crate::custom::CUSTOM_MESSAGE_CONTENTS@;
    if contents.len() == 32 && forall|i: int| 0 <= i < 32 ==> contents[i] == 42 {
        assert(contents =~= known);
    }
}

proof fn lemma_custom_contents()
    ensures
        crate::custom::CUSTOM_MESSAGE_CONTENTS@.len() == 32,
        forall|i: int|
            0 <= i < 32 ==> #[trigger] crate::custom::CUSTOM_MESSAGE_CONTENTS@[i] == 42,
{
}

/// The test message is sent under the known type, as thirty-two bytes of value 42.
pub proof fn law_test_message(message: TestCustomMessage, i: int)
    ensures
        message.spec_tlv_type() == 4242,
        message.spec_contents().len() == 32,
        0 <= i < 32 ==> message.spec_contents()[i] == 42,
{
    lemma_custom_contents();
}

/// The handler counts by one, modulo the size of its counter.
pub proof fn law_counts_by_one(expected: u16)
    ensures
        count_up(expected) == (expected + 1) % 0x10000,
        count_down(expected) == (expected + 0xffff) % 0x10000,
{
}

// ---------------------------------------------------------------------------------------
// Paths and routes
// ---------------------------------------------------------------------------------------

/// The hops along nodes: one for each node, sealed to it, naming the node after it, and the
/// last naming none.
pub proof fn law_hops_along(ids: Seq<Seq<u8>>, i: int)
    ensures
        hops_along(ids).len() == ids.len(),
        0 <= i < ids.len() ==> hops_along(ids)[i].recipient == ids[i],
        0 <= i < ids.len() - 1 ==> hops_along(ids)[i].next == Some(ids[i + 1]),
        0 <= i == ids.len() - 1 ==> hops_along(ids)[i].next is None,
{
}

/// A path to a node becomes, for every sender, one layer for each node on it: the message
/// goes to the first, each layer names the next node, and the last is the destination's.
pub proof fn law_route_to_node(path: PathModel, id: Seq<u8>, sender: Seq<u8>, i: int)
    requires
        path.destination == DestinationModel::Node(id),
        0 <= i < path.intermediate.len(),
    ensures
        ({
            let count = path.intermediate.len() as int;
            let route = route_for(path, sender)->0;
            &&& route_for(path, sender) is Some
            &&& !route.enters_blinded
            &&& route.first == path.intermediate[0]
            &&& route.hops.len() == count + 1
            &&& route.hops[i].recipient == path.intermediate[i]
            &&& route.hops[i].next == Some(
                if i + 1 < count {
                    path.intermediate[i + 1]
                } else {
                    id
                },
            )
            &&& route.hops[count] == (HopModel { recipient: id, next: None })
        }),
{
}

/// A path straight to a node becomes the one layer of that node.
pub proof fn law_route_straight_to_node(path: PathModel, id: Seq<u8>, sender: Seq<u8>)
    requires
        path.destination == DestinationModel::Node(id),
        path.intermediate.len() == 0,
    ensures
        route_for(path, sender) == Some(
            RouteModel {
                first: id,
                hops: seq![HopModel { recipient: id, next: None }],
                enters_blinded: false,
            },
        ),
{
    assert(hops_along(path.intermediate.push(id)) =~= seq![HopModel { recipient: id, next: None }]);
}

/// A path through nodes to a blinded path becomes, for every sender, one layer for each of
/// the nodes, the last of which names the introduction node, and then the hops of the
/// blinded path as they are.
pub proof fn law_route_through_nodes_to_blinded(
    path: PathModel,
    blinded: BlindedPathModel,
    sender: Seq<u8>,
    i: int,
    j: int,
)
    requires
        path.destination == DestinationModel::BlindedPath(blinded),
        0 <= i < path.intermediate.len(),
    ensures
        ({
            let count = path.intermediate.len() as int;
            let route = route_for(path, sender)->0;
            &&& route_for(path, sender) is Some
            &&& route.enters_blinded
            &&& route.first == path.intermediate[0]
            &&& route.hops.len() == count + blinded.hops.len()
            &&& route.hops[i].recipient == path.intermediate[i]
            &&& route.hops[i].next == Some(
                if i + 1 < count {
                    path.intermediate[i + 1]
                } else {
                    blinded.introduction
                },
            )
            &&& 0 <= j < blinded.hops.len() ==> route.hops[count + j] == blinded.hops[j]
        }),
{
}

/// A path straight to a blinded path keeps its hops and goes to its introduction node. Only
/// where that is the sender itself is the first hop left out, and the message goes to the
/// node that this hop names; there is no route if the hop is another node's, or names none.
pub proof fn law_route_straight_to_blinded(
    path: PathModel,
    blinded: BlindedPathModel,
    sender: Seq<u8>,
)
    requires
        path.destination == DestinationModel::BlindedPath(blinded),
        path.intermediate.len() == 0,
    ensures
        blinded.introduction != sender ==> route_for(path, sender) == Some(
            RouteModel {
                first: blinded.introduction,
                hops: blinded.hops,
                enters_blinded: false,
            },
        ),
        blinded.introduction == sender ==> (route_for(path, sender) is Some <==> (
        blinded.hops.len() > 0 && blinded.hops[0].recipient == sender
            && blinded.hops[0].next is Some)),
        blinded.introduction == sender && route_for(path, sender) is Some ==> route_for(
            path,
            sender,
        ) == Some(
            RouteModel {
                first: blinded.hops[0].next->0,
                hops: blinded.hops.skip(1),
                enters_blinded: false,
            },
        ),
{
}

// ---------------------------------------------------------------------------------------
// Lengths
// ---------------------------------------------------------------------------------------

/// Numbers take one, three, five or nine bytes, by their size.
pub proof fn law_varint_len(n: nat)
    ensures
        n <= 252 ==> varint_len(n) == 1,
        253 <= n <= 65535 ==> varint_len(n) == 3,
        65536 <= n <= 4294967295 ==> varint_len(n) == 5,
        n > 4294967295 ==> varint_len(n) == 9,
{
}

/// Each layer that is passed on adds 86 bytes if it names a node and 51 if not, and each hop
/// of a blinded path adds the same to the path, which takes 67 bytes besides.
pub proof fn law_each_hop_adds_its_bytes(hops: Seq<HopModel>, hop: HopModel, introduction: Seq<u8>)
    ensures
        forward_layers_len(Seq::empty()) == 0,
        forward_layers_len(hops.push(hop)) == forward_layers_len(hops) + (if hop.next is Some {
            86nat
        } else {
            51nat
        }),
        blinded_path_len(BlindedPathModel { introduction, hops: Seq::empty() }) == 67,
        blinded_path_len(BlindedPathModel { introduction, hops: hops.push(hop) })
            == blinded_path_len(BlindedPathModel { introduction, hops }) + (if hop.next is Some {
            86nat
        } else {
            51nat
        }),
{
    assert(hops.push(hop).drop_last() =~= hops);
    assert(blinded_hops_len(Seq::empty()) == 0);
}

/// The layers of a message take what those that are passed on take; 35 bytes more to enter
/// a blinded path; and for the innermost its length, the code of 32 bytes, and as records
/// the reply path, the sealed hop and the message.
pub proof fn law_layers_take_their_parts(
    hops: Seq<HopModel>,
    last: HopModel,
    first: Seq<u8>,
    enters_blinded: bool,
    tlv_type: u64,
    contents_len: nat,
    reply_path: Option<BlindedPathModel>,
)
    ensures
        ({
            let route = RouteModel { first, hops: hops.push(last), enters_blinded };
            let reply = match reply_path {
                Some(path) => 1 + varint_len(blinded_path_len(path)) + blinded_path_len(path),
                None => 0,
            };
            let sealed: nat = if last.next is Some {
                53
            } else {
                18
            };
            let message = varint_len(tlv_type as nat) + varint_len(contents_len) + contents_len;
            let records: nat = reply + sealed + message;
            layers_len(route, tlv_type, contents_len, reply_path) == forward_layers_len(hops)
                + varint_len(records) + records + 32 + (if enters_blinded {
                35nat
            } else {
                0nat
            })
        }),
{
    assert(hops.push(last).drop_last() =~= hops);
}

/// Layers go in a small packet up to 1300 bytes, in a big one up to 32768, and in none
/// beyond; a message takes 1401 bytes in the one and 32869 in the other.
pub proof fn law_packet_sizes(len: nat, message: OnionModel)
    ensures
        packet_size_for(len) == Some(PacketSize::Small) <==> len <= 1300,
        packet_size_for(len) == Some(PacketSize::Big) <==> 1300 < len <= 32768,
        packet_size_for(len) is None <==> len > 32768,
        message.packet_size is Small ==> message_len(message) == 1401,
        message.packet_size is Big ==> message_len(message) == 32869,
{
}

// ---------------------------------------------------------------------------------------
// Buffers
// ---------------------------------------------------------------------------------------

/// A peer is connected exactly if it is among the peers. Where no peer occurs twice, what
/// waits for one is what stands at its place.
pub proof fn law_lookup(peers: Seq<PeerModel>, id: Seq<u8>, i: int)
    ensures
        has_peer(peers, id) <==> exists|k: int| 0 <= k < peers.len() && peers[k].id == id,
        distinct(peers) <==> forall|k: int, l: int|
            0 <= k < peers.len() && 0 <= l < peers.len() && k != l ==> #[trigger] peers[k].id
                != #[trigger] peers[l].id,
        distinct(peers) && 0 <= i < peers.len() ==> queue_of(peers, peers[i].id)
            == peers[i].queue,
{
    lemma_find(peers, id);
    if has_peer(peers, id) {
        assert(peers[find(peers, id)].id == id);
    }
    if exists|k: int| 0 <= k < peers.len() && peers[k].id == id {
        let k = choose|k: int| 0 <= k < peers.len() && peers[k].id == id;
        assert(find(peers, id) <= k);
    }
    if distinct(peers) && 0 <= i < peers.len() {
        lemma_find_is(peers, peers[i].id, i);
    }
}

/// Connecting a peer, adding a message for one, and releasing change the peers place by
/// place: connecting empties the peer's own queue or adds the peer at the end, adding
/// lengthens the peer's own queue at its end, releasing empties all queues, and no other
/// place changes.
pub proof fn law_peers_place_by_place(
    peers: Seq<PeerModel>,
    id: Seq<u8>,
    message: OnionModel,
    i: int,
)
    requires
        distinct(peers),
    ensures
        has_peer(peers, id) ==> connected(peers, id).len() == peers.len(),
        !has_peer(peers, id) ==> connected(peers, id).len() == peers.len() + 1 && connected(
            peers,
            id,
        ).last() == (PeerModel { id, queue: Seq::empty() }),
        0 <= i < peers.len() ==> connected(peers, id)[i] == (if peers[i].id == id {
            PeerModel { id, queue: Seq::empty() }
        } else {
            peers[i]
        }),
        has_peer(peers, id) ==> enqueued(peers, id, message).len() == peers.len(),
        has_peer(peers, id) && 0 <= i < peers.len() ==> enqueued(peers, id, message)[i] == (if peers[i].id == id {
            PeerModel { id, queue: peers[i].queue.push(message) }
        } else {
            peers[i]
        }),
        drained(peers).len() == peers.len(),
        0 <= i < peers.len() ==> drained(peers)[i] == (PeerModel { id: peers[i].id, queue: Seq::empty() }),
{
    lemma_find(peers, id);
    law_lookup(peers, id, i);
    if 0 <= i < peers.len() && peers[i].id == id {
        lemma_find_is(peers, id, i);
    }
}

/// The bytes that wait are the bytes of all messages, each counted once.
pub proof fn law_bytes_add_up(
    queue: Seq<OnionModel>,
    message: OnionModel,
    peers: Seq<PeerModel>,
    peer: PeerModel,
)
    ensures
        queue_bytes(Seq::empty()) == 0,
        queue_bytes(queue.push(message)) == queue_bytes(queue) + (if message.packet_size is Small {
            1401nat
        } else {
            32869nat
        }),
        total_bytes(Seq::empty()) == 0,
        total_bytes(peers.push(peer)) == total_bytes(peers) + queue_bytes(peer.queue),
{
    assert(queue.push(message).drop_last() =~= queue);
    assert(peers.push(peer).drop_last() =~= peers);
}

/// Nothing more is taken in for a peer exactly if 128 MiB wait in all, or 256 KiB for that
/// peer.
pub proof fn law_buffer_limits(peers: Seq<PeerModel>, id: Seq<u8>)
    requires
        distinct(peers),
    ensures
        buffer_full(peers, id) <==> (total_bytes(peers) >= 128 * 1024 * 1024 || exists|i: int|
            0 <= i < peers.len() && (#[trigger] peers[i]).id == id && queue_bytes(peers[i].queue)
                >= 256 * 1024),
{
    lemma_find(peers, id);
    if has_peer(peers, id) {
        assert(peers[find(peers, id)].id == id);
    }
    assert forall|i: int| 0 <= i < peers.len() && (#[trigger] peers[i]).id == id implies peer_bytes(
        peers,
        id,
    ) == queue_bytes(peers[i].queue) by {
        lemma_find_is(peers, id, i);
    }
}

// ---------------------------------------------------------------------------------------
// Sending
// ---------------------------------------------------------------------------------------

/// The onion that a letter becomes carries the letter unchanged, under the layers of the
/// route, on every route; there is one exactly if a packet holds the layers.
pub proof fn law_onion_carries_the_letter(route: RouteModel, letter: LetterModel)
    ensures
        onion_for(route, letter) is Some <==> layers_len(
            route,
            letter.tlv_type,
            letter.contents.len(),
            letter.reply_path,
        ) <= 32768,
        onion_for(route, letter) matches Some(onion) ==> {
            &&& onion.hops == route.hops
            &&& onion.tlv_type == letter.tlv_type
            &&& onion.contents == letter.contents
            &&& onion.reply_path == letter.reply_path
            &&& onion.packet_size is Small <==> layers_len(
                route,
                letter.tlv_type,
                letter.contents.len(),
                letter.reply_path,
            ) <= 1300
        },
{
}

/// When a message is taken in, and each reason why one is not, if and only if.
pub proof fn law_send_answers(messenger: MessengerModel, path: PathModel, letter: LetterModel)
    ensures
        ({
            let answer = sent(messenger, path, letter);
            let route = route_for(path, messenger.id);
            let short = match path.destination {
                DestinationModel::Node(_) => false,
                DestinationModel::BlindedPath(blinded) => blinded.hops.len() <= 1,
            };
            let valid = !short && letter.tlv_type >= 64;
            let fits = layers_len(
                route->0,
                letter.tlv_type,
                letter.contents.len(),
                letter.reply_path,
            ) <= 32768;
            let full = buffer_full(messenger.peers, route->0.first);
            let peer = has_peer(messenger.peers, route->0.first);
            &&& answer == Err::<MessengerModel, SendError>(SendError::TooFewBlindedHops) <==> short
            &&& answer == Err::<MessengerModel, SendError>(SendError::InvalidMessage) <==> !short
                && letter.tlv_type <= 63
            &&& answer == Err::<MessengerModel, SendError>(SendError::BlindedPathAdvanceFailed)
                <==> valid && route is None
            &&& answer == Err::<MessengerModel, SendError>(SendError::TooBigPacket) <==> valid
                && route is Some && !fits
            &&& answer == Err::<MessengerModel, SendError>(SendError::BufferFull) <==> valid
                && route is Some && fits && full
            &&& answer == Err::<MessengerModel, SendError>(SendError::InvalidFirstHop) <==> valid
                && route is Some && fits && !full && !peer
            &&& answer is Ok <==> valid && route is Some && fits && !full && peer
        }),
{
}

/// A message that is taken in waits for the first node of its route, behind whatever waits
/// there already, as the onion that carries the letter under all the layers of the route;
/// nothing changes at any other place.
pub proof fn law_send_adds_the_letter(
    messenger: MessengerModel,
    path: PathModel,
    letter: LetterModel,
    i: int,
)
    requires
        distinct(messenger.peers),
        sent(messenger, path, letter) is Ok,
    ensures
        ({
            let after = sent(messenger, path, letter)->Ok_0;
            let route = route_for(path, messenger.id)->0;
            let len = layers_len(route, letter.tlv_type, letter.contents.len(), letter.reply_path);
            let onion = OnionModel {
                hops: route.hops,
                tlv_type: letter.tlv_type,
                contents: letter.contents,
                reply_path: letter.reply_path,
                packet_size: if len <= 1300 {
                    PacketSize::Small
                } else {
                    PacketSize::Big
                },
            };
            &&& after.id == messenger.id
            &&& after.peers.len() == messenger.peers.len()
            &&& 0 <= i < messenger.peers.len() ==> after.peers[i].id == messenger.peers[i].id
            &&& 0 <= i < messenger.peers.len() ==> after.peers[i].queue == (
            if messenger.peers[i].id == route.first {
                messenger.peers[i].queue.push(onion)
            } else {
                messenger.peers[i].queue
            })
        }),
{
    let route = route_for(path, messenger.id)->0;
    law_onion_carries_the_letter(route, letter);
    law_peers_place_by_place(messenger.peers, route.first, onion_for(route, letter)->0, i);
}

// ---------------------------------------------------------------------------------------
// Receiving
// ---------------------------------------------------------------------------------------

/// What a node finds in an onion: nothing if the outermost layer is not its own; else the
/// message, if the layer is the innermost and names no node; else the rest, if it is not
/// the innermost and names one; and anything else is bogus.
pub proof fn law_opening(id: Seq<u8>, onion: OnionModel, next: Seq<u8>)
    ensures
        opened(id, onion) is Receive <==> (onion.hops.len() == 1 && onion.hops[0].recipient == id
            && onion.hops[0].next is None),
        opened(id, onion) == Opened::Forward(next) <==> (onion.hops.len() >= 2
            && onion.hops[0].recipient == id && onion.hops[0].next == Some(next)),
        opened(id, onion) is Undecodable <==> (onion.hops.len() == 0 || onion.hops[0].recipient
            != id),
        onion.hops.len() > 0 ==> peeled(onion) == (OnionModel {
            hops: onion.hops.skip(1),
            tlv_type: onion.tlv_type,
            contents: onion.contents,
            reply_path: onion.reply_path,
            packet_size: onion.packet_size,
        }),
{
}

/// An onion whose outermost layer is a relay's own and names a connected peer with room is
/// added for that peer with exactly that layer removed, behind whatever waits there
/// already, and nothing changes for any other peer.
pub proof fn law_relay_removes_one_layer(
    messenger: MessengerModel,
    onion: OnionModel,
    next: Seq<u8>,
    other: Seq<u8>,
)
    requires
        onion.hops.len() >= 2,
        onion.hops[0].recipient == messenger.id,
        onion.hops[0].next == Some(next),
        has_peer(messenger.peers, next),
        !buffer_full(messenger.peers, next),
    ensures
        ({
            let after = passed_on(messenger, onion);
            &&& after.id == messenger.id
            &&& has_peer(after.peers, next)
            &&& queue_of(after.peers, next) == queue_of(messenger.peers, next).push(
                OnionModel { hops: onion.hops.skip(1), ..onion },
            )
            &&& has_peer(after.peers, other) == has_peer(messenger.peers, other)
            &&& other != next && has_peer(messenger.peers, other) ==> queue_of(after.peers, other)
                == queue_of(messenger.peers, other)
        }),
{
    law_enqueued(messenger.peers, next, peeled(onion), next);
    law_enqueued(messenger.peers, next, peeled(onion), other);
}

/// An onion that is not passed on leaves all that waits at the node as it was: one for the
/// node itself, one that it cannot open, a bogus one, and one for a node that is no peer or
/// has no room.
pub proof fn law_not_passed_on_changes_nothing(messenger: MessengerModel, onion: OnionModel)
    requires
        onion.hops.len() <= 1 || onion.hops[0].recipient != messenger.id
            || onion.hops[0].next is None || !has_peer(messenger.peers, onion.hops[0].next->0)
            || buffer_full(messenger.peers, onion.hops[0].next->0),
    ensures
        passed_on(messenger, onion) == messenger,
{
}

/// Whatever arrives, every peer stays where it is and its queue begins with what it was
/// before, and grows by one message at most.
pub proof fn law_arrival_keeps_what_waits(messenger: MessengerModel, onion: OnionModel, i: int)
    ensures
        ({
            let after = passed_on(messenger, onion);
            let queue = messenger.peers[i].queue;
            &&& after.id == messenger.id
            &&& after.peers.len() == messenger.peers.len()
            &&& 0 <= i < messenger.peers.len() ==> {
                &&& after.peers[i].id == messenger.peers[i].id
                &&& queue.len() <= after.peers[i].queue.len() <= queue.len() + 1
                &&& after.peers[i].queue.subrange(0, queue.len() as int) == queue
            }
        }),
{
    let after = passed_on(messenger, onion);
    let queue = messenger.peers[i].queue;
    if onion.hops.len() > 0 && onion.hops[0].next is Some {
        lemma_find(messenger.peers, onion.hops[0].next->0);
    }
    if 0 <= i < messenger.peers.len() {
        assert(after.peers[i].queue.subrange(0, queue.len() as int) =~= queue);
    }
}

/// A node takes a message in exactly if the onion has one layer left, its own, that names
/// no node, and the message is of the known type. Then its count goes down by one and its
/// log gains the line that tells whether a reply path came along. In every other case count
/// and log are as they were; and its key and name are in any case.
pub proof fn law_node_takes_in(node: NodeModel, onion: OnionModel)
    ensures
        ({
            let after = arrived(node, onion);
            let for_node = onion.hops.len() == 1 && onion.hops[0].recipient == node.messenger.id
                && onion.hops[0].next is None && onion.tlv_type == 4242;
            &&& taken_in(node.messenger.id, onion) == for_node
            &&& after.id == node.id
            &&& after.label == node.label
            &&& after.messenger == passed_on(node.messenger, onion)
            &&& after.messenger.id == node.messenger.id
            &&& for_node ==> {
                &&& after.messenger == node.messenger
                &&& after.expected == (node.expected + 0xffff) % 0x10000
                &&& after.log == node.log.push(
                    LineModel {
                        module: "lightning::onion_message::messenger"@,
                        line: if onion.reply_path is Some {
                            "Received an onion message with path_id None and a reply_path"@
                        } else {
                            "Received an onion message with path_id None and no reply_path"@
                        },
                    },
                )
            }
            &&& !for_node ==> after.expected == node.expected && after.log == node.log
        }),
{
}

/// A message of a type other than the known one leaves count and log as they were, whatever
/// it holds.
pub proof fn law_other_types_leave_no_trace(node: NodeModel, onion: OnionModel)
    requires
        onion.tlv_type != 4242,
    ensures
        readable(node.messenger.id, onion),
        arrived(node, onion).expected == node.expected,
        arrived(node, onion).log == node.log,
{
}

/// The only onion that a node cannot be handed is one for itself that has the known type
/// and other contents.
pub proof fn law_readable(id: Seq<u8>, onion: OnionModel)
    ensures
        !readable(id, onion) <==> {
            &&& onion.hops.len() == 1
            &&& onion.hops[0].recipient == id
            &&& onion.hops[0].next is None
            &&& onion.tlv_type == 4242
            &&& !(onion.contents.len() == 32 && forall|i: int|
                0 <= i < 32 ==> onion.contents[i] == 42)
        },
{
    law_only_known_type_is_read(onion.tlv_type, onion.contents);
}

/// Two onions that a relay gets one after the other for one peer with room both wait for
/// it, in the order in which they came, each without the relay's layer.
pub proof fn law_relay_keeps_order(
    messenger: MessengerModel,
    first: OnionModel,
    second: OnionModel,
    next: Seq<u8>,
)
    requires
        first.hops.len() >= 2,
        first.hops[0].recipient == messenger.id,
        first.hops[0].next == Some(next),
        second.hops.len() >= 2,
        second.hops[0].recipient == messenger.id,
        second.hops[0].next == Some(next),
        has_peer(messenger.peers, next),
        !buffer_full(messenger.peers, next),
        !buffer_full(passed_on(messenger, first).peers, next),
    ensures
        queue_of(passed_on(passed_on(messenger, first), second).peers, next) == queue_of(
            messenger.peers,
            next,
        ).push(OnionModel { hops: first.hops.skip(1), ..first }).push(
            OnionModel { hops: second.hops.skip(1), ..second },
        ),
{
    law_relay_removes_one_layer(messenger, first, next, next);
    law_relay_removes_one_layer(passed_on(messenger, first), second, next, next);
}

// ---------------------------------------------------------------------------------------
// The log
// ---------------------------------------------------------------------------------------

/// A text contains a part exactly if it is the part with something before and after it.
pub proof fn law_contains_text(text: Seq<char>, part: Seq<char>)
    ensures
        contains_text(text, part) <==> exists|before: Seq<char>, after: Seq<char>|
            text == #[trigger] (before + part + after),
{
    if contains_text(text, part) {
        let at = choose|at: int| stands_at(text, part, at);
        let before = text.subrange(0, at);
        let after = text.subrange(at + part.len(), text.len() as int);
        assert(text.subrange(at, at + part.len()) == part);
        assert(text =~= before + part + after) by {
            assert forall|i: int| 0 <= i < text.len() implies text[i] == (before + part + after)[i] by {
                if at <= i < at + part.len() {
                    assert(text.subrange(at, at + part.len())[i - at] == text[i]);
                }
            }
        }
    }
    if exists|before: Seq<char>, after: Seq<char>| text == #[trigger] (before + part + after) {
        let (before, after) = choose|before: Seq<char>, after: Seq<char>|
            text == #[trigger] (before + part + after);
        let at = before.len() as int;
        assert(text.subrange(at, at + part.len()) =~= part);
        assert(stands_at(text, part, at));
    }
}

/// Each line counts once, if its module is the one asked for and it contains the part asked
/// for.
pub proof fn law_lines_are_counted(
    lines: Seq<LineModel>,
    line: LineModel,
    module: Seq<char>,
    part: Seq<char>,
)
    ensures
        count_matches(Seq::empty(), module, part) == 0,
        count_matches(lines.push(line), module, part) == count_matches(lines, module, part) + (if (
        line.module == module && contains_text(line.line, part)) {
            1nat
        } else {
            0nat
        }),
{
    assert(lines.push(line).drop_last() =~= lines);
}

// ---------------------------------------------------------------------------------------
// Rows of nodes
// ---------------------------------------------------------------------------------------

/// The node at each place of a row goes by the key of the seed whose bytes are all the
/// place's number, in its messenger too; the row can be made exactly if all these seeds
/// give keys; and the seeds of two places differ.
pub proof fn law_row_keys(count: nat, i: nat, j: nat, seed: Seq<u8>)
    requires
        i < count <= 255,
        j < count,
        seed.len() == 32,
        forall|k: int| 0 <= k < 32 ==> seed[k] == i,
    ensures
        row(count).len() == count,
        row(count)[i as int].id == node_key_of_seed(seed)->0,
        row(count)[i as int].messenger.id == node_key_of_seed(seed)->0,
        row_id(i) == node_key_of_seed(seed)->0,
        keys_exist(count) ==> node_key_of_seed(seed) is Some,
        i != j ==> node_seed(j) != seed,
        node_seed(i) == seed,
{
    assert(node_seed(i) =~= seed);
    assert(node_seed(j)[0] == j as u8);
}

/// A row can be made exactly if every seed gives a key whose bytes are all one number that
/// is the place of a node in it.
pub proof fn law_row_needs_keys(count: nat)
    requires
        count <= 255,
    ensures
        keys_exist(count) <==> forall|seed: Seq<u8>|
            seed.len() == 32 && seed[0] < count && (forall|k: int|
                0 <= k < 32 ==> #[trigger] seed[k] == seed[0])
                ==> #[trigger] node_key_of_seed(seed) is Some,
{
    if keys_exist(count) {
        assert forall|seed: Seq<u8>|
            seed.len() == 32 && seed[0] < count && (forall|k: int|
                0 <= k < 32 ==> #[trigger] seed[k] == seed[0]) implies #[trigger] node_key_of_seed(
            seed,
        ) is Some by {
            assert(node_seed(seed[0] as nat) =~= seed);
        }
    } else {
        let i = choose|i: nat| i < count && node_key_of_seed(#[trigger] node_seed(i)) is None;
        let seed = node_seed(i);
        assert(seed.len() == 32 && seed[0] == i);
        assert forall|k: int| 0 <= k < 32 implies #[trigger] seed[k] == seed[0] by {}
        assert(node_key_of_seed(seed) is None);
    }
}

/// Each node of a row expects nothing, has logged nothing, has nothing waiting, and is
/// connected exactly to the nodes at the places next to its own, first to the one before.
pub proof fn law_row_is_fresh(count: nat, i: int, id: Seq<u8>, j: int)
    requires
        0 <= i < count,
    ensures
        ({
            let node = row(count)[i];
            &&& node.expected == 0
            &&& node.log.len() == 0
            &&& distinct(node.messenger.peers)
            &&& 0 <= j < node.messenger.peers.len() ==> node.messenger.peers[j].queue.len() == 0
            &&& i > 0 ==> node.messenger.peers[0].id == row(count)[i - 1].id
            &&& i + 1 < count ==> node.messenger.peers.last().id == row(count)[i + 1].id
            &&& has_peer(node.messenger.peers, id) <==> ((i > 0 && id == row(count)[i - 1].id)
                || (i + 1 < count && id == row(count)[i + 1].id))
        }),
{
    law_row(count, i as nat, id);
    lemma_row_peers_are(count, i as nat);
}

/// The peers of a node in a row, one by one.
proof fn lemma_row_peers_are(count: nat, i: nat)
    requires
        i < count,
    ensures
        ({
            let before = PeerModel { id: row_id((i - 1) as nat), queue: Seq::empty() };
            let after = PeerModel { id: row_id(i + 1), queue: Seq::empty() };
            row_peers(count, i) == (if i > 0 && i + 1 < count && before.id != after.id {
                seq![before, after]
            } else if i > 0 {
                seq![before]
            } else if i + 1 < count {
                seq![after]
            } else {
                Seq::empty()
            })
        }),
{
    let none = Seq::<PeerModel>::empty();
    let before = PeerModel { id: row_id((i - 1) as nat), queue: Seq::empty() };
    let after = PeerModel { id: row_id(i + 1), queue: Seq::empty() };
    lemma_find_is(none, before.id, 0);
    lemma_find_is(none, after.id, 0);
    assert(connected(none, before.id) =~= seq![before]);
    assert(connected(none, after.id) =~= seq![after]);
    if before.id == after.id {
        lemma_find_is(seq![before], after.id, 0);
        assert(connected(seq![before], after.id) =~= seq![before]);
    } else {
        lemma_find_is(seq![before], after.id, 1);
        assert(connected(seq![before], after.id) =~= seq![before, after]);
    }
}

/// The number that decimal digits stand for.
pub open spec fn digits_value(digits: Seq<char>) -> int
    decreases digits.len(),
{
    if digits.len() == 0 {
        0
    } else {
        10 * digits_value(digits.drop_last()) + (digits.last() as int - '0' as int)
    }
}

/// A number's decimal digits are digits, stand for the number, and do not begin with a zero
/// but for zero itself.
pub proof fn law_decimal(n: nat)
    ensures
        digits_value(decimal(n)) == n,
        decimal(n).len() > 0,
        forall|i: int| 0 <= i < decimal(n).len() ==> '0' <= #[trigger] decimal(n)[i] <= '9',
        decimal(n).len() > 1 ==> decimal(n)[0] != '0',
    decreases n,
{
    if n < 10 {
        assert(decimal(n).drop_last() =~= Seq::<char>::empty());
        assert(digits_value(Seq::<char>::empty()) == 0);
        assert(decimal(n).last() == digit(n));
    } else {
        law_decimal(n / 10);
        assert(decimal(n).drop_last() =~= decimal(n / 10));
        assert(decimal(n).last() == digit(n % 10));
        assert forall|i: int| 0 <= i < decimal(n).len() implies '0' <= #[trigger] decimal(n)[i]
            <= '9' by {
            if i < decimal(n / 10).len() {
                assert(decimal(n)[i] == decimal(n / 10)[i]);
            }
        }
        if decimal(n / 10).len() == 1 {
            assert(decimal(n / 10).drop_last() =~= Seq::<char>::empty());
            assert(digits_value(Seq::<char>::empty()) == 0);
        }
    }
}

/// The node at each place of a row is named "node" and its place, in decimal digits.
pub proof fn law_row_names(count: nat, i: int)
    requires
        0 <= i < count,
    ensures
        row(count)[i].label == "node "@ + decimal(i as nat),
        node_label(i as nat) == "node "@ + decimal(i as nat),
{
}

// ---------------------------------------------------------------------------------------
// Passing along
// ---------------------------------------------------------------------------------------

/// Awaiting adds one to the count of the last node and changes nothing else.
pub proof fn law_awaiting(nodes: Seq<NodeModel>, i: int)
    requires
        0 <= i < nodes.len(),
    ensures
        awaiting(nodes).len() == nodes.len(),
        i < nodes.len() - 1 ==> awaiting(nodes)[i] == nodes[i],
        i == nodes.len() - 1 ==> awaiting(nodes)[i] == (NodeModel {
            id: nodes[i].id,
            messenger: nodes[i].messenger,
            expected: ((nodes[i].expected + 1) % 0x10000) as u16,
            label: nodes[i].label,
            log: nodes[i].log,
        }),
{
}

/// A hop can be made exactly if one message waits for the node, at the node before it, and
/// the node can be handed it. The node before then has nothing waiting for anyone and is
/// else as it was; the message has arrived at the node; and no other node changes.
pub proof fn law_hop(nodes: Seq<NodeModel>, i: int, j: int, message: OnionModel)
    requires
        1 <= i < nodes.len(),
        0 <= j < nodes.len(),
    ensures
        hop_ready(nodes, i) <==> {
            &&& has_peer(nodes[i - 1].messenger.peers, nodes[i].id)
            &&& queue_of(nodes[i - 1].messenger.peers, nodes[i].id).len() == 1
            &&& readable(
                nodes[i].messenger.id,
                queue_of(nodes[i - 1].messenger.peers, nodes[i].id)[0],
            )
        },
        hop_made(nodes, i).len() == nodes.len(),
        j != i && j != i - 1 ==> hop_made(nodes, i)[j] == nodes[j],
        hop_made(nodes, i)[i - 1].id == nodes[i - 1].id,
        hop_made(nodes, i)[i - 1].expected == nodes[i - 1].expected,
        hop_made(nodes, i)[i - 1].label == nodes[i - 1].label,
        hop_made(nodes, i)[i - 1].log == nodes[i - 1].log,
        hop_made(nodes, i)[i - 1].messenger.id == nodes[i - 1].messenger.id,
        hop_made(nodes, i)[i - 1].messenger.peers == drained(nodes[i - 1].messenger.peers),
        queue_of(nodes[i - 1].messenger.peers, nodes[i].id) == seq![message] ==> hop_made(
            nodes,
            i,
        )[i] == arrived(nodes[i], message),
{
    assert(hop_made(nodes, i)[i - 1] == released(nodes[i - 1]));
    if queue_of(nodes[i - 1].messenger.peers, nodes[i].id) == seq![message] {
        assert(waiting(nodes, i) == message);
    }
}

/// Passing along is making the hops one after the other, from the first.
pub proof fn law_hop_after_hop(nodes: Seq<NodeModel>, hops: nat)
    ensures
        can_pass(nodes, 0),
        passed(nodes, 0) == nodes,
        can_pass(nodes, hops + 1) <==> can_pass(nodes, hops) && hop_ready(
            passed(nodes, hops),
            hops + 1int,
        ),
        passed(nodes, hops + 1) == hop_made(passed(nodes, hops), hops + 1int),
{
}

} // verus!
