//! What holds of nodes and messages as a whole.
use vstd::prelude::*;

use crate::buffers::{
    buffer_full, connected, drained, enqueued, find, has_peer, idle, lemma_find, lemma_find_is,
    queue_bytes, queue_of, total_bytes, PeerModel, MAX_PER_PEER_BUFFER_SIZE,
    MAX_TOTAL_BUFFER_SIZE,
};
use crate::custom::{
    count_down, count_up, expected_contents, known_message, CustomOnionMessageContents,
    TestCustomMessage, MIN_CONTENTS_TYPE,
};
use crate::logger::{contains_text, count_matches, stands_at, LineModel};
use crate::messenger::{
    log_module, onion_for, opened, passed_on, readable, received_line, sent, too_few_hops,
    LetterModel, MessengerModel, Opened, SendError,
};
use crate::nodes::{
    arrived, awaiting, can_pass, hop_made, hop_ready, passed, released, row, row_id, row_peers,
    waiting, NodeModel,
};
use crate::packet::{
    final_layer_len, forward_layers_len, layers_len, peeled, OnionModel, PacketSize,
    BIG_PACKET_HOP_DATA_LEN,
};
use crate::path::{
    hops_along, route_for, BlindedPathModel, DestinationModel, HopModel, PathModel, RouteModel,
};

verus! {

/// Whether nothing waits for any peer.
pub open spec fn quiet(peers: Seq<PeerModel>) -> bool {
    forall|i: int| 0 <= i < peers.len() ==> #[trigger] peers[i].queue == Seq::<OnionModel>::empty()
}

proof fn lemma_quiet_total(peers: Seq<PeerModel>)
    requires
        quiet(peers),
    ensures
        total_bytes(peers) == 0,
    decreases peers.len(),
{
    if peers.len() > 0 {
        assert forall|i: int| 0 <= i < peers.drop_last().len() implies #[trigger] peers.drop_last()[i].queue
            == Seq::<OnionModel>::empty() by {
            assert(peers[i].queue == Seq::<OnionModel>::empty());
        }
        lemma_quiet_total(peers.drop_last());
        assert(peers.last() == peers[peers.len() - 1]);
        assert(peers[peers.len() - 1].queue == Seq::<OnionModel>::empty());
    }
}

/// Where nothing waits, nothing is full.
proof fn lemma_quiet_not_full(peers: Seq<PeerModel>, id: Seq<u8>)
    requires
        quiet(peers),
    ensures
        !buffer_full(peers, id),
        has_peer(peers, id) ==> queue_of(peers, id) == Seq::<OnionModel>::empty(),
{
    lemma_quiet_total(peers);
    lemma_find(peers, id);
}

/// A message that is added for a peer waits behind those that waited for it before, and
/// nothing changes for any other peer.
pub proof fn law_enqueued(
    peers: Seq<PeerModel>,
    id: Seq<u8>,
    message: OnionModel,
    other: Seq<u8>,
)
    requires
        has_peer(peers, id),
    ensures
        has_peer(enqueued(peers, id, message), other) == has_peer(peers, other),
        queue_of(enqueued(peers, id, message), id) == queue_of(peers, id).push(message),
        other != id && has_peer(peers, other) ==> queue_of(enqueued(peers, id, message), other)
            == queue_of(peers, other),
{
    lemma_find(peers, id);
    lemma_find(peers, other);
    let after = enqueued(peers, id, message);
    assert forall|i: int| 0 <= i < peers.len() implies #[trigger] after[i].id == peers[i].id by {}
    lemma_find_is(after, id, find(peers, id));
    lemma_find_is(after, other, find(peers, other));
}

/// Connecting a peer leaves nothing waiting for it, and changes nothing for any other.
pub proof fn law_connected(peers: Seq<PeerModel>, id: Seq<u8>, other: Seq<u8>)
    ensures
        has_peer(connected(peers, id), id),
        queue_of(connected(peers, id), id) == Seq::<OnionModel>::empty(),
        other != id ==> has_peer(connected(peers, id), other) == has_peer(peers, other),
        other != id && has_peer(peers, other) ==> queue_of(connected(peers, id), other)
            == queue_of(peers, other),
{
    lemma_find(peers, id);
    lemma_find(peers, other);
    let after = connected(peers, id);
    assert forall|i: int| 0 <= i < peers.len() implies #[trigger] after[i].id == peers[i].id by {}
    lemma_find_is(after, id, find(peers, id));
    if other != id {
        if has_peer(peers, other) {
            lemma_find_is(after, other, find(peers, other));
        } else {
            lemma_find_is(after, other, after.len() as int);
        }
    }
}

/// Once a messenger has released what waited, nothing waits for any peer, every peer is
/// still connected, and releasing again changes nothing.
pub proof fn law_released(peers: Seq<PeerModel>, id: Seq<u8>)
    ensures
        quiet(drained(peers)),
        has_peer(drained(peers), id) == has_peer(peers, id),
        drained(drained(peers)) == drained(peers),
        !buffer_full(drained(peers), id),
{
    lemma_find(peers, id);
    lemma_find_is(drained(peers), id, find(peers, id));
    lemma_quiet_not_full(drained(peers), id);
    assert(drained(drained(peers)) =~= drained(peers));
}

/// A message expected and then received leaves the count as it was.
pub proof fn law_expected_and_received(expected: u16)
    ensures
        count_down(count_up(expected)) == expected,
        count_up(count_down(expected)) == expected,
{
}

/// What a message is written as, under its type, is read as the message.
pub proof fn law_written_is_read(message: TestCustomMessage)
    ensures
        message.spec_tlv_type() >= MIN_CONTENTS_TYPE,
        expected_contents(message.spec_tlv_type(), message.spec_contents()),
        known_message(message.spec_tlv_type()) == Some(message),
{
}

/// An onion whose outermost layer is sealed to another node leaves a node as it was.
pub proof fn law_sealed_to_another(node: NodeModel, onion: OnionModel)
    requires
        onion.hops.len() > 0,
        onion.hops[0].recipient != node.messenger.id,
    ensures
        readable(node.messenger.id, onion),
        arrived(node, onion) == node,
{
}

/// The public keys of nodes.
pub open spec fn ids_of(nodes: Seq<NodeModel>) -> Seq<Seq<u8>> {
    Seq::new(nodes.len(), |i: int| nodes[i].id)
}

/// The path in the open from the first of the nodes `ids` through the others to the last.
pub open spec fn open_path(ids: Seq<Seq<u8>>) -> PathModel {
    PathModel {
        intermediate: ids.subrange(1, ids.len() - 1),
        destination: DestinationModel::Node(ids.last()),
    }
}

/// The blinded path along the nodes `ids`.
pub open spec fn blinded_along(ids: Seq<Seq<u8>>) -> BlindedPathModel {
    BlindedPathModel { introduction: ids[0], hops: hops_along(ids) }
}

/// The path from the first of the nodes `ids` in the open up to place `at`, and from that
/// place on blinded. At place zero the sender itself is the introduction node.
pub open spec fn blinded_from(ids: Seq<Seq<u8>>, at: int) -> PathModel {
    PathModel {
        intermediate: if at > 0 {
            ids.subrange(1, at)
        } else {
            Seq::empty()
        },
        destination: DestinationModel::BlindedPath(blinded_along(ids.skip(at))),
    }
}

/// The route from the first of the nodes `ids` along the others.
pub open spec fn route_along(ids: Seq<Seq<u8>>, enters_blinded: bool) -> RouteModel {
    RouteModel { first: ids[1], hops: hops_along(ids.skip(1)), enters_blinded }
}

/// A path in the open leads along its nodes.
pub proof fn law_open_route(ids: Seq<Seq<u8>>)
    requires
        ids.len() >= 2,
    ensures
        route_for(open_path(ids), ids[0]) == Some(route_along(ids, false)),
{
    assert(ids.subrange(1, ids.len() - 1).push(ids.last()) =~= ids.skip(1));
}

/// A path that ends blinded leads along the same nodes as the path in the open does, also
/// where the sender is the introduction node itself: the message then starts with the node
/// after it. The sender must not be mistaken for the introduction node of a path that
/// starts at its peer.
pub proof fn law_blinded_route(ids: Seq<Seq<u8>>, at: int)
    requires
        0 <= at,
        at + 2 <= ids.len(),
        at == 1 ==> ids[1] != ids[0],
    ensures
        route_for(blinded_from(ids, at), ids[0]) == Some(route_along(ids, at > 1)),
{
    let path = blinded_from(ids, at);
    let blinded = blinded_along(ids.skip(at));
    if at == 0 {
        assert(ids.skip(0) =~= ids);
        assert(hops_along(ids).skip(1) =~= hops_along(ids.skip(1)));
    } else if at == 1 {
        assert(path.intermediate =~= Seq::<Seq<u8>>::empty());
    } else {
        let open = path.intermediate.push(blinded.introduction);
        assert(hops_along(open).drop_last() + blinded.hops =~= hops_along(ids.skip(1))) by {
            let left = hops_along(open).drop_last() + blinded.hops;
            let right = hops_along(ids.skip(1));
            assert(left.len() == right.len());
            assert forall|i: int| 0 <= i < left.len() implies left[i] == right[i] by {
                if i < at - 1 {
                    assert(left[i] == hops_along(open)[i]);
                    assert(open[i] == ids[i + 1]);
                    assert(open[i + 1] == ids[i + 2]);
                } else {
                    assert(left[i] == blinded.hops[i - (at - 1)]);
                }
            }
        }
        assert(path.intermediate[0] == ids[1]);
    }
}

/// Whether each node goes by its key, and is connected to the node after it.
pub open spec fn linked(nodes: Seq<NodeModel>) -> bool {
    &&& forall|i: int| 0 <= i < nodes.len() ==> (#[trigger] nodes[i]).messenger.id == nodes[i].id
    &&& forall|i: int|
        0 <= i < nodes.len() - 1 ==> has_peer(
            (#[trigger] nodes[i]).messenger.peers,
            nodes[i + 1].id,
        )
}

/// Whether nothing waits at any node.
pub open spec fn all_quiet(nodes: Seq<NodeModel>) -> bool {
    forall|i: int| 0 <= i < nodes.len() ==> quiet((#[trigger] nodes[i]).messenger.peers)
}

/// Whether nothing waits at any node but the last.
pub open spec fn quiet_up_to_last(nodes: Seq<NodeModel>) -> bool {
    forall|i: int| 0 <= i < nodes.len() - 1 ==> quiet((#[trigger] nodes[i]).messenger.peers)
}

/// The node with this messenger in place of its own.
pub open spec fn with_messenger(node: NodeModel, messenger: MessengerModel) -> NodeModel {
    NodeModel { messenger, ..node }
}

/// An onion on its way along the nodes `ids`, as it waits at place `k`.
spec fn onion_at(onion: OnionModel, ids: Seq<Seq<u8>>, k: int) -> OnionModel {
    OnionModel { hops: hops_along(ids.skip(k + 1)), ..onion }
}

/// The nodes while an onion waits at place `k`.
spec fn nodes_while_at(nodes: Seq<NodeModel>, onion: OnionModel, k: int) -> Seq<NodeModel> {
    let node = nodes[k];
    awaiting(nodes).update(
        k,
        with_messenger(
            node,
            MessengerModel {
                id: node.messenger.id,
                peers: enqueued(
                    node.messenger.peers,
                    nodes[k + 1].id,
                    onion_at(onion, ids_of(nodes), k),
                ),
            },
        ),
    )
}

/// One hop before the last: the onion goes from place `k` to wait at the next.
proof fn lemma_hop(nodes: Seq<NodeModel>, onion: OnionModel, k: int)
    requires
        linked(nodes),
        quiet_up_to_last(nodes),
        0 <= k < nodes.len() - 2,
    ensures
        hop_ready(nodes_while_at(nodes, onion, k), k + 1),
        hop_made(nodes_while_at(nodes, onion, k), k + 1) == nodes_while_at(nodes, onion, k + 1),
{
    let ids = ids_of(nodes);
    let state = nodes_while_at(nodes, onion, k);
    let here = onion_at(onion, ids, k);
    let there = onion_at(onion, ids, k + 1);
    let peers = nodes[k].messenger.peers;
    let next = nodes[k + 1];
    assert(quiet(peers));
    assert(has_peer(peers, next.id));
    lemma_quiet_not_full(peers, next.id);
    law_enqueued(peers, next.id, here, next.id);
    assert(state[k + 1] == next);
    assert(waiting(state, k + 1) == here);
    // The next node opens its layer, and finds the node after it named there.
    assert(ids.skip(k + 1)[0] == ids[k + 1]);
    assert(ids.skip(k + 1)[1] == ids[k + 2]);
    assert(here.hops.len() > 1);
    assert(opened(next.messenger.id, here) == Opened::Forward(nodes[k + 2].id));
    assert(quiet(next.messenger.peers));
    assert(has_peer(next.messenger.peers, nodes[k + 2].id));
    lemma_quiet_not_full(next.messenger.peers, nodes[k + 2].id);
    assert(peeled(here) == there) by {
        assert(hops_along(ids.skip(k + 1)).skip(1) =~= hops_along(ids.skip(k + 2)));
    }
    // The node that had it is as it was.
    lemma_find(peers, next.id);
    assert(drained(enqueued(peers, next.id, here)) =~= peers) by {
        assert forall|i: int| 0 <= i < peers.len() implies drained(
            enqueued(peers, next.id, here),
        )[i] == peers[i] by {
            assert(peers[i].queue == Seq::<OnionModel>::empty());
            assert(enqueued(peers, next.id, here)[i].id == peers[i].id);
        }
    }
    assert(released(state[k]) == nodes[k]);
    assert(hop_made(state, k + 1) =~= nodes_while_at(nodes, onion, k + 1));
}

/// The last hop: the onion goes from the node before the last to the last.
proof fn lemma_last_hop(nodes: Seq<NodeModel>, onion: OnionModel, letter: LetterModel)
    requires
        nodes.len() >= 2,
        linked(nodes),
        quiet_up_to_last(nodes),
        expected_contents(letter.tlv_type, letter.contents),
        onion.tlv_type == letter.tlv_type,
        onion.contents == letter.contents,
        onion.reply_path == letter.reply_path,
    ensures
        hop_ready(nodes_while_at(nodes, onion, nodes.len() - 2), nodes.len() - 1),
        hop_made(nodes_while_at(nodes, onion, nodes.len() - 2), nodes.len() - 1) == delivered(
            nodes,
            letter,
        ),
{
    let k = nodes.len() - 2;
    let ids = ids_of(nodes);
    let state = nodes_while_at(nodes, onion, k);
    let here = onion_at(onion, ids, k);
    let peers = nodes[k].messenger.peers;
    let last = nodes[k + 1];
    assert(quiet(peers));
    assert(has_peer(peers, last.id));
    lemma_quiet_not_full(peers, last.id);
    law_enqueued(peers, last.id, here, last.id);
    assert(waiting(state, k + 1) == here);
    assert(ids.skip(k + 1)[0] == ids[k + 1]);
    assert(opened(last.messenger.id, here) == Opened::Receive);
    lemma_find(peers, last.id);
    assert(drained(enqueued(peers, last.id, here)) =~= peers) by {
        assert forall|i: int| 0 <= i < peers.len() implies drained(
            enqueued(peers, last.id, here),
        )[i] == peers[i] by {
            assert(peers[i].queue == Seq::<OnionModel>::empty());
            assert(enqueued(peers, last.id, here)[i].id == peers[i].id);
        }
    }
    assert(released(state[k]) == nodes[k]);
    law_expected_and_received(last.expected);
    assert(hop_made(state, k + 1) =~= delivered(nodes, letter));
}

/// The nodes once the last one has received a letter, which it expected: it has logged it,
/// and whether it came with a reply path, if its type is the known one, and expects it
/// still if not. Everything else is as it was.
pub open spec fn delivered(nodes: Seq<NodeModel>, letter: LetterModel) -> Seq<NodeModel> {
    let last = nodes.last();
    nodes.update(
        nodes.len() - 1,
        if letter.tlv_type == 4242 {
            NodeModel {
                log: last.log.push(
                    LineModel {
                        module: "lightning::onion_message::messenger"@,
                        line: if letter.reply_path is Some {
                            "Received an onion message with path_id None and a reply_path"@
                        } else {
                            "Received an onion message with path_id None and no reply_path"@
                        },
                    },
                ),
                ..last
            }
        } else {
            NodeModel { expected: ((last.expected + 1) % 0x10000) as u16, ..last }
        },
    )
}

proof fn lemma_hops(nodes: Seq<NodeModel>, onion: OnionModel, k: nat)
    requires
        nodes.len() >= 2,
        linked(nodes),
        quiet_up_to_last(nodes),
        k < nodes.len() - 1,
    ensures
        can_pass(nodes_while_at(nodes, onion, 0), k),
        passed(nodes_while_at(nodes, onion, 0), k) == nodes_while_at(nodes, onion, k as int),
    decreases k,
{
    if k > 0 {
        lemma_hops(nodes, onion, (k - 1) as nat);
        lemma_hop(nodes, onion, k - 1);
    }
}

/// A message that is sent along a row of nodes arrives. Where each node is connected to the
/// next and nothing waits at any node but the last, the first node takes in a message for a path that leads
/// along the others, if its type is not too low and a packet holds it; passing messages
/// along the row then succeeds, the last node receives the message with its type, contents
/// and reply path, and everything else, also what waits at the last node, is as it was.
pub proof fn law_sent_message_arrives(
    nodes: Seq<NodeModel>,
    path: PathModel,
    enters_blinded: bool,
    letter: LetterModel,
)
    requires
        nodes.len() >= 2,
        linked(nodes),
        quiet_up_to_last(nodes),
        !too_few_hops(path),
        route_for(path, nodes[0].id) == Some(route_along(ids_of(nodes), enters_blinded)),
        letter.tlv_type >= MIN_CONTENTS_TYPE,
        layers_len(
            route_along(ids_of(nodes), enters_blinded),
            letter.tlv_type,
            letter.contents.len(),
            letter.reply_path,
        ) <= 32768,
        expected_contents(letter.tlv_type, letter.contents),
    ensures
        sent(nodes[0].messenger, path, letter) is Ok,
        ({
            let after = sent(nodes[0].messenger, path, letter)->Ok_0;
            let start = awaiting(nodes.update(0, with_messenger(nodes[0], after)));
            &&& can_pass(start, (nodes.len() - 1) as nat)
            &&& passed(start, (nodes.len() - 1) as nat) == delivered(nodes, letter)
        }),
{
    let ids = ids_of(nodes);
    let route = route_along(ids, enters_blinded);
    let onion = onion_for(route, letter)->0;
    let peers = nodes[0].messenger.peers;
    assert(quiet(peers));
    assert(has_peer(peers, nodes[1].id));
    lemma_quiet_not_full(peers, nodes[1].id);
    let after = sent(nodes[0].messenger, path, letter)->Ok_0;
    let start = awaiting(nodes.update(0, with_messenger(nodes[0], after)));
    assert(onion_at(onion, ids, 0) == onion);
    assert(start =~= nodes_while_at(nodes, onion, 0));
    lemma_hops(nodes, onion, (nodes.len() - 2) as nat);
    lemma_last_hop(nodes, onion, letter);
}

/// Once a message has been delivered the nodes are ready for the next one, and so is every
/// row that they begin with.
pub proof fn law_ready_again(nodes: Seq<NodeModel>, letter: LetterModel, count: int)
    requires
        nodes.len() > 0,
        linked(nodes),
        all_quiet(nodes),
        0 <= count <= nodes.len(),
    ensures
        linked(delivered(nodes, letter)),
        all_quiet(delivered(nodes, letter)),
        linked(delivered(nodes, letter).take(count)),
        all_quiet(delivered(nodes, letter).take(count)),
{
    let after = delivered(nodes, letter);
    assert forall|i: int| 0 <= i < after.len() implies (#[trigger] after[i]).messenger
        == nodes[i].messenger && after[i].id == nodes[i].id by {}
}

/// In a row of nodes each is connected to those next to it and to no other, and nothing
/// waits anywhere.
pub proof fn law_row(count: nat, i: nat, id: Seq<u8>)
    requires
        i < count,
    ensures
        linked(row(count)),
        all_quiet(row(count)),
        has_peer(row(count)[i as int].messenger.peers, id) == ((i > 0 && id == row_id(
            (i - 1) as nat,
        )) || (i + 1 < count && id == row_id(i + 1))),
{
    assert forall|j: int| 0 <= j < count implies quiet((#[trigger] row(count)[j]).messenger.peers)
        && (j + 1 < count ==> has_peer(row(count)[j].messenger.peers, row(count)[j + 1].id)) by {
        lemma_row_peers(count, j as nat, id);
    }
    lemma_row_peers(count, i, id);
}

proof fn lemma_row_peers(count: nat, i: nat, id: Seq<u8>)
    requires
        i < count,
    ensures
        quiet(row_peers(count, i)),
        i + 1 < count ==> has_peer(row_peers(count, i), row_id(i + 1)),
        has_peer(row_peers(count, i), id) == ((i > 0 && id == row_id((i - 1) as nat)) || (i + 1
            < count && id == row_id(i + 1))),
{
    let none = Seq::<PeerModel>::empty();
    let before = if i > 0 {
        connected(none, row_id((i - 1) as nat))
    } else {
        none
    };
    lemma_find(none, id);
    if i > 0 {
        law_connected(none, row_id((i - 1) as nat), id);
        lemma_quiet_connected(none, row_id((i - 1) as nat));
    }
    if i + 1 < count {
        law_connected(before, row_id(i + 1), id);
        lemma_quiet_connected(before, row_id(i + 1));
    }
}

proof fn lemma_quiet_connected(peers: Seq<PeerModel>, id: Seq<u8>)
    requires
        quiet(peers),
    ensures
        quiet(connected(peers, id)),
{
    lemma_find(peers, id);
    let after = connected(peers, id);
    assert forall|i: int| 0 <= i < after.len() implies #[trigger] after[i].queue == Seq::<
        OnionModel,
    >::empty() by {
        if i < peers.len() {
            assert(peers[i].queue == Seq::<OnionModel>::empty());
        }
    }
}

/// A message that the first node of a fresh row sends in the open through the others to the
/// last arrives there.
pub proof fn law_open_message_arrives(count: nat, letter: LetterModel)
    requires
        count >= 2,
        letter.tlv_type >= MIN_CONTENTS_TYPE,
        layers_len(
            route_along(ids_of(row(count)), false),
            letter.tlv_type,
            letter.contents.len(),
            letter.reply_path,
        ) <= 32768,
        expected_contents(letter.tlv_type, letter.contents),
    ensures
        ({
            let nodes = row(count);
            let path = open_path(ids_of(nodes));
            let after = sent(nodes[0].messenger, path, letter)->Ok_0;
            let start = awaiting(nodes.update(0, with_messenger(nodes[0], after)));
            &&& sent(nodes[0].messenger, path, letter) is Ok
            &&& can_pass(start, (count - 1) as nat)
            &&& passed(start, (count - 1) as nat) == delivered(nodes, letter)
        }),
{
    let nodes = row(count);
    law_row(count, 0, Seq::empty());
    law_open_route(ids_of(nodes));
    law_sent_message_arrives(nodes, open_path(ids_of(nodes)), false, letter);
}

/// A message that the first node of a fresh row sends along a path that is blinded from
/// place `at` on arrives at the last.
pub proof fn law_blinded_message_arrives(count: nat, at: nat, letter: LetterModel)
    requires
        at + 2 <= count,
        at == 1 ==> row_id(1) != row_id(0),
        letter.tlv_type >= MIN_CONTENTS_TYPE,
        layers_len(
            route_along(ids_of(row(count)), at > 1),
            letter.tlv_type,
            letter.contents.len(),
            letter.reply_path,
        ) <= 32768,
        expected_contents(letter.tlv_type, letter.contents),
    ensures
        ({
            let nodes = row(count);
            let path = blinded_from(ids_of(nodes), at as int);
            let after = sent(nodes[0].messenger, path, letter)->Ok_0;
            let start = awaiting(nodes.update(0, with_messenger(nodes[0], after)));
            &&& sent(nodes[0].messenger, path, letter) is Ok
            &&& can_pass(start, (count - 1) as nat)
            &&& passed(start, (count - 1) as nat) == delivered(nodes, letter)
        }),
{
    let nodes = row(count);
    law_row(count, 0, Seq::empty());
    law_blinded_route(ids_of(nodes), at as int);
    law_sent_message_arrives(nodes, blinded_from(ids_of(nodes), at as int), at > 1, letter);
}

/// A blinded path of fewer than two hops is refused, whatever else the message is.
pub proof fn law_short_blinded_path_refused(
    messenger: MessengerModel,
    path: PathModel,
    blinded: BlindedPathModel,
    letter: LetterModel,
)
    requires
        path.destination == DestinationModel::BlindedPath(blinded),
        blinded.hops.len() < 2,
    ensures
        sent(messenger, path, letter) == Err::<MessengerModel, SendError>(
            SendError::TooFewBlindedHops,
        ),
{
}

/// Contents of a type that is too low are refused, on every path that is not refused for
/// itself.
pub proof fn law_low_type_refused(
    messenger: MessengerModel,
    path: PathModel,
    letter: LetterModel,
)
    requires
        !too_few_hops(path),
        letter.tlv_type < MIN_CONTENTS_TYPE,
    ensures
        sent(messenger, path, letter) == Err::<MessengerModel, SendError>(
            SendError::InvalidMessage,
        ),
{
}

/// The bytes of a layer that names the next node.
pub open spec fn forward_layer_len() -> nat {
    86
}

proof fn lemma_forward_layers(hops: Seq<HopModel>)
    requires
        forall|i: int| 0 <= i < hops.len() ==> (#[trigger] hops[i]).next is Some,
    ensures
        forward_layers_len(hops) == forward_layer_len() * hops.len(),
    decreases hops.len(),
{
    if hops.len() > 0 {
        assert forall|i: int| 0 <= i < hops.drop_last().len() implies (
        #[trigger] hops.drop_last()[i]).next is Some by {
            assert(hops[i].next is Some);
        }
        lemma_forward_layers(hops.drop_last());
        assert(hops.last() == hops[hops.len() - 1]);
        assert(hops[hops.len() - 1].next is Some);
    }
}

/// On a route along nodes every node before the last adds the same to the length of the
/// layers.
pub proof fn law_layers_len(
    ids: Seq<Seq<u8>>,
    tlv_type: u64,
    contents_len: nat,
    reply_path: Option<BlindedPathModel>,
)
    requires
        ids.len() >= 2,
    ensures
        layers_len(route_along(ids, false), tlv_type, contents_len, reply_path)
            == forward_layer_len() * (ids.len() - 2) + final_layer_len(
            HopModel { recipient: ids.last(), next: None },
            tlv_type,
            contents_len,
            reply_path,
        ),
{
    let hops = hops_along(ids.skip(1));
    lemma_forward_layers(hops.drop_last());
    assert(hops.last() == HopModel { recipient: ids.last(), next: None });
}

/// A path in the open through so many nodes that their layers alone fit in no packet is
/// refused.
pub proof fn law_too_long_path_refused(
    messenger: MessengerModel,
    ids: Seq<Seq<u8>>,
    letter: LetterModel,
)
    requires
        ids.len() >= 2,
        messenger.id == ids[0],
        letter.tlv_type >= MIN_CONTENTS_TYPE,
        forward_layer_len() * (ids.len() - 2) > BIG_PACKET_HOP_DATA_LEN,
    ensures
        sent(messenger, open_path(ids), letter) == Err::<MessengerModel, SendError>(
            SendError::TooBigPacket,
        ),
{
    law_open_route(ids);
    law_layers_len(ids, letter.tlv_type, letter.contents.len(), letter.reply_path);
}

/// How many small packets wait for a peer when its buffer counts as full.
pub open spec fn small_packets_per_peer() -> nat {
    188
}

/// Whether every packet in a queue is a small one.
pub open spec fn all_small(queue: Seq<OnionModel>) -> bool {
    forall|i: int| 0 <= i < queue.len() ==> (#[trigger] queue[i]).packet_size == PacketSize::Small
}

proof fn lemma_small_bytes(queue: Seq<OnionModel>)
    requires
        all_small(queue),
    ensures
        queue_bytes(queue) == 1401 * queue.len(),
    decreases queue.len(),
{
    if queue.len() > 0 {
        assert forall|i: int| 0 <= i < queue.drop_last().len() implies (
        #[trigger] queue.drop_last()[i]).packet_size == PacketSize::Small by {
            assert(queue[i].packet_size == PacketSize::Small);
        }
        lemma_small_bytes(queue.drop_last());
        assert(queue[queue.len() - 1].packet_size == PacketSize::Small);
    }
}

/// A peer for which only small packets wait is sent to until a fixed number of them do, and
/// from then on refused, until they are released.
pub proof fn law_peer_buffer_full(
    messenger: MessengerModel,
    path: PathModel,
    letter: LetterModel,
    route: RouteModel,
)
    requires
        !too_few_hops(path),
        letter.tlv_type >= MIN_CONTENTS_TYPE,
        route_for(path, messenger.id) == Some(route),
        layers_len(route, letter.tlv_type, letter.contents.len(), letter.reply_path) <= 32768,
        has_peer(messenger.peers, route.first),
        all_small(queue_of(messenger.peers, route.first)),
        total_bytes(messenger.peers) < MAX_TOTAL_BUFFER_SIZE,
    ensures
        queue_of(messenger.peers, route.first).len() < small_packets_per_peer() ==> sent(
            messenger,
            path,
            letter,
        ) is Ok,
        queue_of(messenger.peers, route.first).len() >= small_packets_per_peer() ==> sent(
            messenger,
            path,
            letter,
        ) == Err::<MessengerModel, SendError>(SendError::BufferFull),
{
    lemma_small_bytes(queue_of(messenger.peers, route.first));
}

/// What a messenger takes in waits for the first node of the route, behind what waited for
/// it before: the layers of the route, and the message and its reply path as they were
/// handed over, on every route.
pub proof fn law_sent_is_released(
    messenger: MessengerModel,
    path: PathModel,
    letter: LetterModel,
    after: MessengerModel,
    other: Seq<u8>,
)
    requires
        sent(messenger, path, letter) == Ok::<MessengerModel, SendError>(after),
    ensures
        ({
            let route = route_for(path, messenger.id)->0;
            &&& after.id == messenger.id
            &&& has_peer(messenger.peers, route.first)
            &&& queue_of(after.peers, route.first) == queue_of(messenger.peers, route.first).push(
                OnionModel {
                    hops: route.hops,
                    tlv_type: letter.tlv_type,
                    contents: letter.contents,
                    reply_path: letter.reply_path,
                    packet_size: if layers_len(
                        route,
                        letter.tlv_type,
                        letter.contents.len(),
                        letter.reply_path,
                    ) <= 1300 {
                        PacketSize::Small
                    } else {
                        PacketSize::Big
                    },
                },
            )
            &&& has_peer(after.peers, other) == has_peer(messenger.peers, other)
            &&& other != route.first && has_peer(messenger.peers, other) ==> queue_of(
                after.peers,
                other,
            ) == queue_of(messenger.peers, other)
        }),
{
    let route = route_for(path, messenger.id)->0;
    law_enqueued(messenger.peers, route.first, onion_for(route, letter)->0, other);
}

/// The most bytes that a message can take.
pub open spec fn max_message_len() -> nat {
    32869
}

/// Whether what waits is bounded: for each peer, and for all together.
pub open spec fn bounded(peers: Seq<PeerModel>) -> bool {
    &&& total_bytes(peers) < MAX_TOTAL_BUFFER_SIZE + max_message_len()
    &&& forall|i: int|
        0 <= i < peers.len() ==> queue_bytes((#[trigger] peers[i]).queue)
            < MAX_PER_PEER_BUFFER_SIZE + max_message_len()
}

proof fn lemma_total_update(peers: Seq<PeerModel>, at: int, peer: PeerModel)
    requires
        0 <= at < peers.len(),
    ensures
        total_bytes(peers.update(at, peer)) == total_bytes(peers) - queue_bytes(peers[at].queue)
            + queue_bytes(peer.queue),
    decreases peers.len(),
{
    let after = peers.update(at, peer);
    if at < peers.len() - 1 {
        lemma_total_update(peers.drop_last(), at, peer);
        assert(after.drop_last() =~= peers.drop_last().update(at, peer));
    } else {
        assert(after.drop_last() =~= peers.drop_last());
    }
}

proof fn lemma_enqueued_bounded(peers: Seq<PeerModel>, id: Seq<u8>, message: OnionModel)
    requires
        bounded(peers),
        has_peer(peers, id),
        !buffer_full(peers, id),
    ensures
        bounded(enqueued(peers, id, message)),
{
    lemma_find(peers, id);
    let at = find(peers, id);
    let peer = PeerModel { id, queue: queue_of(peers, id).push(message) };
    assert(peer.queue.drop_last() =~= queue_of(peers, id));
    lemma_total_update(peers, at, peer);
    let after = enqueued(peers, id, message);
    assert forall|i: int| 0 <= i < after.len() implies queue_bytes((#[trigger] after[i]).queue)
        < MAX_PER_PEER_BUFFER_SIZE + max_message_len() by {
        assert(queue_bytes(peers[i].queue) < MAX_PER_PEER_BUFFER_SIZE + max_message_len());
    }
}

/// Whatever a messenger does, what waits stays bounded: sending, receiving, connecting and
/// releasing all keep the bounds.
pub proof fn law_buffers_bounded(
    messenger: MessengerModel,
    path: PathModel,
    letter: LetterModel,
    onion: OnionModel,
    id: Seq<u8>,
)
    requires
        bounded(messenger.peers),
    ensures
        sent(messenger, path, letter) matches Ok(after) ==> bounded(after.peers),
        bounded(passed_on(messenger, onion).peers),
        bounded(connected(messenger.peers, id)),
        bounded(drained(messenger.peers)),
{
    let peers = messenger.peers;
    if sent(messenger, path, letter) is Ok {
        let route = route_for(path, messenger.id)->0;
        lemma_enqueued_bounded(peers, route.first, onion_for(route, letter)->0);
    }
    if let Opened::Forward(next) = opened(messenger.id, onion) {
        if !buffer_full(peers, next) && has_peer(peers, next) {
            lemma_enqueued_bounded(peers, next, peeled(onion));
        }
    }
    lemma_find(peers, id);
    let after = connected(peers, id);
    if has_peer(peers, id) {
        lemma_total_update(peers, find(peers, id), idle(id));
    } else {
        assert(after.drop_last() =~= peers);
    }
    assert forall|i: int| 0 <= i < after.len() implies queue_bytes((#[trigger] after[i]).queue)
        < MAX_PER_PEER_BUFFER_SIZE + max_message_len() by {
        if i < peers.len() {
            assert(queue_bytes(peers[i].queue) < MAX_PER_PEER_BUFFER_SIZE + max_message_len());
        }
    }
    law_released(peers, id);
    lemma_quiet_total(drained(peers));
}

/// The log of a node that takes a message in tells whether it came with a reply path: one
/// line more says so if it did, and none if it did not.
pub proof fn law_reply_path_shows_in_log(lines: Seq<LineModel>, onion: OnionModel)
    ensures
        count_matches(
            lines.push(received_line(onion)),
            log_module(),
            "Received an onion message with path_id None and a reply_path"@,
        ) == count_matches(
            lines,
            log_module(),
            "Received an onion message with path_id None and a reply_path"@,
        ) + (if onion.reply_path is Some {
            1nat
        } else {
            0nat
        }),
{
    let with = "Received an onion message with path_id None and a reply_path"@;
    let without = "Received an onion message with path_id None and no reply_path"@;
    assert(lines.push(received_line(onion)).drop_last() =~= lines);
    assert(stands_at(with, with, 0)) by {
        assert(with.subrange(0, with.len() as int) =~= with);
    }
    assert(!contains_text(without, with)) by {
        reveal_strlit("Received an onion message with path_id None and a reply_path");
        reveal_strlit("Received an onion message with path_id None and no reply_path");
        assert forall|at: int| !stands_at(without, with, at) by {
            if stands_at(without, with, at) {
                let part = without.subrange(at, at + with.len());
                assert(at == 0 || at == 1);
                assert(part[0] == without[at]);
                assert(part[48] == without[at + 48]);
            }
        }
    }
}

} // verus!
