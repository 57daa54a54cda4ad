//! A row of nodes, each connected to the next, and messages that travel along it.
use vstd::prelude::*;
use vstd::string::StringExecFns;

use crate::buffers::{connected, drained, has_peer, queue_of, PeerModel};
use crate::custom::{count_down, count_up, TestCustomMessageHandler};
use crate::features::{flag_set, Init, InitFeatures, ONION_MESSAGES_OPTIONAL};
use crate::keys::{node_key_of_seed, Network, PublicKey, TestKeysInterface};
use crate::logger::{LineModel, TestLogger};
use crate::messenger::{
    passed_on, readable, received_line, taken_in, MessengerModel, OnionMessenger,
};
use crate::packet::{OnionMessage, OnionModel};

verus! {

/// A node: its keys, its messenger, and what the messenger hands messages and log lines to.
#[derive(Debug)]
pub struct MessengerNode {
    pub keys_manager: TestKeysInterface,
    pub messenger: OnionMessenger,
    pub custom_message_handler: TestCustomMessageHandler,
    pub logger: TestLogger,
}

/// What a [`MessengerNode`] holds.
#[verifier::ext_equal]
pub struct NodeModel {
    /// The node's public key.
    pub id: Seq<u8>,
    pub messenger: MessengerModel,
    /// How many messages the node is still to receive.
    pub expected: u16,
    /// The name under which the node logs.
    pub label: Seq<char>,
    pub log: Seq<LineModel>,
}

impl View for MessengerNode {
    type V = NodeModel;

    open spec fn view(&self) -> NodeModel {
        NodeModel {
            id: self.keys_manager.spec_node_id(),
            messenger: self.messenger@,
            expected: self.custom_message_handler@,
            label: self.logger.spec_id(),
            log: self.logger.spec_lines(),
        }
    }
}

/// What each node holds.
pub open spec fn node_seq(nodes: Seq<MessengerNode>) -> Seq<NodeModel> {
    Seq::new(nodes.len(), |i: int| nodes[i]@)
}

/// The node once an onion has arrived at it.
pub open spec fn arrived(node: NodeModel, onion: OnionModel) -> NodeModel {
    if taken_in(node.messenger.id, onion) {
        NodeModel {
            messenger: passed_on(node.messenger, onion),
            expected: count_down(node.expected),
            log: node.log.push(received_line(onion)),
            ..node
        }
    } else {
        NodeModel { messenger: passed_on(node.messenger, onion), ..node }
    }
}

/// The node once its messenger has handed out all that waited.
pub open spec fn released(node: NodeModel) -> NodeModel {
    NodeModel {
        messenger: MessengerModel {
            id: node.messenger.id,
            peers: drained(node.messenger.peers),
        },
        ..node
    }
}

impl MessengerNode {
    /// The node's public key.
    pub fn get_node_pk(&self) -> (id: PublicKey)
        ensures
            id@ == self@.id,
    {
        self.keys_manager.get_node_id()
    }

    /// An onion has arrived from the peer `from`.
    fn receive(&mut self, from: &PublicKey, onion: &OnionMessage)
        requires
            readable(old(self)@.messenger.id, onion@),
        ensures
            final(self)@ == arrived(old(self)@, onion@),
    {
        self.messenger.handle_onion_message(
            from,
            onion,
            &mut self.custom_message_handler,
            &mut self.logger,
        );
    }
}

/// The character of a decimal digit.
pub open spec fn digit(d: nat) -> char {
    (48 + d) as char
}

/// A number in decimal digits.
pub open spec fn decimal(n: nat) -> Seq<char>
    decreases n,
{
    if n < 10 {
        seq![digit(n)]
    } else {
        decimal(n / 10).push(digit(n % 10))
    }
}

fn digit_text(d: u8) -> (text: &'static str)
    requires
        d < 10,
    ensures
        text@ == seq![digit(d as nat)],
{
    proof {
        reveal_strlit("0");
        reveal_strlit("1");
        reveal_strlit("2");
        reveal_strlit("3");
        reveal_strlit("4");
        reveal_strlit("5");
        reveal_strlit("6");
        reveal_strlit("7");
        reveal_strlit("8");
        reveal_strlit("9");
    }
    let text = match d {
        0 => "0",
        1 => "1",
        2 => "2",
        3 => "3",
        4 => "4",
        5 => "5",
        6 => "6",
        7 => "7",
        8 => "8",
        _ => "9",
    };
    assert(text@ =~= seq![digit(d as nat)]);
    text
}

/// Appends a number in decimal digits.
fn append_decimal(text: &mut String, n: u8)
    ensures
        final(text)@ == old(text)@ + decimal(n as nat),
    decreases n,
{
    let ghost before = text@;
    if n >= 10 {
        append_decimal(text, n / 10);
        text.append(digit_text(n % 10));
        assert(text@ =~= before + decimal((n / 10) as nat).push(digit((n % 10) as nat)));
    } else {
        text.append(digit_text(n));
    }
}

/// The name of the node at place `i`.
pub open spec fn node_label(i: nat) -> Seq<char> {
    "node "@ + decimal(i)
}

/// The seed of the node at place `i`.
pub open spec fn node_seed(i: nat) -> Seq<u8> {
    Seq::new(32, |j: int| i as u8)
}

/// Whether the seeds of the first `count` nodes all give keys.
pub open spec fn keys_exist(count: nat) -> bool {
    forall|i: nat| i < count ==> node_key_of_seed(#[trigger] node_seed(i)) is Some
}

/// The key of the node at place `i`.
pub open spec fn row_id(i: nat) -> Seq<u8> {
    node_key_of_seed(node_seed(i))->0
}

/// The peers of the node at place `i` in a row of `count`: the node before it and the node
/// after it, as far as there are such, with nothing waiting for them.
pub open spec fn row_peers(count: nat, i: nat) -> Seq<PeerModel> {
    let before = if i > 0 {
        connected(Seq::empty(), row_id((i - 1) as nat))
    } else {
        Seq::empty()
    };
    if i + 1 < count {
        connected(before, row_id(i + 1))
    } else {
        before
    }
}

/// The peers of the node at place `i` while the row is being connected, up to place `last`.
spec fn row_peers_up_to(last: nat, i: nat) -> Seq<PeerModel> {
    if i <= last {
        row_peers(last + 1, i)
    } else {
        Seq::empty()
    }
}

/// The node at place `i`, with the peers `peers`, that has neither sent nor received.
pub open spec fn fresh_node(i: nat, peers: Seq<PeerModel>) -> NodeModel {
    NodeModel {
        id: row_id(i),
        messenger: MessengerModel { id: row_id(i), peers },
        expected: 0,
        label: node_label(i),
        log: Seq::empty(),
    }
}

/// A row of `count` nodes, each connected to the next.
pub open spec fn row(count: nat) -> Seq<NodeModel> {
    Seq::new(count, |i: int| fresh_node(i as nat, row_peers(count, i as nat)))
}

/// The keys of the node at place `i`, if its seed gives any.
fn keys_of_place(i: u8) -> (keys: Option<TestKeysInterface>)
    ensures
        match keys {
            Some(keys) => node_key_of_seed(node_seed(i as nat)) == Some(keys.spec_node_id()),
            None => node_key_of_seed(node_seed(i as nat)) is None,
        },
{
    let seed: [u8; 32] = [i; 32];
    assert(seed@ =~= node_seed(i as nat));
    match TestKeysInterface::new(&seed, Network::Testnet) {
        Ok(keys) => Some(keys),
        Err(_) => None,
    }
}

/// A row of `num_messengers` nodes, each connected to the next.
pub fn create_nodes(num_messengers: u8) -> (nodes: Vec<MessengerNode>)
    requires
        num_messengers > 0,
        keys_exist(num_messengers as nat),
    ensures
        node_seq(nodes@) == row(num_messengers as nat),
{
    let mut nodes: Vec<MessengerNode> = Vec::new();
    let mut i: u8 = 0;
    while i < num_messengers
        invariant
            i <= num_messengers,
            keys_exist(num_messengers as nat),
            nodes@.len() == i,
            forall|j: int|
                0 <= j < i ==> #[trigger] nodes@[j]@ == fresh_node(j as nat, Seq::empty()),
        decreases num_messengers - i,
    {
        let mut label = String::from_str("node ");
        append_decimal(&mut label, i);
        assert(node_key_of_seed(node_seed(i as nat)) is Some);
        let keys_manager = keys_of_place(i).unwrap();
        let messenger = OnionMessenger::new(&keys_manager);
        let node = MessengerNode {
            keys_manager,
            messenger,
            custom_message_handler: TestCustomMessageHandler::new(),
            logger: TestLogger::with_id(label),
        };
        assert(node@ == fresh_node(i as nat, Seq::empty()));
        nodes.push(node);
        i = i + 1;
    }
    let mut features = InitFeatures::empty();
    features.set_onion_messages_optional();
    let init = Init { features };
    let mut idx: usize = 0;
    while idx < num_messengers as usize - 1
        invariant
            idx < num_messengers,
            nodes@.len() == num_messengers,
            flag_set(init.features@, ONION_MESSAGES_OPTIONAL as int),
            forall|j: int|
                0 <= j < num_messengers ==> #[trigger] nodes@[j]@ == fresh_node(
                    j as nat,
                    row_peers_up_to(idx as nat, j as nat),
                ),
        decreases num_messengers - idx,
    {
        let this_pk = nodes[idx].get_node_pk();
        let next_pk = nodes[idx + 1].get_node_pk();
        let _ = nodes[idx].messenger.peer_connected(&next_pk, &init, true);
        let _ = nodes[idx + 1].messenger.peer_connected(&this_pk, &init, false);
        assert(nodes@[idx as int]@ =~= fresh_node(
            idx as nat,
            row_peers_up_to((idx + 1) as nat, idx as nat),
        ));
        assert(nodes@[idx + 1]@ =~= fresh_node(
            (idx + 1) as nat,
            row_peers_up_to((idx + 1) as nat, (idx + 1) as nat),
        ));
        idx = idx + 1;
    }
    assert(node_seq(nodes@) =~= row(num_messengers as nat));
    nodes
}

/// A row of `num_messengers` nodes, each connected to the next, if all their seeds give
/// keys.
pub fn try_create_nodes(num_messengers: u8) -> (nodes: Option<Vec<MessengerNode>>)
    requires
        num_messengers > 0,
    ensures
        match nodes {
            Some(nodes) => keys_exist(num_messengers as nat) && node_seq(nodes@) == row(
                num_messengers as nat,
            ),
            None => !keys_exist(num_messengers as nat),
        },
{
    let mut i: u8 = 0;
    while i < num_messengers
        invariant
            i <= num_messengers,
            keys_exist(i as nat),
        decreases num_messengers - i,
    {
        if keys_of_place(i).is_none() {
            return None;
        }
        i = i + 1;
    }
    Some(create_nodes(num_messengers))
}

/// The nodes once the last one expects a message more.
pub open spec fn awaiting(nodes: Seq<NodeModel>) -> Seq<NodeModel> {
    let last = nodes.last();
    nodes.update(
        nodes.len() - 1,
        NodeModel { expected: count_up(last.expected), ..last },
    )
}

/// The one message that waits at the node before place `i` for the node there.
pub open spec fn waiting(nodes: Seq<NodeModel>, i: int) -> OnionModel {
    queue_of(nodes[i - 1].messenger.peers, nodes[i].id)[0]
}

/// Whether exactly one message waits at the node before place `i` for the node there, and
/// that node can read it.
pub open spec fn hop_ready(nodes: Seq<NodeModel>, i: int) -> bool {
    &&& has_peer(nodes[i - 1].messenger.peers, nodes[i].id)
    &&& queue_of(nodes[i - 1].messenger.peers, nodes[i].id).len() == 1
    &&& readable(nodes[i].messenger.id, waiting(nodes, i))
}

/// The nodes once the one before place `i` has released what waited, and the message for
/// the node at place `i` has arrived there.
pub open spec fn hop_made(nodes: Seq<NodeModel>, i: int) -> Seq<NodeModel> {
    nodes.update(i - 1, released(nodes[i - 1])).update(i, arrived(nodes[i], waiting(nodes, i)))
}

/// The nodes once a message has made the first `hops` hops.
pub open spec fn passed(nodes: Seq<NodeModel>, hops: nat) -> Seq<NodeModel>
    decreases hops,
{
    if hops == 0 {
        nodes
    } else {
        hop_made(passed(nodes, (hops - 1) as nat), hops as int)
    }
}

/// Whether a message can make the first `hops` hops: before each, exactly one waits.
pub open spec fn can_pass(nodes: Seq<NodeModel>, hops: nat) -> bool
    decreases hops,
{
    hops == 0 || {
        &&& can_pass(nodes, (hops - 1) as nat)
        &&& hop_ready(passed(nodes, (hops - 1) as nat), hops as int)
    }
}

/// Passes the one message that waits at the first node along the row, from each node to the
/// next, and has the last node expect it.
pub fn pass_along_path(path: &mut Vec<MessengerNode>)
    requires
        old(path)@.len() > 0,
        can_pass(awaiting(node_seq(old(path)@)), (old(path)@.len() - 1) as nat),
    ensures
        node_seq(final(path)@) == passed(
            awaiting(node_seq(old(path)@)),
            (old(path)@.len() - 1) as nat,
        ),
        final(path)@.len() == old(path)@.len(),
{
    let ghost start = awaiting(node_seq(path@));
    let len = path.len();
    path[len - 1].custom_message_handler.expect_message();
    assert(node_seq(path@) =~= start);
    let mut i: usize = 1;
    while i < len
        invariant
            1 <= i <= len,
            len == path@.len(),
            can_pass(start, (len - 1) as nat),
            node_seq(path@) == passed(start, (i - 1) as nat),
        decreases len - i,
    {
        proof {
            lemma_can_pass(start, i as nat, (len - 1) as nat);
        }
        let ghost before = node_seq(path@);
        let prev_pk = path[i - 1].get_node_pk();
        let node_pk = path[i].get_node_pk();
        let events = path[i - 1].messenger.release_pending_msgs();
        let msgs = events.get(&node_pk).unwrap();
        path[i].receive(&prev_pk, &msgs[0]);
        assert(node_seq(path@) =~= hop_made(before, i as int));
        i = i + 1;
    }
}

/// A message that can make some hops can make fewer.
proof fn lemma_can_pass(nodes: Seq<NodeModel>, fewer: nat, hops: nat)
    requires
        fewer <= hops,
        can_pass(nodes, hops),
    ensures
        can_pass(nodes, fewer),
    decreases hops,
{
    if fewer < hops {
        lemma_can_pass(nodes, fewer, (hops - 1) as nat);
    }
}

} // verus!
