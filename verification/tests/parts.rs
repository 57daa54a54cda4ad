//! The parts that the network is made of, and what holds of them.
use bitcoin::secp256k1::Secp256k1;
use bitcoin::util::bip32::ExtendedPrivKey;
use onion_harness::buffers::PendingMessages;
use onion_harness::custom::{
    has_expected_contents, CustomOnionMessageContents, OnionMessageContents, TestCustomMessage,
    TestCustomMessageHandler, CUSTOM_MESSAGE_CONTENTS, CUSTOM_MESSAGE_TYPE,
};
use onion_harness::features::{Init, InitFeatures};
use onion_harness::keys::{same_key, Network, PublicKey, TestKeysInterface};
use onion_harness::logger::TestLogger;
use onion_harness::messenger::{OnionMessenger, SendError};
use onion_harness::nodes::{
    create_nodes, pass_along_path, try_create_nodes, MessengerNode,
};
use onion_harness::packet::{choose_packet_size, OnionMessage, PacketSize};
use onion_harness::path::{
    copy_hops, plan_route, BlindedPath, Destination, Hop, OnionMessagePath, Route,
};

const LOG_MODULE: &str = "lightning::onion_message::messenger";

/// Contents of any type and any bytes.
struct RawMessage {
    tlv_type: u64,
    contents: Vec<u8>,
}

impl CustomOnionMessageContents for RawMessage {
    fn tlv_type(&self) -> u64 {
        self.tlv_type
    }

    fn write(&self, w: &mut Vec<u8>) {
        w.extend_from_slice(&self.contents);
    }
}

fn raw(tlv_type: u64, len: usize) -> OnionMessageContents<RawMessage> {
    OnionMessageContents::Custom(RawMessage { tlv_type, contents: vec![7; len] })
}

fn test_message() -> OnionMessageContents<TestCustomMessage> {
    OnionMessageContents::Custom(TestCustomMessage {})
}

fn key(n: u16) -> PublicKey {
    let mut bytes = [2; 33];
    bytes[31] = (n >> 8) as u8;
    bytes[32] = (n & 255) as u8;
    PublicKey { bytes }
}

fn to_node(nodes: Vec<PublicKey>, last: PublicKey) -> OnionMessagePath {
    OnionMessagePath { intermediate_nodes: nodes, destination: Destination::Node(last) }
}

fn to_blinded(nodes: Vec<PublicKey>, path: BlindedPath) -> OnionMessagePath {
    OnionMessagePath { intermediate_nodes: nodes, destination: Destination::BlindedPath(path) }
}

fn announcing() -> Init {
    let mut features = InitFeatures::empty();
    features.set_onion_messages_optional();
    Init { features }
}

fn onion(hops: Vec<Hop>) -> OnionMessage {
    OnionMessage {
        hops,
        tlv_type: CUSTOM_MESSAGE_TYPE,
        contents: CUSTOM_MESSAGE_CONTENTS.to_vec(),
        reply_path: None,
        packet_size: PacketSize::Small,
    }
}

/// Hands an onion to a node, as if its peer `from` had sent it.
fn hand_over(node: &mut MessengerNode, from: &PublicKey, onion: &OnionMessage) {
    node.messenger.handle_onion_message(
        from,
        onion,
        &mut node.custom_message_handler,
        &mut node.logger,
    );
}

fn waiting_for(node: &mut MessengerNode, peer: &PublicKey) -> Vec<usize> {
    let released = node.messenger.release_pending_msgs();
    let lens = released.get(peer).unwrap().iter().map(|m| m.contents.len()).collect();
    lens
}

#[test]
fn keys_come_from_seeds() {
    let secp_ctx = Secp256k1::new();
    for i in 0..4u8 {
        let seed = [i; 32];
        let master = ExtendedPrivKey::new_master(bitcoin::Network::Testnet, &seed).unwrap();
        let expected = master.private_key.public_key(&secp_ctx).serialize();
        let keys = TestKeysInterface::new(&seed, Network::Testnet).unwrap();
        assert_eq!(keys.get_node_id().bytes, expected);
        assert_ne!(keys.get_node_id().bytes[1..], seed[..]);
        for network in [Network::Bitcoin, Network::Signet, Network::Regtest] {
            let keys = TestKeysInterface::new(&seed, network).unwrap();
            assert_eq!(keys.get_node_id().bytes, expected);
        }
    }
}

#[test]
fn keys_compare_by_their_bytes() {
    assert!(same_key(&key(3), &key(3)));
    assert!(!same_key(&key(3), &key(4)));
    assert!(!same_key(&key(3), &key(259)));
}

#[test]
fn a_row_connects_neighbours_and_no_others() {
    let mut nodes = create_nodes(12);
    for i in 0..12 {
        assert_eq!(nodes[i].logger.id(), format!("node {}", i));
        assert_eq!(nodes[i].custom_message_handler.num_messages_expected, 0);
        let released = nodes[i].messenger.release_pending_msgs();
        for j in 0..12 {
            let peer = released.get(&nodes[j].get_node_pk());
            assert_eq!(peer.is_some(), i == j + 1 || j == i + 1);
            if let Some(messages) = peer {
                assert!(messages.is_empty());
            }
        }
    }
}

#[test]
fn a_row_is_made_where_all_seeds_give_keys() {
    let mut nodes = try_create_nodes(3).unwrap();
    assert_eq!(nodes.len(), 3);
    let path = to_node(vec![nodes[1].get_node_pk()], nodes[2].get_node_pk());
    nodes[0].messenger.send_onion_message(path, test_message(), None).unwrap();
    pass_along_path(&mut nodes);
    assert!(nodes[2].custom_message_handler.may_drop(false));
}

#[test]
fn a_row_of_one_passes_nothing() {
    let mut nodes = create_nodes(1);
    pass_along_path(&mut nodes);
    assert_eq!(nodes[0].custom_message_handler.num_messages_expected, 1);
    assert!(!nodes[0].custom_message_handler.may_drop(false));
}

#[test]
fn features_hold_the_bit_that_was_set() {
    let mut features = InitFeatures::empty();
    assert!(!features.supports_onion_messages());
    features.set_onion_messages_optional();
    assert!(features.supports_onion_messages());
}

#[test]
fn a_peer_without_the_feature_is_not_remembered() {
    let keys = TestKeysInterface::new(&[9; 32], Network::Testnet).unwrap();
    let mut messenger = OnionMessenger::new(&keys);
    let silent = Init { features: InitFeatures::empty() };
    assert_eq!(messenger.peer_connected(&key(1), &silent, true), Ok(()));
    assert!(messenger.release_pending_msgs().get(&key(1)).is_none());
    assert_eq!(messenger.peer_connected(&key(1), &announcing(), false), Ok(()));
    assert!(messenger.release_pending_msgs().get(&key(1)).is_some());
}

#[test]
fn a_handler_counts_down() {
    let mut handler = TestCustomMessageHandler::new();
    assert!(handler.may_drop(false));
    handler.expect_message();
    handler.expect_message();
    handler.handle_custom_message(TestCustomMessage {});
    assert_eq!(handler.num_messages_expected, 1);
    assert!(!handler.may_drop(false));
    assert!(handler.may_drop(true));
    handler.handle_custom_message(TestCustomMessage {});
    assert!(handler.may_drop(false));
    handler.handle_custom_message(TestCustomMessage {});
    assert_eq!(handler.num_messages_expected, 65535);
    handler.expect_message();
    assert_eq!(handler.num_messages_expected, 0);
}

#[test]
fn what_is_written_is_read() {
    let handler = TestCustomMessageHandler::new();
    let message = TestCustomMessage {};
    let mut bytes = vec![1];
    message.write(&mut bytes);
    assert_eq!(bytes.len(), 33);
    assert_eq!(bytes[1..], [42; 32]);
    assert_eq!(message.tlv_type(), 4242);
    assert!(has_expected_contents(4242, &bytes[1..]));
    assert_eq!(handler.read_custom_message(4242, &bytes[1..]), Ok(Some(message)));
}

#[test]
fn other_types_are_left_alone() {
    let handler = TestCustomMessageHandler::new();
    assert!(has_expected_contents(4241, &[1, 2, 3]));
    assert_eq!(handler.read_custom_message(4241, &[1, 2, 3]), Ok(None));
    assert!(!has_expected_contents(4242, &[42; 31]));
    let mut other = [42; 32];
    other[31] = 41;
    assert!(!has_expected_contents(4242, &other));
}

#[test]
fn a_log_counts_its_lines() {
    let mut logger = TestLogger::with_id(String::from("a"));
    assert_eq!(logger.count_log_lines("m", ""), 0);
    logger.log("m", "one two");
    logger.log("m", "two three");
    logger.log("n", "two");
    assert_eq!(logger.count_log_lines("m", "two"), 2);
    assert_eq!(logger.count_log_lines("m", "one"), 1);
    assert_eq!(logger.count_log_lines("m", "one two three"), 0);
    assert_eq!(logger.count_log_lines("n", ""), 1);
    assert_eq!(logger.count_log_lines("mm", "two"), 0);
}

#[test]
fn a_blinded_path_names_each_next_node() {
    assert_eq!(BlindedPath::new_for_message(&[]), Err(()));
    let path = BlindedPath::new_for_message(&[key(1), key(2), key(3)]).unwrap();
    assert_eq!(path.introduction_node_id, key(1));
    assert_eq!(
        path.blinded_hops,
        vec![
            Hop { recipient: key(1), next_node_id: Some(key(2)) },
            Hop { recipient: key(2), next_node_id: Some(key(3)) },
            Hop { recipient: key(3), next_node_id: None },
        ]
    );
    assert_eq!(path.clone(), path);
    assert_eq!(copy_hops(&path.blinded_hops, 2), path.blinded_hops[2..].to_vec());
}

#[test]
fn paths_in_the_open_and_blinded_lead_along_the_same_nodes() {
    let open = plan_route(to_node(vec![key(1), key(2)], key(3)), &key(0)).unwrap();
    assert_eq!(open.first_node, key(1));
    assert!(!open.enters_blinded_path);
    assert_eq!(open.hops.len(), 3);

    let ids = [key(0), key(1), key(2), key(3)];
    for at in 0..3 {
        let blinded = BlindedPath::new_for_message(&ids[at..]).unwrap();
        let nodes = if at > 0 { ids[1..at].to_vec() } else { vec![] };
        let route = plan_route(to_blinded(nodes, blinded), &key(0)).unwrap();
        assert_eq!(route.first_node, open.first_node);
        assert_eq!(route.hops, open.hops);
        assert_eq!(route.enters_blinded_path, at > 1);
    }
}

#[test]
fn a_sender_that_cannot_open_its_own_hop_is_refused() {
    let mut nodes = create_nodes(3);
    let us = nodes[0].get_node_pk();
    let mut path = BlindedPath::new_for_message(&[
        nodes[1].get_node_pk(),
        nodes[2].get_node_pk(),
    ])
    .unwrap();
    path.introduction_node_id = us;
    let refused = nodes[0].messenger.send_onion_message(to_blinded(vec![], path), test_message(), None);
    assert_eq!(refused, Err(SendError::BlindedPathAdvanceFailed));

    let mut path = BlindedPath::new_for_message(&[us, nodes[1].get_node_pk()]).unwrap();
    path.blinded_hops[0].next_node_id = None;
    let refused = nodes[0].messenger.send_onion_message(to_blinded(vec![], path), test_message(), None);
    assert_eq!(refused, Err(SendError::BlindedPathAdvanceFailed));
}

#[test]
fn a_first_node_that_is_no_peer_is_refused() {
    let mut nodes = create_nodes(3);
    let far = nodes[2].get_node_pk();
    let refused = nodes[0].messenger.send_onion_message(to_node(vec![], far), test_message(), None);
    assert_eq!(refused, Err(SendError::InvalidFirstHop));
}

#[test]
fn the_lowest_type_is_taken_in() {
    let mut nodes = create_nodes(2);
    let peer = nodes[1].get_node_pk();
    let path = to_node(vec![], peer);
    assert_eq!(
        nodes[0].messenger.send_onion_message(path.clone(), raw(63, 1), None),
        Err(SendError::InvalidMessage)
    );
    assert_eq!(nodes[0].messenger.send_onion_message(path, raw(64, 1), None), Ok(()));
}

#[test]
fn the_longest_path_that_fits_is_taken_in() {
    let mut nodes = create_nodes(2);
    let peer = nodes[1].get_node_pk();
    let path = to_node(vec![peer; 380], peer);
    assert_eq!(nodes[0].messenger.send_onion_message(path, test_message(), None), Ok(()));
    let path = to_node(vec![peer; 381], peer);
    assert_eq!(
        nodes[0].messenger.send_onion_message(path, test_message(), None),
        Err(SendError::TooBigPacket)
    );
}

fn route_of(count: u16, enters_blinded_path: bool) -> Route {
    let mut hops = vec![];
    for i in 1..count {
        hops.push(Hop { recipient: key(i), next_node_id: Some(key(i + 1)) });
    }
    hops.push(Hop { recipient: key(count), next_node_id: None });
    Route { first_node: key(1), hops, enters_blinded_path }
}

#[test]
fn layers_take_as_many_bytes_as_they_do_on_the_wire() {
    // One layer: 3 bytes of length, 18 of the sealed hop, 1 and 3 and the contents of the
    // message, and 32 of the code.
    let one = route_of(1, false);
    assert_eq!(choose_packet_size(&one, 64, 1243, &None), Some(PacketSize::Small));
    assert_eq!(choose_packet_size(&one, 64, 1244, &None), Some(PacketSize::Big));
    assert_eq!(choose_packet_size(&one, 64, 32711, &None), Some(PacketSize::Big));
    assert_eq!(choose_packet_size(&one, 64, 32712, &None), None);
    // A longer type takes two bytes more.
    assert_eq!(choose_packet_size(&one, 4242, 1241, &None), Some(PacketSize::Small));
    assert_eq!(choose_packet_size(&one, 4242, 1242, &None), Some(PacketSize::Big));
    // Each layer that names a next node takes 86 bytes more.
    let three = route_of(3, false);
    assert_eq!(choose_packet_size(&three, 64, 1071, &None), Some(PacketSize::Small));
    assert_eq!(choose_packet_size(&three, 64, 1072, &None), Some(PacketSize::Big));
    // Entering a blinded path takes 35 bytes more.
    let three = route_of(3, true);
    assert_eq!(choose_packet_size(&three, 64, 1036, &None), Some(PacketSize::Small));
    assert_eq!(choose_packet_size(&three, 64, 1037, &None), Some(PacketSize::Big));
    // A reply path of three hops takes 290 bytes, and 4 for its type and length.
    let reply = BlindedPath::new_for_message(&[key(3), key(2), key(1)]).ok();
    assert_eq!(choose_packet_size(&one, 64, 949, &reply), Some(PacketSize::Small));
    assert_eq!(choose_packet_size(&one, 64, 950, &reply), Some(PacketSize::Big));
}

#[test]
fn messages_have_the_length_of_their_packet() {
    let mut message = onion(vec![Hop { recipient: key(1), next_node_id: None }]);
    assert_eq!(message.serialized_length(), 1401);
    message.packet_size = PacketSize::Big;
    assert_eq!(message.serialized_length(), 32869);
    let rest = message.peel();
    assert!(rest.hops.is_empty());
    assert_eq!(rest.contents, message.contents);
    assert_eq!(rest.serialized_length(), 32869);
}

#[test]
fn messages_are_released_in_order_and_once() {
    let mut nodes = create_nodes(3);
    let left = nodes[0].get_node_pk();
    let right = nodes[2].get_node_pk();
    for len in 1..4 {
        let path = to_node(vec![], right);
        nodes[1].messenger.send_onion_message(path, raw(100, len), None).unwrap();
    }
    nodes[1].messenger.send_onion_message(to_node(vec![], left), raw(100, 9), None).unwrap();
    let released = nodes[1].messenger.release_pending_msgs();
    let lens: Vec<usize> = released.get(&right).unwrap().iter().map(|m| m.contents.len()).collect();
    assert_eq!(lens, vec![1, 2, 3]);
    assert_eq!(released.get(&left).unwrap().len(), 1);
    assert!(waiting_for(&mut nodes[1], &right).is_empty());
    assert!(waiting_for(&mut nodes[1], &left).is_empty());
}

#[test]
fn connecting_again_leaves_nothing_waiting() {
    let mut pending = PendingMessages::new();
    pending.connect(&key(1));
    pending.connect(&key(2));
    pending.enqueue(&key(1), onion(vec![]));
    pending.enqueue(&key(2), onion(vec![]));
    pending.connect(&key(1));
    assert_eq!(pending.get(&key(1)).unwrap().len(), 0);
    assert_eq!(pending.get(&key(2)).unwrap().len(), 1);
    assert!(pending.get(&key(3)).is_none());
}

#[test]
fn a_full_buffer_takes_messages_again_once_released() {
    let mut nodes = create_nodes(2);
    let path = to_node(vec![], nodes[1].get_node_pk());
    for _ in 0..188 {
        nodes[0].messenger.send_onion_message(path.clone(), test_message(), None).unwrap();
    }
    assert_eq!(
        nodes[0].messenger.send_onion_message(path.clone(), test_message(), None),
        Err(SendError::BufferFull)
    );
    assert_eq!(nodes[0].messenger.release_pending_msgs().get(&nodes[1].get_node_pk()).unwrap().len(), 188);
    assert_eq!(nodes[0].messenger.send_onion_message(path, test_message(), None), Ok(()));
}

#[test]
fn all_buffers_together_are_bounded_too() {
    let keys = TestKeysInterface::new(&[9; 32], Network::Testnet).unwrap();
    let mut messenger = OnionMessenger::new(&keys);
    for n in 0..520 {
        messenger.peer_connected(&key(n), &announcing(), true).unwrap();
    }
    // A peer's buffer takes eight big packets, and all together take 4084.
    let mut taken = 0;
    for n in 0..520 {
        for i in 0..9 {
            let result = messenger.send_onion_message(to_node(vec![], key(n)), raw(100, 1300), None);
            if result.is_ok() {
                assert!(i < 8);
                taken += 1;
            } else {
                assert_eq!(result, Err(SendError::BufferFull));
                assert!(i == 8 || taken == 4084);
            }
        }
    }
    assert_eq!(taken, 4084);
}

#[test]
fn a_layer_sealed_to_another_node_is_not_opened() {
    let mut nodes = create_nodes(3);
    let other = nodes[2].get_node_pk();
    let from = nodes[0].get_node_pk();
    let message = onion(vec![Hop { recipient: other, next_node_id: None }]);
    hand_over(&mut nodes[1], &from, &message);
    assert_eq!(nodes[1].custom_message_handler.num_messages_expected, 0);
    assert_eq!(nodes[1].logger.count_log_lines(LOG_MODULE, ""), 0);
    assert!(waiting_for(&mut nodes[1], &other).is_empty());
    hand_over(&mut nodes[1], &from, &onion(vec![]));
    assert_eq!(nodes[1].custom_message_handler.num_messages_expected, 0);
}

#[test]
fn a_bogus_onion_leaves_no_trace() {
    let mut nodes = create_nodes(3);
    let us = nodes[1].get_node_pk();
    let next = nodes[2].get_node_pk();
    let from = nodes[0].get_node_pk();
    // The innermost layer names a next node.
    hand_over(&mut nodes[1], &from, &onion(vec![Hop { recipient: us, next_node_id: Some(next) }]));
    // A layer that is not the innermost names none.
    hand_over(
        &mut nodes[1],
        &from,
        &onion(vec![
            Hop { recipient: us, next_node_id: None },
            Hop { recipient: next, next_node_id: None },
        ]),
    );
    assert_eq!(nodes[1].custom_message_handler.num_messages_expected, 0);
    assert_eq!(nodes[1].logger.count_log_lines(LOG_MODULE, ""), 0);
    assert!(waiting_for(&mut nodes[1], &next).is_empty());
}

#[test]
fn an_onion_is_passed_on_to_a_peer_with_room() {
    let mut nodes = create_nodes(3);
    let us = nodes[1].get_node_pk();
    let next = nodes[2].get_node_pk();
    let from = nodes[0].get_node_pk();
    let hops = |next: PublicKey| {
        vec![
            Hop { recipient: us, next_node_id: Some(next) },
            Hop { recipient: next, next_node_id: None },
        ]
    };
    // To a node that is no peer: dropped.
    hand_over(&mut nodes[1], &from, &onion(hops(key(1))));
    // To a peer: passed on without the outermost layer.
    hand_over(&mut nodes[1], &from, &onion(hops(next)));
    let released = nodes[1].messenger.release_pending_msgs();
    assert!(released.get(&key(1)).is_none());
    let messages = released.get(&next).unwrap();
    assert_eq!(messages.len(), 1);
    assert_eq!(messages[0].hops, vec![Hop { recipient: next, next_node_id: None }]);
    // To a peer whose buffer is full: dropped.
    for _ in 0..189 {
        hand_over(&mut nodes[1], &from, &onion(hops(next)));
    }
    assert_eq!(waiting_for(&mut nodes[1], &next).len(), 188);
}

#[test]
fn a_message_of_an_unknown_type_is_not_counted() {
    let mut nodes = create_nodes(2);
    let path = to_node(vec![], nodes[1].get_node_pk());
    nodes[0].messenger.send_onion_message(path, raw(100, 5), None).unwrap();
    pass_along_path(&mut nodes);
    assert_eq!(nodes[1].custom_message_handler.num_messages_expected, 1);
    assert_eq!(nodes[1].logger.count_log_lines(LOG_MODULE, ""), 0);
}

#[test]
fn the_log_tells_whether_there_was_a_reply_path() {
    let mut nodes = create_nodes(2);
    let us = nodes[0].get_node_pk();
    let peer = nodes[1].get_node_pk();
    nodes[0].messenger.send_onion_message(to_node(vec![], peer), test_message(), None).unwrap();
    pass_along_path(&mut nodes);
    let reply = BlindedPath::new_for_message(&[peer, us]).unwrap();
    nodes[0]
        .messenger
        .send_onion_message(to_node(vec![], peer), test_message(), Some(reply))
        .unwrap();
    pass_along_path(&mut nodes);
    let with = "Received an onion message with path_id None and a reply_path";
    let without = "Received an onion message with path_id None and no reply_path";
    assert_eq!(nodes[1].logger.count_log_lines(LOG_MODULE, with), 1);
    assert_eq!(nodes[1].logger.count_log_lines(LOG_MODULE, without), 1);
    assert_eq!(nodes[0].logger.count_log_lines(LOG_MODULE, ""), 0);
}

#[test]
fn a_path_with_a_hop_taken_out_leads_nowhere() {
    let mut nodes = create_nodes(4);
    let from = nodes[0].get_node_pk();
    let first = nodes[1].get_node_pk();
    let mut path = BlindedPath::new_for_message(&[
        nodes[1].get_node_pk(),
        nodes[2].get_node_pk(),
        nodes[3].get_node_pk(),
    ])
    .unwrap();
    path.blinded_hops.remove(0);
    nodes[0].messenger.send_onion_message(to_blinded(vec![], path), test_message(), None).unwrap();
    let released = nodes[0].messenger.release_pending_msgs();
    let message = &released.get(&first).unwrap()[0];
    hand_over(&mut nodes[1], &from, message);
    let next = nodes[2].get_node_pk();
    assert!(waiting_for(&mut nodes[1], &next).is_empty());
}
