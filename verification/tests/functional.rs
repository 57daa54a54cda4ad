//! Messages on their way along rows of nodes.
use onion_harness::custom::{
    CustomOnionMessageContents, OnionMessageContents, TestCustomMessage,
};
use onion_harness::messenger::SendError;
use onion_harness::nodes::{create_nodes, pass_along_path, MessengerNode};
use onion_harness::path::{BlindedPath, Destination, OnionMessagePath};

const LOG_MODULE: &str = "lightning::onion_message::messenger";

/// Every node that goes has received all that it expected.
fn drop_nodes(nodes: Vec<MessengerNode>) {
    for node in nodes {
        assert_eq!(node.custom_message_handler.num_messages_expected, 0);
        assert!(node.custom_message_handler.may_drop(false));
    }
}

#[test]
fn one_hop() {
    let mut nodes = create_nodes(2);
    let test_msg = OnionMessageContents::Custom(TestCustomMessage {});

    let path = OnionMessagePath {
        intermediate_nodes: vec![],
        destination: Destination::Node(nodes[1].get_node_pk()),
    };
    nodes[0].messenger.send_onion_message(path, test_msg, None).unwrap();
    pass_along_path(&mut nodes);
    drop_nodes(nodes);
}

#[test]
fn two_unblinded_hops() {
    let mut nodes = create_nodes(3);
    let test_msg = OnionMessageContents::Custom(TestCustomMessage {});

    let path = OnionMessagePath {
        intermediate_nodes: vec![nodes[1].get_node_pk()],
        destination: Destination::Node(nodes[2].get_node_pk()),
    };
    nodes[0].messenger.send_onion_message(path, test_msg, None).unwrap();
    pass_along_path(&mut nodes);
    drop_nodes(nodes);
}

#[test]
fn two_unblinded_two_blinded() {
    let mut nodes = create_nodes(5);
    let test_msg = OnionMessageContents::Custom(TestCustomMessage {});

    let blinded_path =
        BlindedPath::new_for_message(&[nodes[3].get_node_pk(), nodes[4].get_node_pk()]).unwrap();
    let path = OnionMessagePath {
        intermediate_nodes: vec![nodes[1].get_node_pk(), nodes[2].get_node_pk()],
        destination: Destination::BlindedPath(blinded_path),
    };

    nodes[0].messenger.send_onion_message(path, test_msg, None).unwrap();
    pass_along_path(&mut nodes);
    drop_nodes(nodes);
}

#[test]
fn three_blinded_hops() {
    let mut nodes = create_nodes(4);
    let test_msg = OnionMessageContents::Custom(TestCustomMessage {});

    let blinded_path = BlindedPath::new_for_message(&[
        nodes[1].get_node_pk(),
        nodes[2].get_node_pk(),
        nodes[3].get_node_pk(),
    ])
    .unwrap();
    let path = OnionMessagePath {
        intermediate_nodes: vec![],
        destination: Destination::BlindedPath(blinded_path),
    };

    nodes[0].messenger.send_onion_message(path, test_msg, None).unwrap();
    pass_along_path(&mut nodes);
    drop_nodes(nodes);
}

#[test]
fn too_big_packet_error() {
    // A packet that is too big to send is refused.
    let mut nodes = create_nodes(2);
    let test_msg = OnionMessageContents::Custom(TestCustomMessage {});

    let hop_node_id = nodes[1].get_node_pk();
    let hops = vec![hop_node_id; 400];
    let path = OnionMessagePath {
        intermediate_nodes: hops,
        destination: Destination::Node(hop_node_id),
    };
    let err = nodes[0].messenger.send_onion_message(path, test_msg, None).unwrap_err();
    assert_eq!(err, SendError::TooBigPacket);
    drop_nodes(nodes);
}

#[test]
fn we_are_intro_node() {
    // A sender that is the introduction node of the blinded path that it sends straight to
    // advances the path by one hop, so that the second hop is the new introduction node.
    let mut nodes = create_nodes(3);
    let test_msg = TestCustomMessage {};

    let blinded_path = BlindedPath::new_for_message(&[
        nodes[0].get_node_pk(),
        nodes[1].get_node_pk(),
        nodes[2].get_node_pk(),
    ])
    .unwrap();
    let path = OnionMessagePath {
        intermediate_nodes: vec![],
        destination: Destination::BlindedPath(blinded_path),
    };

    nodes[0]
        .messenger
        .send_onion_message(path, OnionMessageContents::Custom(test_msg.clone()), None)
        .unwrap();
    pass_along_path(&mut nodes);

    // The same with a blinded path of two hops.
    let blinded_path =
        BlindedPath::new_for_message(&[nodes[0].get_node_pk(), nodes[1].get_node_pk()]).unwrap();
    let path = OnionMessagePath {
        intermediate_nodes: vec![],
        destination: Destination::BlindedPath(blinded_path),
    };
    nodes[0]
        .messenger
        .send_onion_message(path, OnionMessageContents::Custom(test_msg), None)
        .unwrap();
    drop_nodes(vec![nodes.remove(2)]);
    pass_along_path(&mut nodes);
    drop_nodes(nodes);
}

#[test]
fn invalid_blinded_path_error() {
    // A blinded path with no hop or one hop is refused.
    let mut nodes = create_nodes(3);
    let test_msg = TestCustomMessage {};

    // No hop.
    let mut blinded_path =
        BlindedPath::new_for_message(&[nodes[1].get_node_pk(), nodes[2].get_node_pk()]).unwrap();
    blinded_path.blinded_hops.clear();
    let path = OnionMessagePath {
        intermediate_nodes: vec![],
        destination: Destination::BlindedPath(blinded_path),
    };
    let err = nodes[0]
        .messenger
        .send_onion_message(path, OnionMessageContents::Custom(test_msg.clone()), None)
        .unwrap_err();
    assert_eq!(err, SendError::TooFewBlindedHops);

    // One hop.
    let mut blinded_path =
        BlindedPath::new_for_message(&[nodes[1].get_node_pk(), nodes[2].get_node_pk()]).unwrap();
    blinded_path.blinded_hops.remove(0);
    assert_eq!(blinded_path.blinded_hops.len(), 1);
    let path = OnionMessagePath {
        intermediate_nodes: vec![],
        destination: Destination::BlindedPath(blinded_path),
    };
    let err = nodes[0]
        .messenger
        .send_onion_message(path, OnionMessageContents::Custom(test_msg), None)
        .unwrap_err();
    assert_eq!(err, SendError::TooFewBlindedHops);
    drop_nodes(nodes);
}

#[test]
fn reply_path() {
    let mut nodes = create_nodes(4);
    let test_msg = TestCustomMessage {};

    // To a node.
    let path = OnionMessagePath {
        intermediate_nodes: vec![nodes[1].get_node_pk(), nodes[2].get_node_pk()],
        destination: Destination::Node(nodes[3].get_node_pk()),
    };
    let reply_path = BlindedPath::new_for_message(&[
        nodes[2].get_node_pk(),
        nodes[1].get_node_pk(),
        nodes[0].get_node_pk(),
    ])
    .unwrap();
    nodes[0]
        .messenger
        .send_onion_message(path, OnionMessageContents::Custom(test_msg.clone()), Some(reply_path))
        .unwrap();
    pass_along_path(&mut nodes);
    // The last node has found the reply path.
    assert_eq!(
        nodes[3].logger.count_log_lines(
            LOG_MODULE,
            "Received an onion message with path_id None and a reply_path"
        ),
        1
    );

    // To a blinded path.
    let blinded_path = BlindedPath::new_for_message(&[
        nodes[1].get_node_pk(),
        nodes[2].get_node_pk(),
        nodes[3].get_node_pk(),
    ])
    .unwrap();
    let path = OnionMessagePath {
        intermediate_nodes: vec![],
        destination: Destination::BlindedPath(blinded_path),
    };
    let reply_path = BlindedPath::new_for_message(&[
        nodes[2].get_node_pk(),
        nodes[1].get_node_pk(),
        nodes[0].get_node_pk(),
    ])
    .unwrap();

    nodes[0]
        .messenger
        .send_onion_message(path, OnionMessageContents::Custom(test_msg), Some(reply_path))
        .unwrap();
    pass_along_path(&mut nodes);
    assert_eq!(
        nodes[3].logger.count_log_lines(
            LOG_MODULE,
            "Received an onion message with path_id None and a reply_path"
        ),
        2
    );
    drop_nodes(nodes);
}

struct InvalidCustomMessage {}

impl CustomOnionMessageContents for InvalidCustomMessage {
    fn tlv_type(&self) -> u64 {
        // The contents of an onion message must have a type of at least 64.
        63
    }

    fn write(&self, _w: &mut Vec<u8>) {
        unreachable!()
    }
}

#[test]
fn invalid_custom_message_type() {
    let mut nodes = create_nodes(2);

    let test_msg = OnionMessageContents::Custom(InvalidCustomMessage {});
    let path = OnionMessagePath {
        intermediate_nodes: vec![],
        destination: Destination::Node(nodes[1].get_node_pk()),
    };
    let err = nodes[0].messenger.send_onion_message(path, test_msg, None).unwrap_err();
    assert_eq!(err, SendError::InvalidMessage);
    drop_nodes(nodes);
}

#[test]
fn peer_buffer_full() {
    let mut nodes = create_nodes(2);
    let test_msg = TestCustomMessage {};
    let path = OnionMessagePath {
        intermediate_nodes: vec![],
        destination: Destination::Node(nodes[1].get_node_pk()),
    };
    for _ in 0..188 {
        // Follows from MAX_PER_PEER_BUFFER_SIZE.
        nodes[0]
            .messenger
            .send_onion_message(path.clone(), OnionMessageContents::Custom(test_msg.clone()), None)
            .unwrap();
    }
    let err = nodes[0]
        .messenger
        .send_onion_message(path, OnionMessageContents::Custom(test_msg), None)
        .unwrap_err();
    assert_eq!(err, SendError::BufferFull);
    drop_nodes(nodes);
}

#[test]
fn many_hops() {
    // A route with so many hops that the message takes a big packet.
    let num_nodes: usize = 25;
    let mut nodes = create_nodes(num_nodes as u8);
    let test_msg = OnionMessageContents::Custom(TestCustomMessage {});

    let mut intermediate_nodes = vec![];
    for i in 1..(num_nodes - 1) {
        intermediate_nodes.push(nodes[i].get_node_pk());
    }

    let path = OnionMessagePath {
        intermediate_nodes,
        destination: Destination::Node(nodes[num_nodes - 1].get_node_pk()),
    };
    nodes[0].messenger.send_onion_message(path, test_msg, None).unwrap();
    pass_along_path(&mut nodes);
    drop_nodes(nodes);
}
