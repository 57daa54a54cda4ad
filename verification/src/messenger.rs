//! The messenger of a node: takes messages in to send, opens those that arrive, and passes
//! them on.
use vstd::prelude::*;

use crate::buffers::{
    buffer_full, connected, drained, enqueued, has_peer, PeerModel, PendingMessages,
};
use crate::custom::{
    count_down, expected_contents, known_message, CustomOnionMessageContents,
    OnionMessageContents, TestCustomMessageHandler, MIN_CONTENTS_TYPE,
};
use crate::features::{
    flag_set, Init, ONION_MESSAGES_OPTIONAL, ONION_MESSAGES_REQUIRED,
};
use crate::keys::{same_key, PublicKey, TestKeysInterface};
use crate::logger::{LineModel, TestLogger};
use crate::packet::{
    choose_packet_size, layers_len, packet_size_for, peeled, OnionMessage, OnionModel,
};
use crate::path::{
    blinded_option, plan_route, route_for, BlindedPath, BlindedPathModel, Destination,
    DestinationModel, OnionMessagePath, PathModel, RouteModel,
};

verus! {

/// Why a message was not taken in to send.
#[derive(Clone, Copy, Debug, PartialEq, Eq, Structural)]
pub enum SendError {
    /// The layers fit in no packet.
    TooBigPacket,
    /// The blinded path has fewer than two hops.
    TooFewBlindedHops,
    /// The node that would get the message first is not a connected peer.
    InvalidFirstHop,
    /// The type of the contents is too low.
    InvalidMessage,
    /// Too much waits to go out already.
    BufferFull,
    /// The sender is the introduction node of the blinded path, and cannot open its hop.
    BlindedPathAdvanceFailed,
}

/// A message as the caller hands it over: its type and contents, and the path to reply
/// along.
pub struct LetterModel {
    pub tlv_type: u64,
    pub contents: Seq<u8>,
    pub reply_path: Option<BlindedPathModel>,
}

/// What an [`OnionMessenger`] holds.
#[verifier::ext_equal]
pub struct MessengerModel {
    pub id: Seq<u8>,
    pub peers: Seq<PeerModel>,
}

/// The onion that a letter becomes on a route, if there is a packet that holds it.
pub open spec fn onion_for(route: RouteModel, letter: LetterModel) -> Option<OnionModel> {
    match packet_size_for(
        layers_len(route, letter.tlv_type, letter.contents.len(), letter.reply_path),
    ) {
        Some(packet_size) => Some(
            OnionModel {
                hops: route.hops,
                tlv_type: letter.tlv_type,
                contents: letter.contents,
                reply_path: letter.reply_path,
                packet_size,
            },
        ),
        None => None,
    }
}

/// Whether a path ends in a blinded path of fewer than two hops.
pub open spec fn too_few_hops(path: PathModel) -> bool {
    match path.destination {
        DestinationModel::Node(_) => false,
        DestinationModel::BlindedPath(blinded) => blinded.hops.len() < 2,
    }
}

/// The messenger once it has taken a letter in to send along a path, or why it does not.
pub open spec fn sent(messenger: MessengerModel, path: PathModel, letter: LetterModel) -> Result<
    MessengerModel,
    SendError,
> {
    if too_few_hops(path) {
        Err(SendError::TooFewBlindedHops)
    } else if letter.tlv_type < MIN_CONTENTS_TYPE {
        Err(SendError::InvalidMessage)
    } else {
        match route_for(path, messenger.id) {
            None => Err(SendError::BlindedPathAdvanceFailed),
            Some(route) => match onion_for(route, letter) {
                None => Err(SendError::TooBigPacket),
                Some(onion) => if buffer_full(messenger.peers, route.first) {
                    Err(SendError::BufferFull)
                } else if !has_peer(messenger.peers, route.first) {
                    Err(SendError::InvalidFirstHop)
                } else {
                    Ok(
                        MessengerModel {
                            id: messenger.id,
                            peers: enqueued(messenger.peers, route.first, onion),
                        },
                    )
                },
            },
        }
    }
}

/// What a node finds when it opens the outermost layer of an onion.
pub enum Opened {
    /// The layer is not sealed to the node.
    Undecodable,
    /// The layer is to pass on but the innermost, or it is to keep but not the innermost.
    Bogus,
    /// The rest is to pass on to the node named.
    Forward(Seq<u8>),
    /// The message inside is for the node.
    Receive,
}

/// What the node `id` finds when it opens the outermost layer of an onion.
pub open spec fn opened(id: Seq<u8>, onion: OnionModel) -> Opened {
    if onion.hops.len() == 0 || onion.hops[0].recipient != id {
        Opened::Undecodable
    } else {
        match onion.hops[0].next {
            Some(next) => if onion.hops.len() > 1 {
                Opened::Forward(next)
            } else {
                Opened::Bogus
            },
            None => if onion.hops.len() == 1 {
                Opened::Receive
            } else {
                Opened::Bogus
            },
        }
    }
}

/// The messenger once an onion has arrived. One to pass on waits for the next node, if that
/// is a connected peer and its buffer is not full; any other leaves no trace here.
pub open spec fn passed_on(messenger: MessengerModel, onion: OnionModel) -> MessengerModel {
    match opened(messenger.id, onion) {
        Opened::Forward(next) => if !buffer_full(messenger.peers, next) && has_peer(
            messenger.peers,
            next,
        ) {
            MessengerModel {
                id: messenger.id,
                peers: enqueued(messenger.peers, next, peeled(onion)),
            }
        } else {
            messenger
        },
        _ => messenger,
    }
}

/// Whether an onion that arrives holds a message that the node's handler takes in.
pub open spec fn taken_in(id: Seq<u8>, onion: OnionModel) -> bool {
    opened(id, onion) is Receive && known_message(onion.tlv_type) is Some
}

/// The module that the messenger's log lines carry.
pub open spec fn log_module() -> Seq<char> {
    "lightning::onion_message::messenger"@
}

/// What the messenger logs of a message that is taken in.
pub open spec fn received_line(onion: OnionModel) -> LineModel {
    LineModel {
        module: log_module(),
        line: if onion.reply_path is Some {
            "Received an onion message with path_id None and a reply_path"@
        } else {
            "Received an onion message with path_id None and no reply_path"@
        },
    }
}

/// Whether the handler of the node `id` can read what an onion holds, should it be for the
/// node.
pub open spec fn readable(id: Seq<u8>, onion: OnionModel) -> bool {
    opened(id, onion) is Receive ==> expected_contents(onion.tlv_type, onion.contents)
}

/// The messenger of a node.
#[derive(Debug)]
pub struct OnionMessenger {
    node_id: PublicKey,
    pending_messages: PendingMessages,
}

impl View for OnionMessenger {
    type V = MessengerModel;

    closed spec fn view(&self) -> MessengerModel {
        MessengerModel { id: self.node_id@, peers: self.pending_messages@ }
    }
}

impl OnionMessenger {
    /// The messenger of the node with these keys, with no peers.
    pub fn new(keys: &TestKeysInterface) -> (messenger: OnionMessenger)
        ensures
            messenger@ == (MessengerModel { id: keys.spec_node_id(), peers: Seq::empty() }),
    {
        OnionMessenger { node_id: keys.get_node_id(), pending_messages: PendingMessages::new() }
    }

    /// A peer has connected. One that exchanges onion messages is remembered, with nothing
    /// waiting for it.
    pub fn peer_connected(
        &mut self,
        their_node_id: &PublicKey,
        init: &Init,
        _inbound: bool,
    ) -> (result: Result<(), ()>)
        ensures
            result == Ok::<(), ()>(()),
            final(self)@ == (MessengerModel {
                id: old(self)@.id,
                peers: if flag_set(init.features@, ONION_MESSAGES_REQUIRED as int) || flag_set(
                    init.features@,
                    ONION_MESSAGES_OPTIONAL as int,
                ) {
                    connected(old(self)@.peers, their_node_id@)
                } else {
                    old(self)@.peers
                },
            }),
    {
        if init.features.supports_onion_messages() {
            self.pending_messages.connect(their_node_id);
        }
        Ok(())
    }

    /// Takes a message in to send along `path`. Where it is refused, nothing changes.
    pub fn send_onion_message<T: CustomOnionMessageContents>(
        &mut self,
        path: OnionMessagePath,
        message: OnionMessageContents<T>,
        reply_path: Option<BlindedPath>,
    ) -> (result: Result<(), SendError>)
        ensures
            ({
                let OnionMessageContents::Custom(custom) = message;
                let letter = LetterModel {
                    tlv_type: custom.spec_tlv_type(),
                    contents: custom.spec_contents(),
                    reply_path: blinded_option(reply_path),
                };
                match sent(old(self)@, path@, letter) {
                    Ok(after) => result == Ok::<(), SendError>(()) && final(self)@ == after,
                    Err(error) => result == Err::<(), SendError>(error) && final(self)@ == old(
                        self,
                    )@,
                }
            }),
    {
        let OnionMessageContents::Custom(custom) = message;
        if let Destination::BlindedPath(blinded) = &path.destination {
            if blinded.blinded_hops.len() < 2 {
                return Err(SendError::TooFewBlindedHops);
            }
        }
        let tlv_type = custom.tlv_type();
        if tlv_type < MIN_CONTENTS_TYPE {
            return Err(SendError::InvalidMessage);
        }
        let route = match plan_route(path, &self.node_id) {
            Some(route) => route,
            None => {
                return Err(SendError::BlindedPathAdvanceFailed);
            },
        };
        let mut contents: Vec<u8> = Vec::new();
        custom.write(&mut contents);
        assert(contents@ =~= custom.spec_contents());
        let packet_size = match choose_packet_size(&route, tlv_type, contents.len(), &reply_path) {
            Some(packet_size) => packet_size,
            None => {
                return Err(SendError::TooBigPacket);
            },
        };
        if self.pending_messages.outbound_buffer_full(&route.first_node) {
            return Err(SendError::BufferFull);
        }
        if self.pending_messages.get(&route.first_node).is_none() {
            return Err(SendError::InvalidFirstHop);
        }
        let onion = OnionMessage { hops: route.hops, tlv_type, contents, reply_path, packet_size };
        self.pending_messages.enqueue(&route.first_node, onion);
        Ok(())
    }

    /// Hands out all messages that wait to go out. The peers stay connected.
    pub fn release_pending_msgs(&mut self) -> (released: PendingMessages)
        ensures
            released@ == old(self)@.peers,
            final(self)@ == (MessengerModel {
                id: old(self)@.id,
                peers: drained(old(self)@.peers),
            }),
    {
        self.pending_messages.release()
    }

    /// An onion has arrived. One to pass on waits for the next node; one for this node is
    /// read and, if it holds a message that `handler` knows, logged and handed over.
    pub fn handle_onion_message(
        &mut self,
        _peer_node_id: &PublicKey,
        msg: &OnionMessage,
        handler: &mut TestCustomMessageHandler,
        logger: &mut TestLogger,
    )
        requires
            readable(old(self)@.id, msg@),
        ensures
            final(self)@ == passed_on(old(self)@, msg@),
            final(handler)@ == (if taken_in(old(self)@.id, msg@) {
                count_down(old(handler)@)
            } else {
                old(handler)@
            }),
            final(logger).spec_id() == old(logger).spec_id(),
            final(logger).spec_lines() == (if taken_in(old(self)@.id, msg@) {
                old(logger).spec_lines().push(received_line(msg@))
            } else {
                old(logger).spec_lines()
            }),
    {
        if msg.hops.len() == 0 {
            return ;
        }
        assert(msg@.hops[0] == msg.hops@[0]@);
        if !same_key(&msg.hops[0].recipient, &self.node_id) {
            return ;
        }
        match msg.hops[0].next_node_id {
            Some(next_node_id) => {
                if msg.hops.len() == 1 {
                    return ;
                }
                if self.pending_messages.outbound_buffer_full(&next_node_id) {
                    return ;
                }
                if self.pending_messages.get(&next_node_id).is_none() {
                    return ;
                }
                self.pending_messages.enqueue(&next_node_id, msg.peel());
            },
            None => {
                if msg.hops.len() > 1 {
                    return ;
                }
                match handler.read_custom_message(msg.tlv_type, msg.contents.as_slice()) {
                    Ok(Some(message)) => {
                        let line = if msg.reply_path.is_some() {
                            "Received an onion message with path_id None and a reply_path"
                        } else {
                            "Received an onion message with path_id None and no reply_path"
                        };
                        logger.log("lightning::onion_message::messenger", line);
                        handler.handle_custom_message(message);
                    },
                    Ok(None) => {},
                    Err(_) => {},
                }
            },
        }
    }
}

} // verus!
