//! Onion messages, and how many bytes they take on the wire.
use vstd::prelude::*;

use crate::path::{
    blinded_option, copy_hops, hop_seq, BlindedPath, BlindedPathModel, Hop, HopModel, Route,
    RouteModel,
};

verus! {

/// The bytes that the layers of a small packet may take.
pub const SMALL_PACKET_HOP_DATA_LEN: usize = 1300;

/// The bytes that the layers of a big packet may take.
pub const BIG_PACKET_HOP_DATA_LEN: usize = 32768;

/// The bytes of a public key.
pub const KEY_LEN: usize = 33;

/// The bytes of the tag that closes a sealed record.
pub const TAG_LEN: usize = 16;

/// The bytes of the code that authenticates a layer.
pub const HMAC_LEN: usize = 32;

/// How many bytes a number takes that is written with its own length.
pub open spec fn varint_len(n: nat) -> nat {
    if n < 0xfd {
        1
    } else if n < 0x10000 {
        3
    } else if n < 0x1_0000_0000 {
        5
    } else {
        9
    }
}

/// How many bytes a record takes: its type, the length of its value, and the value.
pub open spec fn record_len(record_type: nat, value_len: nat) -> nat {
    varint_len(record_type) + varint_len(value_len) + value_len
}

/// How many bytes a hop takes once sealed: a record with the next node's key, if there is
/// one, and the tag.
pub open spec fn sealed_len(hop: HopModel) -> nat {
    (if hop.next is Some {
        record_len(4, KEY_LEN as nat)
    } else {
        0
    }) + TAG_LEN as nat
}

/// How many bytes a layer takes: its length, its records and the code that authenticates
/// it.
pub open spec fn layer_len(records_len: nat) -> nat {
    varint_len(records_len) + records_len + HMAC_LEN as nat
}

/// How many bytes the layers of nodes that pass the message on take.
pub open spec fn forward_layers_len(hops: Seq<HopModel>) -> nat
    decreases hops.len(),
{
    if hops.len() == 0 {
        0
    } else {
        forward_layers_len(hops.drop_last()) + layer_len(record_len(4, sealed_len(hops.last())))
    }
}

/// How many bytes the hops of a blinded path take: for each a key, a length of two bytes
/// and the sealed hop.
pub open spec fn blinded_hops_len(hops: Seq<HopModel>) -> nat
    decreases hops.len(),
{
    if hops.len() == 0 {
        0
    } else {
        blinded_hops_len(hops.drop_last()) + KEY_LEN as nat + 2 + sealed_len(hops.last())
    }
}

/// How many bytes a blinded path takes: the introduction node's key, the point that it is
/// blinded with, the number of hops, and the hops.
pub open spec fn blinded_path_len(path: BlindedPathModel) -> nat {
    2 * KEY_LEN as nat + 1 + blinded_hops_len(path.hops)
}

/// How many bytes the innermost layer takes: the path to reply along, if there is one, the
/// sealed hop, and the message.
pub open spec fn final_layer_len(
    hop: HopModel,
    tlv_type: u64,
    contents_len: nat,
    reply_path: Option<BlindedPathModel>,
) -> nat {
    let reply_len = match reply_path {
        Some(path) => record_len(2, blinded_path_len(path)),
        None => 0,
    };
    layer_len(reply_len + record_len(4, sealed_len(hop)) + record_len(tlv_type as nat, contents_len))
}

/// How many bytes the layers of a message take. A node that hands the message over to a
/// blinded path is told the point to go on with, in one more record.
pub open spec fn layers_len(
    route: RouteModel,
    tlv_type: u64,
    contents_len: nat,
    reply_path: Option<BlindedPathModel>,
) -> nat {
    forward_layers_len(route.hops.drop_last()) + final_layer_len(
        route.hops.last(),
        tlv_type,
        contents_len,
        reply_path,
    ) + (if route.enters_blinded {
        record_len(8, KEY_LEN as nat)
    } else {
        0
    })
}

/// The two sizes that a packet can have.
#[derive(Clone, Copy, Debug, PartialEq, Eq, Structural)]
pub enum PacketSize {
    Small,
    Big,
}

impl PacketSize {
    /// The bytes that the layers of a packet of this size may take.
    pub open spec fn spec_hop_data_len(self) -> nat {
        match self {
            PacketSize::Small => SMALL_PACKET_HOP_DATA_LEN as nat,
            PacketSize::Big => BIG_PACKET_HOP_DATA_LEN as nat,
        }
    }
}

/// The size of packet that holds layers of this length: the small one if it does, else the
/// big one; none if neither does.
pub open spec fn packet_size_for(len: nat) -> Option<PacketSize> {
    if len <= SMALL_PACKET_HOP_DATA_LEN {
        Some(PacketSize::Small)
    } else if len <= BIG_PACKET_HOP_DATA_LEN {
        Some(PacketSize::Big)
    } else {
        None
    }
}

/// A message on its way: the layers that are still to be opened, and the message inside.
#[derive(Debug)]
pub struct OnionMessage {
    pub hops: Vec<Hop>,
    pub tlv_type: u64,
    pub contents: Vec<u8>,
    pub reply_path: Option<BlindedPath>,
    pub packet_size: PacketSize,
}

/// What an [`OnionMessage`] holds.
#[verifier::ext_equal]
pub struct OnionModel {
    pub hops: Seq<HopModel>,
    pub tlv_type: u64,
    pub contents: Seq<u8>,
    pub reply_path: Option<BlindedPathModel>,
    pub packet_size: PacketSize,
}

impl View for OnionMessage {
    type V = OnionModel;

    open spec fn view(&self) -> OnionModel {
        OnionModel {
            hops: hop_seq(self.hops@),
            tlv_type: self.tlv_type,
            contents: self.contents@,
            reply_path: blinded_option(self.reply_path),
            packet_size: self.packet_size,
        }
    }
}

/// How many bytes a message takes: the blinding point, the length of the packet in two
/// bytes, and the packet, which is its version, a key, the layers and a code. A packet
/// keeps its size however many layers have been opened.
pub open spec fn message_len(message: OnionModel) -> nat {
    KEY_LEN as nat + 2 + 1 + KEY_LEN as nat + message.packet_size.spec_hop_data_len()
        + HMAC_LEN as nat
}

/// The message without its outermost layer.
pub open spec fn peeled(message: OnionModel) -> OnionModel {
    OnionModel { hops: message.hops.skip(1), ..message }
}

impl OnionMessage {
    /// How many bytes the message takes.
    pub fn serialized_length(&self) -> (len: usize)
        ensures
            len == message_len(self@),
    {
        let hop_data_len: usize = match self.packet_size {
            PacketSize::Small => SMALL_PACKET_HOP_DATA_LEN,
            PacketSize::Big => BIG_PACKET_HOP_DATA_LEN,
        };
        KEY_LEN + 2 + 1 + KEY_LEN + hop_data_len + HMAC_LEN
    }

    /// The message without its outermost layer.
    pub fn peel(&self) -> (rest: OnionMessage)
        requires
            self.hops@.len() > 0,
        ensures
            rest@ == peeled(self@),
    {
        let hops = copy_hops(&self.hops, 1);
        let mut contents: Vec<u8> = Vec::new();
        let mut i: usize = 0;
        while i < self.contents.len()
            invariant
                i <= self.contents@.len(),
                contents@ == self.contents@.take(i as int),
            decreases self.contents@.len() - i,
        {
            contents.push(self.contents[i]);
            i = i + 1;
            assert(self.contents@.take(i as int) =~= self.contents@.take(i - 1).push(
                self.contents@[i - 1],
            ));
        }
        assert(self.contents@.take(i as int) =~= self.contents@);
        let reply_path = match &self.reply_path {
            Some(path) => Some(path.clone()),
            None => None,
        };
        OnionMessage {
            hops,
            tlv_type: self.tlv_type,
            contents,
            reply_path,
            packet_size: self.packet_size,
        }
    }
}

/// How many bytes a number takes that is written with its own length.
fn count_varint(n: u128) -> (len: u128)
    ensures
        len == varint_len(n as nat),
{
    if n < 0xfd {
        1
    } else if n < 0x10000 {
        3
    } else if n < 0x1_0000_0000 {
        5
    } else {
        9
    }
}

/// How many bytes a record takes.
fn count_record(record_type: u128, value_len: u128) -> (len: u128)
    requires
        value_len <= u128::MAX - 18,
    ensures
        len == record_len(record_type as nat, value_len as nat),
{
    count_varint(record_type) + count_varint(value_len) + value_len
}

/// How many bytes a hop takes once sealed.
fn count_sealed(hop: &Hop) -> (len: u128)
    ensures
        len == sealed_len(hop@),
        len <= 51,
{
    match hop.next_node_id {
        Some(_) => count_record(4, KEY_LEN as u128) + TAG_LEN as u128,
        None => TAG_LEN as u128,
    }
}

/// How many bytes a layer takes.
fn count_layer(records_len: u128) -> (len: u128)
    requires
        records_len <= u128::MAX - 41,
    ensures
        len == layer_len(records_len as nat),
{
    count_varint(records_len) + records_len + HMAC_LEN as u128
}

/// How many bytes the layers of the first `count` hops take, all of them passing on.
fn count_forward_layers(hops: &Vec<Hop>, count: usize) -> (len: u128)
    requires
        count <= hops@.len(),
    ensures
        len == forward_layers_len(hop_seq(hops@).take(count as int)),
        len <= 86 * count,
{
    let ghost all = hop_seq(hops@);
    let mut len: u128 = 0;
    let mut i: usize = 0;
    while i < count
        invariant
            i <= count <= hops@.len(),
            all == hop_seq(hops@),
            len == forward_layers_len(all.take(i as int)),
            len <= 86 * i,
        decreases count - i,
    {
        len = len + count_layer(count_record(4, count_sealed(&hops[i])));
        i = i + 1;
        assert(all.take(i as int).drop_last() =~= all.take(i - 1));
        assert(all.take(i as int).last() == all[i - 1]);
    }
    len
}

/// How many bytes the hops of a blinded path take.
fn count_blinded_hops(hops: &Vec<Hop>) -> (len: u128)
    ensures
        len == blinded_hops_len(hop_seq(hops@)),
        len <= 86 * usize::MAX,
{
    let ghost all = hop_seq(hops@);
    let mut len: u128 = 0;
    let mut i: usize = 0;
    while i < hops.len()
        invariant
            i <= hops@.len(),
            all == hop_seq(hops@),
            len == blinded_hops_len(all.take(i as int)),
            len <= 86 * i,
        decreases hops@.len() - i,
    {
        len = len + KEY_LEN as u128 + 2 + count_sealed(&hops[i]);
        i = i + 1;
        assert(all.take(i as int).drop_last() =~= all.take(i - 1));
        assert(all.take(i as int).last() == all[i - 1]);
    }
    assert(all.take(i as int) =~= all);
    len
}

/// The size of packet that holds a message's layers, if any does.
pub fn choose_packet_size(
    route: &Route,
    tlv_type: u64,
    contents_len: usize,
    reply_path: &Option<BlindedPath>,
) -> (size: Option<PacketSize>)
    requires
        route@.hops.len() > 0,
    ensures
        size == packet_size_for(
            layers_len(route@, tlv_type, contents_len as nat, blinded_option(*reply_path)),
        ),
{
    let hops = &route.hops;
    let last: usize = hops.len() - 1;
    assert(hop_seq(hops@).take(last as int) =~= hop_seq(hops@).drop_last());
    let forward = count_forward_layers(hops, last);
    let reply = match reply_path {
        Some(path) => count_record(
            2,
            2 * (KEY_LEN as u128) + 1 + count_blinded_hops(&path.blinded_hops),
        ),
        None => 0u128,
    };
    let sealed = count_record(4, count_sealed(&hops[last]));
    let message = count_record(tlv_type as u128, contents_len as u128);
    let extra = if route.enters_blinded_path {
        count_record(8, KEY_LEN as u128)
    } else {
        0u128
    };
    let len: u128 = forward + count_layer(reply + sealed + message) + extra;
    if len <= SMALL_PACKET_HOP_DATA_LEN as u128 {
        Some(PacketSize::Small)
    } else if len <= BIG_PACKET_HOP_DATA_LEN as u128 {
        Some(PacketSize::Big)
    } else {
        None
    }
}

} // verus!
