//! Paths that a message takes, in the open or blinded, and the layers that they become.
//!
//! Sealing is symbolic: a layer names the node that it is sealed to, and only that node's
//! messenger opens it.
use vstd::prelude::*;

use crate::keys::{same_key, PublicKey};

verus! {

/// One layer of an onion, or one hop of a blinded path: sealed to `recipient`, and telling
/// it which node comes next, or that none does.
#[derive(Clone, Copy, Debug, PartialEq, Eq)]
pub struct Hop {
    pub recipient: PublicKey,
    pub next_node_id: Option<PublicKey>,
}

/// What a [`Hop`] says.
#[verifier::ext_equal]
pub struct HopModel {
    pub recipient: Seq<u8>,
    pub next: Option<Seq<u8>>,
}

/// The bytes of a key that may be absent.
pub open spec fn key_option(key: Option<PublicKey>) -> Option<Seq<u8>> {
    match key {
        Some(key) => Some(key@),
        None => None,
    }
}

impl View for Hop {
    type V = HopModel;

    open spec fn view(&self) -> HopModel {
        HopModel { recipient: self.recipient@, next: key_option(self.next_node_id) }
    }
}

/// The bytes of each key.
pub open spec fn key_seq(keys: Seq<PublicKey>) -> Seq<Seq<u8>> {
    Seq::new(keys.len(), |i: int| keys[i]@)
}

/// What each hop says.
pub open spec fn hop_seq(hops: Seq<Hop>) -> Seq<HopModel> {
    Seq::new(hops.len(), |i: int| hops[i]@)
}

/// The hops that lead along the nodes `ids`: each is sealed to its node and names the node
/// after it, and the last names none.
pub open spec fn hops_along(ids: Seq<Seq<u8>>) -> Seq<HopModel> {
    Seq::new(
        ids.len(),
        |i: int|
            HopModel {
                recipient: ids[i],
                next: if i + 1 < ids.len() {
                    Some(ids[i + 1])
                } else {
                    None
                },
            },
    )
}

/// A path whose nodes only the nodes themselves can tell, but for the first.
#[derive(Debug, PartialEq, Eq)]
pub struct BlindedPath {
    pub introduction_node_id: PublicKey,
    pub blinded_hops: Vec<Hop>,
}

/// What a [`BlindedPath`] says.
#[verifier::ext_equal]
pub struct BlindedPathModel {
    pub introduction: Seq<u8>,
    pub hops: Seq<HopModel>,
}

impl View for BlindedPath {
    type V = BlindedPathModel;

    open spec fn view(&self) -> BlindedPathModel {
        BlindedPathModel {
            introduction: self.introduction_node_id@,
            hops: hop_seq(self.blinded_hops@),
        }
    }
}

/// What a blinded path that may be absent says.
pub open spec fn blinded_option(path: Option<BlindedPath>) -> Option<BlindedPathModel> {
    match path {
        Some(path) => Some(path@),
        None => None,
    }
}

/// The hops from position `from` on.
pub fn copy_hops(hops: &Vec<Hop>, from: usize) -> (copy: Vec<Hop>)
    requires
        from <= hops@.len(),
    ensures
        copy@ == hops@.skip(from as int),
        hop_seq(copy@) == hop_seq(hops@).skip(from as int),
{
    let mut copy: Vec<Hop> = Vec::new();
    let mut i: usize = from;
    while i < hops.len()
        invariant
            from <= i <= hops@.len(),
            copy@ == hops@.subrange(from as int, i as int),
        decreases hops@.len() - i,
    {
        copy.push(hops[i]);
        i = i + 1;
        assert(hops@.subrange(from as int, i as int) =~= hops@.subrange(from as int, i - 1).push(
            hops@[i - 1],
        ));
    }
    assert(hops@.subrange(from as int, i as int) =~= hops@.skip(from as int));
    assert(hop_seq(copy@) =~= hop_seq(hops@).skip(from as int));
    copy
}

impl Clone for BlindedPath {
    fn clone(&self) -> (copy: BlindedPath)
        ensures
            copy@ == self@,
    {
        let blinded_hops = copy_hops(&self.blinded_hops, 0);
        assert(hop_seq(self.blinded_hops@).skip(0) =~= hop_seq(self.blinded_hops@));
        BlindedPath { introduction_node_id: self.introduction_node_id, blinded_hops }
    }
}

impl BlindedPath {
    /// The blinded path along `node_pks`, of which the first is the introduction node and
    /// the last the recipient. There is none along no nodes.
    pub fn new_for_message(node_pks: &[PublicKey]) -> (path: Result<BlindedPath, ()>)
        ensures
            match path {
                Ok(path) => node_pks@.len() > 0 && path@ == (BlindedPathModel {
                    introduction: node_pks@[0]@,
                    hops: hops_along(key_seq(node_pks@)),
                }),
                Err(_) => node_pks@.len() == 0,
            },
    {
        if node_pks.len() == 0 {
            return Err(());
        }
        let ghost ids = key_seq(node_pks@);
        let mut blinded_hops: Vec<Hop> = Vec::new();
        let mut i: usize = 0;
        while i < node_pks.len()
            invariant
                i <= node_pks@.len(),
                ids == key_seq(node_pks@),
                hop_seq(blinded_hops@) == hops_along(ids).take(i as int),
            decreases node_pks@.len() - i,
        {
            let ghost before = blinded_hops@;
            let next_node_id = if i + 1 < node_pks.len() {
                Some(node_pks[i + 1])
            } else {
                None
            };
            blinded_hops.push(Hop { recipient: node_pks[i], next_node_id });
            assert(blinded_hops@.last()@ == hops_along(ids)[i as int]);
            assert(hop_seq(blinded_hops@) =~= hop_seq(before).push(blinded_hops@.last()@));
            i = i + 1;
            assert(hops_along(ids).take(i as int) =~= hops_along(ids).take(i - 1).push(
                hops_along(ids)[i - 1],
            ));
        }
        assert(hops_along(ids).take(i as int) =~= hops_along(ids));
        Ok(BlindedPath { introduction_node_id: node_pks[0], blinded_hops })
    }
}

/// Where a message is to end up.
#[derive(Debug)]
pub enum Destination {
    /// At a node that the sender knows.
    Node(PublicKey),
    /// At the end of a blinded path.
    BlindedPath(BlindedPath),
}

/// What a [`Destination`] says.
pub enum DestinationModel {
    Node(Seq<u8>),
    BlindedPath(BlindedPathModel),
}

impl View for Destination {
    type V = DestinationModel;

    open spec fn view(&self) -> DestinationModel {
        match self {
            Destination::Node(id) => DestinationModel::Node(id@),
            Destination::BlindedPath(path) => DestinationModel::BlindedPath(path@),
        }
    }
}

impl Clone for Destination {
    fn clone(&self) -> (copy: Destination)
        ensures
            copy@ == self@,
    {
        match self {
            Destination::Node(id) => Destination::Node(*id),
            Destination::BlindedPath(path) => Destination::BlindedPath(path.clone()),
        }
    }
}

/// A path from the sender: through nodes in the open, to a destination.
#[derive(Debug)]
pub struct OnionMessagePath {
    pub intermediate_nodes: Vec<PublicKey>,
    pub destination: Destination,
}

/// What an [`OnionMessagePath`] says.
pub struct PathModel {
    pub intermediate: Seq<Seq<u8>>,
    pub destination: DestinationModel,
}

impl View for OnionMessagePath {
    type V = PathModel;

    open spec fn view(&self) -> PathModel {
        PathModel {
            intermediate: key_seq(self.intermediate_nodes@),
            destination: self.destination@,
        }
    }
}

impl Clone for OnionMessagePath {
    fn clone(&self) -> (copy: OnionMessagePath)
        ensures
            copy@ == self@,
    {
        let nodes = &self.intermediate_nodes;
        let mut intermediate_nodes: Vec<PublicKey> = Vec::new();
        let mut i: usize = 0;
        while i < nodes.len()
            invariant
                i <= nodes@.len(),
                intermediate_nodes@ == nodes@.take(i as int),
            decreases nodes@.len() - i,
        {
            intermediate_nodes.push(nodes[i]);
            i = i + 1;
            assert(nodes@.take(i as int) =~= nodes@.take(i - 1).push(nodes@[i - 1]));
        }
        assert(nodes@.take(i as int) =~= nodes@);
        OnionMessagePath { intermediate_nodes, destination: self.destination.clone() }
    }
}

/// A path made ready to send along: the node that gets the message first, and the layers
/// that it is wrapped in.
pub struct Route {
    pub first_node: PublicKey,
    pub hops: Vec<Hop>,
    /// Whether a node in the open hands the message over to a blinded path.
    pub enters_blinded_path: bool,
}

/// What a [`Route`] says.
#[verifier::ext_equal]
pub struct RouteModel {
    pub first: Seq<u8>,
    pub hops: Seq<HopModel>,
    pub enters_blinded: bool,
}

impl View for Route {
    type V = RouteModel;

    open spec fn view(&self) -> RouteModel {
        RouteModel {
            first: self.first_node@,
            hops: hop_seq(self.hops@),
            enters_blinded: self.enters_blinded_path,
        }
    }
}

/// A blinded path without its first hop, which is the sender's own: the node that this hop
/// names becomes the introduction node. There is no such path where the hop is not sealed
/// to the sender, or names no node.
pub open spec fn advanced(path: BlindedPathModel, sender: Seq<u8>) -> Option<BlindedPathModel> {
    if path.hops.len() > 0 && path.hops[0].recipient == sender {
        match path.hops[0].next {
            Some(next) => Some(BlindedPathModel { introduction: next, hops: path.hops.skip(1) }),
            None => None,
        }
    } else {
        None
    }
}

/// The route that a path is for a sender. A sender that would hand the message straight to
/// a blinded path of which it is the introduction node starts one hop further on.
pub open spec fn route_for(path: PathModel, sender: Seq<u8>) -> Option<RouteModel> {
    match path.destination {
        DestinationModel::Node(id) => {
            let ids = path.intermediate.push(id);
            Some(RouteModel { first: ids[0], hops: hops_along(ids), enters_blinded: false })
        },
        DestinationModel::BlindedPath(blinded) => if path.intermediate.len() > 0 {
            Some(
                RouteModel {
                    first: path.intermediate[0],
                    hops: hops_along(path.intermediate.push(blinded.introduction)).drop_last()
                        + blinded.hops,
                    enters_blinded: true,
                },
            )
        } else if blinded.introduction == sender {
            match advanced(blinded, sender) {
                Some(rest) => Some(
                    RouteModel { first: rest.introduction, hops: rest.hops, enters_blinded: false },
                ),
                None => None,
            }
        } else {
            Some(
                RouteModel {
                    first: blinded.introduction,
                    hops: blinded.hops,
                    enters_blinded: false,
                },
            )
        },
    }
}

/// The hops that lead through `nodes` to the node `end`, without the hop of `end` itself.
fn hops_through(nodes: &Vec<PublicKey>, end: PublicKey) -> (hops: Vec<Hop>)
    ensures
        hop_seq(hops@) == hops_along(key_seq(nodes@).push(end@)).drop_last(),
{
    let ghost ids = key_seq(nodes@).push(end@);
    let ghost all = hops_along(ids);
    let mut hops: Vec<Hop> = Vec::new();
    let mut i: usize = 0;
    while i < nodes.len()
        invariant
            i <= nodes@.len(),
            ids == key_seq(nodes@).push(end@),
            all == hops_along(ids),
            hop_seq(hops@) == all.take(i as int),
        decreases nodes@.len() - i,
    {
        let ghost before = hops@;
        let next_node = if i + 1 < nodes.len() {
            nodes[i + 1]
        } else {
            end
        };
        hops.push(Hop { recipient: nodes[i], next_node_id: Some(next_node) });
        assert(hops@.last()@ == all[i as int]);
        assert(hop_seq(hops@) =~= hop_seq(before).push(hops@.last()@));
        i = i + 1;
        assert(all.take(i as int) =~= all.take(i - 1).push(all[i - 1]));
    }
    assert(all.take(i as int) =~= all.drop_last());
    hops
}

/// The route that `path` is for the node `sender`.
pub fn plan_route(path: OnionMessagePath, sender: &PublicKey) -> (route: Option<Route>)
    ensures
        match route {
            Some(route) => route_for(path@, sender@) == Some(route@),
            None => route_for(path@, sender@) is None,
        },
{
    let nodes = path.intermediate_nodes;
    match path.destination {
        Destination::Node(id) => {
            let mut hops = hops_through(&nodes, id);
            let ghost ids = key_seq(nodes@).push(id@);
            let ghost before = hops@;
            hops.push(Hop { recipient: id, next_node_id: None });
            let first_node = if nodes.len() > 0 {
                nodes[0]
            } else {
                id
            };
            assert(hop_seq(hops@) =~= hops_along(ids)) by {
                assert(hop_seq(hops@) =~= hop_seq(before).push(hops@.last()@));
                assert(hops_along(ids) =~= hops_along(ids).drop_last().push(hops_along(ids).last()));
            }
            Some(Route { first_node, hops, enters_blinded_path: false })
        },
        Destination::BlindedPath(blinded) => if nodes.len() > 0 {
            let mut hops = hops_through(&nodes, blinded.introduction_node_id);
            let mut blinded_hops = blinded.blinded_hops;
            let ghost before = hops@;
            let ghost after = blinded_hops@;
            hops.append(&mut blinded_hops);
            assert(hop_seq(hops@) =~= hop_seq(before) + hop_seq(after));
            Some(Route { first_node: nodes[0], hops, enters_blinded_path: true })
        } else if same_key(&blinded.introduction_node_id, sender) {
            let own_hop = if blinded.blinded_hops.len() > 0 {
                blinded.blinded_hops[0]
            } else {
                return None;
            };
            if !same_key(&own_hop.recipient, sender) {
                return None;
            }
            match own_hop.next_node_id {
                Some(first_node) => {
                    let hops = copy_hops(&blinded.blinded_hops, 1);
                    Some(Route { first_node, hops, enters_blinded_path: false })
                },
                None => None,
            }
        } else {
            Some(
                Route {
                    first_node: blinded.introduction_node_id,
                    hops: blinded.blinded_hops,
                    enters_blinded_path: false,
                },
            )
        },
    }
}

} // verus!
