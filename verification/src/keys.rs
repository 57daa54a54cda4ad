//! Node keys: public keys as plain bytes, and the keys that a seed gives.
use vstd::prelude::*;

verus! {

/// A compressed secp256k1 public key. A node is known by one.
#[derive(Clone, Copy, Debug, PartialEq, Eq, Hash)]
pub struct PublicKey {
    pub bytes: [u8; 33],
}

impl View for PublicKey {
    type V = Seq<u8>;

    open spec fn view(&self) -> Seq<u8> {
        self.bytes@
    }
}

/// Whether two keys hold the same bytes.
pub fn same_key(a: &PublicKey, b: &PublicKey) -> (same: bool)
    ensures
        same == (a@ == b@),
{
    let mut i: usize = 0;
    while i < 33
        invariant
            i <= 33,
            forall|j: int| 0 <= j < i ==> a@[j] == b@[j],
        decreases 33 - i,
    {
        if a.bytes[i] != b.bytes[i] {
            assert(a@[i as int] != b@[i as int]);
            return false;
        }
        i = i + 1;
    }
    assert(a@ =~= b@);
    true
}

/// The chain that a key is labelled with.
#[derive(Clone, Copy, Debug, PartialEq, Eq, Structural)]
pub enum Network {
    Bitcoin,
    Testnet,
    Signet,
    Regtest,
}

/// The number that bytes stand for, the most significant byte first.
pub open spec fn be_value(bytes: Seq<u8>) -> nat
    decreases bytes.len(),
{
    if bytes.len() == 0 {
        0
    } else {
        be_value(bytes.drop_last()) * 256 + bytes.last() as nat
    }
}

/// The order of the secp256k1 group.
pub open spec fn curve_order() -> nat {
    0xFFFFFFFFFFFFFFFFFFFFFFFFFFFFFFFEBAAEDCE6AF48A03BBFD25E8CD0364141nat
}

/// Whether bytes are a secret key: 32 of them, standing for a number above zero and
/// below the group's order.
pub open spec fn is_secret_key(bytes: Seq<u8>) -> bool {
    bytes.len() == 32 && 0 < be_value(bytes) < curve_order()
}

/// What `bitcoin::util::bip32::Error` is to this crate: a value that is only passed on.
#[verifier::external_type_specification]
#[verifier::external_body]
pub struct ExBip32Error(bitcoin::util::bip32::Error);

/// Names the secret of the extended key that `ExtendedPrivKey::new_master` makes from a
/// seed, or `None` where it makes none.
pub uninterp spec fn master_secret(seed: Seq<u8>) -> Option<Seq<u8>>;

/// Names the compressed public key that `PublicKey::from_secret_key` computes from a secret.
pub uninterp spec fn public_of_secret(secret: Seq<u8>) -> Seq<u8>;

/// Calls `bitcoin::util::bip32::ExtendedPrivKey::new_master` and hands out the private key
/// of what it returns. Trusted: which secret comes out, and whether one does, is a function
/// of the seed alone (the network only labels the extended key), and a secret that comes
/// out is a valid one.
#[verifier::external_body]
fn new_master(network: Network, seed: &[u8; 32]) -> (secret: Result<
    [u8; 32],
    bitcoin::util::bip32::Error,
>)
    ensures
        match secret {
            Ok(key) => master_secret(seed@) == Some(key@) && is_secret_key(key@),
            Err(_) => master_secret(seed@) is None,
        },
{
    let network = match network {
        Network::Bitcoin => bitcoin::Network::Bitcoin,
        Network::Testnet => bitcoin::Network::Testnet,
        Network::Signet => bitcoin::Network::Signet,
        Network::Regtest => bitcoin::Network::Regtest,
    };
    let master = bitcoin::util::bip32::ExtendedPrivKey::new_master(network, seed)?;
    Ok(master.private_key.secret_bytes())
}

/// Calls `bitcoin::secp256k1::PublicKey::from_secret_key`, in a fresh context, and hands
/// out the key in compressed form. Trusted: which key comes out is a function of the secret
/// alone.
#[verifier::external_body]
fn from_secret_key(secret: &[u8; 32]) -> (public: [u8; 33])
    requires
        is_secret_key(secret@),
    ensures
        public@ == public_of_secret(secret@),
{
    let secp_ctx = bitcoin::secp256k1::Secp256k1::new();
    let key = bitcoin::secp256k1::SecretKey::from_slice(secret).expect("a valid secret key");
    bitcoin::secp256k1::PublicKey::from_secret_key(&secp_ctx, &key).serialize()
}

/// The node key that a seed gives, or `None` where it gives none.
pub open spec fn node_key_of_seed(seed: Seq<u8>) -> Option<Seq<u8>> {
    match master_secret(seed) {
        Some(secret) => Some(public_of_secret(secret)),
        None => None,
    }
}

/// A seed gave no key.
#[derive(Clone, Copy, Debug, PartialEq, Eq, Structural)]
pub struct NoKey;

/// The keys of one node.
#[derive(Debug)]
pub struct TestKeysInterface {
    node_id: PublicKey,
}

impl TestKeysInterface {
    /// The node's public key.
    pub closed spec fn spec_node_id(&self) -> Seq<u8> {
        self.node_id@
    }

    /// The keys of `seed`. The key that a seed gives is the same on every network.
    pub fn new(seed: &[u8; 32], network: Network) -> (keys: Result<TestKeysInterface, NoKey>)
        ensures
            match keys {
                Ok(keys) => node_key_of_seed(seed@) == Some(keys.spec_node_id()),
                Err(_) => node_key_of_seed(seed@) is None,
            },
    {
        match new_master(network, seed) {
            Ok(node_secret) => {
                let node_id = PublicKey { bytes: from_secret_key(&node_secret) };
                Ok(TestKeysInterface { node_id })
            },
            Err(_) => Err(NoKey),
        }
    }

    /// The public key that other nodes know this one by.
    pub fn get_node_id(&self) -> (id: PublicKey)
        ensures
            id@ == self.spec_node_id(),
    {
        self.node_id
    }
}

} // verus!
