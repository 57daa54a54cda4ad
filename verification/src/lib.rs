//! A network of onion messengers to try messages out on.
//!
//! [`nodes::create_nodes`] sets up a row of nodes, each connected to the next. A node's
//! messenger takes messages in to send along a path, in the open or blinded
//! ([`messenger::OnionMessenger::send_onion_message`]), and
//! [`nodes::pass_along_path`] then passes a message on from node to node, until the last
//! one has received it. Sealing is symbolic: a layer of an onion names the node that it is
//! sealed to, and only that node's messenger opens it. Lengths are those that sealed
//! messages have on the wire.
//!
//! What holds of all this as a whole, above all that a message that was sent arrives, is
//! stated and proved in [`laws`]. What each operation does, told by what goes in and what
//! comes out, is stated and proved in [`meaning`].
pub mod buffers;
pub mod custom;
pub mod features;
pub mod keys;
pub mod laws;
pub mod logger;
pub mod meaning;
pub mod messenger;
pub mod nodes;
pub mod packet;
pub mod path;
