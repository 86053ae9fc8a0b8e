//! A personal mobile message queue: typed items travel from a publisher,
//! through a server that keeps them in order, to one subscriber that may
//! change its address at any time. Every datagram is sealed with AES-128-GCM
//! under a pre-shared key.
//!
//! The library holds the logic: the message types and their binary wire
//! format, the sealed envelope, the delivery queue, and the decision steps
//! of the server and of the client. Sockets, timers and process handling
//! live in the program around it.

pub mod types;
pub mod queue;
pub mod wire;
pub mod crypto;
pub mod keyhex;
pub mod codec;
pub mod server;
pub mod client;
