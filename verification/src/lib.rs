//! One party's side of a GG18-style threshold ECDSA engine: the keys and
//! entries of the relay, the collection of a round's messages from the other
//! parties, the sealing of secret shares for their receivers, and the
//! sequence of rounds in key generation and signing. Nothing here performs
//! input or output: the library says what to send and what to ask for, and
//! takes what came back.

pub mod curv;
pub mod common;
pub mod gg_2018;
pub mod relay;
pub mod api;
