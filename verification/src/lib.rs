//! Decoding and encoding of TeamSpeak commands and of the stream messages
//! that travel in them.
//!
//! A command is a name followed by `name=value` arguments, with `|` starting
//! another part (`commands`, `escape`). A message gives the arguments of each
//! part names and types (`message`, `fields`); the stream messages in each
//! direction are in `messages::s2c` and `messages::c2s`.
use vstd::prelude::*;

pub mod commands;
pub mod escape;
pub mod fields;
pub mod ids;
pub mod message;
pub mod messages;
pub mod numbers;
pub mod packets;
pub mod uid;
pub mod utf8;

pub use fields::ParseError;
pub use ids::{ClientId, IconId};

verus! {

} // verus!
