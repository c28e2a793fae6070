//! Client-side building blocks for the Tesira Text Protocol (TTP): the wire
//! grammar, the command encoder, the typed command surface and the session
//! state machine. Everything here is pure; reading and writing the byte
//! stream is left to the caller.

pub mod builder;
pub mod catalog;
pub mod datetime;
pub mod decimal;
pub mod proto;
pub mod session;
pub mod text;

pub use builder::CommandBuilder;
pub use datetime::DateTime;
pub use proto::Command;
pub use session::{Error, TesiraSession};
pub mod naming;
