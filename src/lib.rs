//! Persistent binding of touchscreens to video outputs: the identity store,
//! the resolution of stored identities to live input nodes and pointer ids,
//! and the bind commands that follow from them.
pub mod error;
pub mod text;
pub mod config;
pub mod node;
pub mod pointer;
pub mod outputs;
pub mod assign;
