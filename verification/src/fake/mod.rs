//! A stand-in for the core's server that the app's tests talk to: what it
//! keeps, and how it answers, apart from the wire.

pub mod webxdc;
pub mod input;
pub mod messages;
pub mod days;
pub mod events;
pub mod accounts;
pub mod chats;
pub mod people;
pub mod reactions;
pub mod state;
