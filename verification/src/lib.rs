//! The logic of a Delta Chat client shim, and of the core double its tests
//! talk to, with the contracts that hold of it.

pub mod accounts;
pub mod events;
pub mod fake;
pub mod idset;
pub mod launch;
pub mod session;
pub mod signup;
pub mod supervisor;
pub mod text;
