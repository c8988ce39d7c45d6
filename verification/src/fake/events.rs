//! The events the double queues for `get_next_event_batch`, as the real
//! core would send them.

use vstd::prelude::*;

verus! {

/// One event, without the account it is about.
#[derive(Clone, Copy, Debug, PartialEq, Eq, Structural)]
pub enum FakeEvent {
    ChatModified { chat_id: u32 },
    IncomingMsg { chat_id: u32, msg_id: u32 },
    ChatlistItemChanged { chat_id: u32 },
    ImexProgress { progress: u32 },
    ConfigureProgress { progress: u32 },
    MsgsNoticed { chat_id: u32 },
    MsgsChanged { chat_id: u32, msg_id: u32 },
    ContactsChanged { contact_id: u32 },
    ReactionsChanged { chat_id: u32, contact_id: u32, msg_id: u32 },
    ChatEphemeralTimerModified { chat_id: u32, timer: u32 },
    WebxdcStatusUpdate { msg_id: u32, serial: u64 },
    /// A send that failed, which the real core reports as an `Error` event
    /// saying [`SEND_FAILURE`].
    SendFailed,
}

/// What a failed send is reported with.
pub const SEND_FAILURE: &'static str = "could not send";

/// An event, and the account it is about.
#[derive(Clone, Copy, Debug, PartialEq, Eq, Structural)]
pub struct QueuedEvent {
    pub context_id: u32,
    pub event: FakeEvent,
}

} // verus!
