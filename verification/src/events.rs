//! What the page is told of each event off the core's stream, and of a
//! code the core classified.

use vstd::prelude::*;

use crate::text::same_text;

verus! {

/// What the relay reads off one event: the account it is about, its
/// `kind` (empty when it has none), its `msg` (empty when it has none),
/// and its `progress` when that is a number that fits.
pub struct EventFacts {
    pub context_id: u32,
    pub kind: String,
    pub msg: String,
    pub progress: Option<u32>,
}

/// The signals one event fires, in the order they are fired.
pub struct Relayed {
    /// `core_error`, for an `Error` event: its message, or a sentence of
    /// this app's own when it has none.
    pub core_error: Option<String>,
    /// `configure_progress`, for a `ConfigureProgress` event with a
    /// progress: the account and the permille.
    pub configure_progress: Option<(u32, u32)>,
    /// `restore_progress`, for an `ImexProgress` event with a progress.
    pub restore_progress: Option<u32>,
    /// The profile's unread count is to be read again: an event that could
    /// have moved it.
    pub refresh_unread: bool,
    /// `core_event`, always: the event's kind, or `Unknown`.
    pub kind: String,
}

/// The sentence for an `Error` event that carries no message.
pub const UNSPOKEN_ERROR: &'static str = "the core reported an error";

/// The events after which a profile's unread count may have moved.
pub open spec fn moves_unread(kind: Seq<char>) -> bool {
    ||| kind == "IncomingMsg"@
    ||| kind == "IncomingMsgBunch"@
    ||| kind == "MsgsChanged"@
    ||| kind == "MsgsNoticed"@
    ||| kind == "ChatModified"@
    ||| kind == "ChatDeleted"@
    ||| kind == "ChatlistChanged"@
    ||| kind == "ChatlistItemChanged"@
    ||| kind == "EventChannelOverflow"@
}

fn unread_may_have_moved(kind: &str) -> (yes: bool)
    ensures
        yes == moves_unread(kind@),
{
    same_text(kind, "IncomingMsg") || same_text(kind, "IncomingMsgBunch") || same_text(
        kind,
        "MsgsChanged",
    ) || same_text(kind, "MsgsNoticed") || same_text(kind, "ChatModified") || same_text(
        kind,
        "ChatDeleted",
    ) || same_text(kind, "ChatlistChanged") || same_text(kind, "ChatlistItemChanged")
        || same_text(kind, "EventChannelOverflow")
}

/// `text`, or `fallback` when it is empty.
pub open spec fn or_else(text: Seq<char>, fallback: Seq<char>) -> Seq<char> {
    if text.len() == 0 {
        fallback
    } else {
        text
    }
}

fn text_or(text: &String, fallback: &str) -> (t: String)
    ensures
        t@ == or_else(text@, fallback@),
{
    if text.as_str().unicode_len() == 0 {
        fallback.to_owned()
    } else {
        text.clone()
    }
}

/// One event off the stream, as the signals the page listens for: every
/// event is relayed with its kind; an error is said as one, a configure
/// or an import reports its progress, and the events that could have moved
/// an unread count have it read again.
pub fn relay(event: &EventFacts) -> (out: Relayed)
    ensures
        out.kind@ == or_else(event.kind@, "Unknown"@),
        match out.core_error {
            Some(text) => out.kind@ == "Error"@ && text@ == or_else(event.msg@, UNSPOKEN_ERROR@),
            None => out.kind@ != "Error"@,
        },
        out.configure_progress == (if out.kind@ == "ConfigureProgress"@ && event.progress is Some {
            Some((event.context_id, event.progress.unwrap()))
        } else {
            None
        }),
        out.restore_progress == (if out.kind@ == "ImexProgress"@ {
            event.progress
        } else {
            None
        }),
        out.refresh_unread == (out.kind@ == "IncomingMsg"@ || out.kind@ == "IncomingMsgBunch"@
            || out.kind@ == "MsgsChanged"@ || out.kind@ == "MsgsNoticed"@ || out.kind@ == "ChatModified"@
            || out.kind@ == "ChatDeleted"@ || out.kind@ == "ChatlistChanged"@ || out.kind@
            == "ChatlistItemChanged"@ || out.kind@ == "EventChannelOverflow"@),
{
    let kind = text_or(&event.kind, "Unknown");
    let core_error = if same_text(kind.as_str(), "Error") {
        Some(text_or(&event.msg, UNSPOKEN_ERROR))
    } else {
        None
    };
    let configure_progress = if same_text(kind.as_str(), "ConfigureProgress") {
        match event.progress {
            Some(permille) => Some((event.context_id, permille)),
            None => None,
        }
    } else {
        None
    };
    let restore_progress = if same_text(kind.as_str(), "ImexProgress") {
        event.progress
    } else {
        None
    };
    let refresh_unread = unread_may_have_moved(kind.as_str());
    Relayed { core_error, configure_progress, restore_progress, refresh_unread, kind }
}

/// A message arriving, one being read, changed or deleted, and a chat or
/// the chat list changing are each an event after which the unread count
/// is read again; so is a stream that overflowed and lost events. No other
/// kind has it read again.
pub proof fn unread_is_read_again_exactly_after(kind: Seq<char>)
    ensures
        kind == "IncomingMsg"@ ==> moves_unread(kind),
        kind == "IncomingMsgBunch"@ ==> moves_unread(kind),
        kind == "MsgsChanged"@ ==> moves_unread(kind),
        kind == "MsgsNoticed"@ ==> moves_unread(kind),
        kind == "ChatModified"@ ==> moves_unread(kind),
        kind == "ChatDeleted"@ ==> moves_unread(kind),
        kind == "ChatlistChanged"@ ==> moves_unread(kind),
        kind == "ChatlistItemChanged"@ ==> moves_unread(kind),
        kind == "EventChannelOverflow"@ ==> moves_unread(kind),
        moves_unread(kind) ==> kind == "IncomingMsg"@ || kind == "IncomingMsgBunch"@ || kind == "MsgsChanged"@
            || kind == "MsgsNoticed"@ || kind == "ChatModified"@ || kind == "ChatDeleted"@ || kind
            == "ChatlistChanged"@ || kind == "ChatlistItemChanged"@ || kind == "EventChannelOverflow"@,
{
}

/// The kind a classified code is told with: the core's own, or `unknown`.
pub fn qr_kind(kind: &String) -> (told: String)
    ensures
        told@ == or_else(kind@, "unknown"@),
{
    text_or(kind, "unknown")
}

} // verus!
