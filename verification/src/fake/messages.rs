//! The messages the double holds, shaped like the real core's: the seeded
//! ones, what they say, and when they were sent.

use vstd::prelude::*;

use crate::text::{decimal, with_number};

verus! {

/// `DC_CONTACT_ID_SELF`: the account's own contact.
pub const SELF: u32 = 1;

/// The contact the seeded messages are from.
pub const ADA: u32 = 10;

/// The beginning of the long message, which is all that fits in its text.
pub const LONG_MESSAGE_HEAD: &'static str = "# Groceries";

/// The marker the sending core ends a message it had to cut with.
pub const CUT_MARKER: &'static str = "\n[...]";

/// The whole of the long message, as the core gives it out: an HTML part,
/// with each line of the message ending in `<br/>` and a newline.
pub const LONG_MESSAGE_HTML: &'static str = "<!DOCTYPE html>\n<html><head>\n<meta http-equiv=\"Content-Type\" content=\"text/html; charset=utf-8\" />\n<meta name=\"color-scheme\" content=\"light dark\" />\n</head><body dir=\"auto\" style=\"unicode-bidi: plaintext\">\nGroceries<br/>\nmilk<br/>\nbread<br/>\nand a &amp; sign<br/>\n</body></html>\n";

/// The message the sending core cut, whose whole is only behind its HTML.
pub const CUT_MESSAGE: u64 = 11;

/// What follows a message's words when the double is asked to be wordy.
pub const WORDY_TAIL: &'static str = ", and then a good deal more of it, long enough that where it wraps depends on how wide the row is drawn";

/// The notice that opens a real chat.
pub const ENCRYPTION_NOTICE: &'static str = "Messages are end-to-end encrypted.";

/// What message `msg` says: `message ` and its id, and more of it when
/// the double is asked to be wordy.
pub open spec fn words_of(msg: u64, wordy: bool) -> Seq<char> {
    let short = "message "@ + decimal(msg as nat);
    if wordy {
        short + WORDY_TAIL@
    } else {
        short
    }
}

/// What a message says. Short by default; `wordy` makes it long enough
/// to wrap, so a row's height depends on how wide it is drawn.
pub fn wordy(msg: u64, long: bool) -> (text: String)
    ensures
        text@ == words_of(msg, long),
{
    let mut text = with_number("message ", msg);
    if long {
        text.append(WORDY_TAIL);
    }
    text
}

/// When message `msg` was sent: 2023-11-14T22:13:20Z for the first, and
/// a day later for every other, so a day separator has something to
/// separate.
pub open spec fn sent_at(msg: u64) -> i64 {
    if msg == 1 {
        1_700_000_000i64
    } else {
        1_700_090_000i64
    }
}

/// When a message was sent: 2023-11-14T22:13:20Z for the first, and a
/// day later for every other, so a day separator has something to
/// separate.
pub fn message_timestamp(msg: u64) -> (at: i64)
    ensures
        at == sent_at(msg),
{
    if msg == 1 {
        1_700_000_000
    } else {
        1_700_090_000
    }
}

/// The state of a fresh incoming message.
pub const STATE_IN_FRESH: u32 = 10;

/// The state of a seen incoming message.
pub const STATE_IN_SEEN: u32 = 16;

/// The state of a noticed incoming message.
pub const STATE_IN_NOTICED: u32 = 13;

/// What a message quotes.
pub enum Quote {
    /// A quote with no message behind it: its text and author.
    Plain { text: String, author: String },
    /// The real core's `WithMessage` quote: the quoted message beside its
    /// text and author.
    WithMessage { message_id: u32, text: String, author: String },
}

/// The file a message carries.
pub struct Attachment {
    pub path: String,
    pub name: String,
    /// Its type, when the core reports one.
    pub mime: Option<String>,
    /// Its size in bytes, when the core reports one.
    pub bytes: Option<u64>,
}

/// One seeded message, as the real core shapes one.
pub struct SeededMessage {
    pub text: String,
    pub from_id: u32,
    pub timestamp: i64,
    pub state: u32,
    pub is_info: bool,
    pub view_type: String,
    pub quote: Option<Quote>,
    pub file: Option<Attachment>,
    pub width: u32,
    pub height: u32,
    /// The whole of it is only behind its HTML.
    pub has_html: bool,
}

/// The kind of file a seeded message carries, by id: `(view type, path,
/// name, mime, bytes)`.
pub open spec fn seeded_file(msg: u64) -> Option<(Seq<char>, Seq<char>, Seq<char>, Option<Seq<char>>, Option<u64>)> {
    if msg == 10 {
        Some(("Image"@, "/tmp/postivene-fake/photo.jpg"@, "photo.jpg"@, None, None))
    } else if msg == 12 {
        Some(("File"@, "/tmp/postivene-fake/notes.pdf"@, "notes.pdf"@, Some("application/pdf"@), Some(20_480u64)))
    } else if msg == 13 {
        Some(("Voice"@, "/tmp/postivene-fake/voice.aac"@, "voice.aac"@, Some("audio/aac"@), Some(4_096u64)))
    } else if msg == 14 {
        Some(("Webxdc"@, "/tmp/postivene-fake/checkers.xdc"@, "checkers.xdc"@, Some("application/webxdc+zip"@), Some(8_192u64)))
    } else if msg == 15 {
        Some(("Video"@, "/tmp/postivene-fake/clip.mp4"@, "clip.mp4"@, Some("video/mp4"@), Some(1_048_576u64)))
    } else {
        None
    }
}

/// What a seeded message says: the notice for the first message when a
/// test asks for one, the cut text of the long message, else its words.
pub open spec fn seeded_text(msg: u64, info_first: bool, wordy: bool) -> Seq<char> {
    if msg == CUT_MESSAGE {
        LONG_MESSAGE_HEAD@ + CUT_MARKER@
    } else if msg == 1 && info_first {
        ENCRYPTION_NOTICE@
    } else {
        words_of(msg, wordy)
    }
}

/// The view type of a seeded message: that of its file, else text.
pub open spec fn seeded_view_type(msg: u64) -> Seq<char> {
    match seeded_file(msg) {
        Some((view, _, _, _, _)) => view,
        None => "Text"@,
    }
}

/// What a seeded message quotes: message 1 quotes Grace, the rest nothing.
pub open spec fn seeded_quote(quote: Option<Quote>, msg: u64) -> bool {
    match quote {
        Some(Quote::Plain { text, author }) => msg == 1 && text@ == "earlier"@ && author@ == "Grace Hopper"@,
        Some(Quote::WithMessage { .. }) => false,
        None => msg != 1,
    }
}

impl SeededMessage {
    /// The message is the one seeded under `msg`: what it says, who sent
    /// it, when, its state, and the file it carries.
    pub open spec fn seeded_as(&self, msg: u64, info_first: bool, wordy: bool) -> bool {
        &&& self.text@ == seeded_text(msg, info_first, wordy)
        &&& self.from_id == ADA
        &&& self.view_type@ == seeded_view_type(msg)
        &&& seeded_quote(self.quote, msg)
        &&& self.keeps_seeded(msg, info_first)
    }

    /// What of the seeded message under `msg` nothing sent later changes:
    /// when it was sent, its state, whether it is a notice, its file and
    /// its size.
    pub open spec fn keeps_seeded(&self, msg: u64, info_first: bool) -> bool {
        &&& self.timestamp == (if msg == 1 { 1_700_000_000i64 } else { 1_700_090_000i64 })
        &&& self.state == (if msg == 2 || msg > 100 { STATE_IN_FRESH } else { STATE_IN_SEEN })
        &&& self.is_info == (msg == 1 && info_first)
        &&& self.has_html == (msg == CUT_MESSAGE)
        &&& match seeded_file(msg) {
            Some((_, path, name, mime, bytes)) => {
                &&& self.file is Some
                &&& self.file.unwrap().path@ == path
                &&& self.file.unwrap().name@ == name
                &&& self.file.unwrap().bytes == bytes
                &&& match mime {
                    Some(m) => self.file.unwrap().mime is Some && self.file.unwrap().mime.unwrap()@ == m,
                    None => self.file.unwrap().mime is None,
                }
            },
            None => self.file is None,
        }
        &&& (if msg == 10 { self.width == 640 && self.height == 480 } else { self.width == 0 && self.height == 0 })
    }
}

fn attachment(path: &str, name: &str, mime: Option<&str>, bytes: Option<u64>) -> (a: Attachment)
    ensures
        a.path@ == path@,
        a.name@ == name@,
        a.bytes == bytes,
        match mime {
            Some(m) => a.mime is Some && a.mime.unwrap()@ == m@,
            None => a.mime is None,
        },
{
    Attachment {
        path: path.to_owned(),
        name: name.to_owned(),
        mime: match mime {
            Some(m) => Some(m.to_owned()),
            None => None,
        },
        bytes,
    }
}

/// One message, shaped like the real core's. Message 1 quotes, 2 is
/// unread, 10 carries a picture, 11 was cut by its sender, 12 to 15 carry
/// a file of each other kind the media pages list, and anything added
/// while a test runs is unread.
pub fn message_object(msg: u64, info_first: bool, wordy_text: bool) -> (m: SeededMessage)
    ensures
        m.seeded_as(msg, info_first, wordy_text),
{
    let info = msg == 1 && info_first;
    let text = if msg == CUT_MESSAGE {
        let mut t = LONG_MESSAGE_HEAD.to_owned();
        t.append(CUT_MARKER);
        t
    } else if info {
        ENCRYPTION_NOTICE.to_owned()
    } else {
        wordy(msg, wordy_text)
    };
    let quote = if msg == 1 {
        Some(Quote::Plain { text: "earlier".to_owned(), author: "Grace Hopper".to_owned() })
    } else {
        None
    };
    let (view_type, file) = if msg == 10 {
        ("Image", Some(attachment("/tmp/postivene-fake/photo.jpg", "photo.jpg", None, None)))
    } else if msg == 12 {
        (
            "File",
            Some(
                attachment(
                    "/tmp/postivene-fake/notes.pdf",
                    "notes.pdf",
                    Some("application/pdf"),
                    Some(20_480),
                ),
            ),
        )
    } else if msg == 13 {
        (
            "Voice",
            Some(
                attachment(
                    "/tmp/postivene-fake/voice.aac",
                    "voice.aac",
                    Some("audio/aac"),
                    Some(4_096),
                ),
            ),
        )
    } else if msg == 14 {
        (
            "Webxdc",
            Some(
                attachment(
                    "/tmp/postivene-fake/checkers.xdc",
                    "checkers.xdc",
                    Some("application/webxdc+zip"),
                    Some(8_192),
                ),
            ),
        )
    } else if msg == 15 {
        (
            "Video",
            Some(
                attachment(
                    "/tmp/postivene-fake/clip.mp4",
                    "clip.mp4",
                    Some("video/mp4"),
                    Some(1_048_576),
                ),
            ),
        )
    } else {
        ("Text", None)
    };
    let (width, height) = if msg == 10 { (640u32, 480u32) } else { (0u32, 0u32) };
    SeededMessage {
        text,
        from_id: ADA,
        timestamp: message_timestamp(msg),
        state: if msg == 2 || msg > 100 { STATE_IN_FRESH } else { STATE_IN_SEEN },
        is_info: info,
        view_type: view_type.to_owned(),
        quote,
        file,
        width,
        height,
        has_html: msg == CUT_MESSAGE,
    }
}

} // verus!

verus! {

/// The whole of a message as HTML: only the one its sender cut has one;
/// every other message is already whole.
pub fn message_html(msg: u64) -> (html: Option<&'static str>)
    ensures
        html == (if msg == CUT_MESSAGE { Some(LONG_MESSAGE_HTML) } else { None }),
{
    if msg == CUT_MESSAGE {
        Some(LONG_MESSAGE_HTML)
    } else {
        None
    }
}

} // verus!
