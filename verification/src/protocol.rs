//! The messages the phone and the PC exchange, one JSON object per line.

use vstd::prelude::*;

verus! {

/// Version of the pairing and hello handshakes.
pub const PROTOCOL_VERSION: u32 = 1;

/// One file of a synced folder, as one side lists it.
#[derive(Debug, Clone)]
pub struct SyncEntry {
    pub path: String,
    pub size: u64,
    pub mtime: i64,
}

impl View for SyncEntry {
    type V = (Seq<char>, u64, i64);

    open spec fn view(&self) -> (Seq<char>, u64, i64) {
        (self.path@, self.size, self.mtime)
    }
}

impl SyncEntry {
    /// A copy of this entry.
    pub fn copied(&self) -> (r: SyncEntry)
        ensures
            r@ == self@,
    {
        SyncEntry { path: self.path.clone(), size: self.size, mtime: self.mtime }
    }
}

/// A protocol message. On the wire it is a JSON object whose `type` is the
/// variant's name in snake case.
#[derive(Debug, Clone)]
pub enum Message {
    PairRequest { version: u32, token: String, device_name: String },
    PairOk { device_name: String },
    PairRejected { reason: String },
    Ping { seq: u64, sent_at_ms: u64 },
    Pong { seq: u64, sent_at_ms: u64 },
    Hello { version: u32, device_name: String },
    HelloOk { device_name: String },
    NotTrusted,
    Notification { key: String, app: String, title: String, body: String, can_reply: bool },
    NotificationDismissed { key: String },
    Clipboard { text: String },
    NotificationReply { key: String, text: String },
    Handoff { url: String, title: String },
    OpenUrl { url: String, title: String },
    PcVolume { action: String, value: i32 },
    PhoneVolume { action: String, value: i32 },
    PcMedia { action: String },
    PhoneMedia { action: String },
    MediaInfo { title: String, artist: String, playing: bool },
    Subscribe,
    FileStart { name: String, size: u64, clipboard: bool },
    FilePull { id: String },
    FileOffer { id: String, name: String, size: u64, clipboard: bool },
    Battery { level: i32, charging: bool },
    Dnd { on: bool },
    WebcamStart { width: u32, height: u32 },
    MicStart { sample_rate: u32, channels: u32 },
    SpeakerStart { sample_rate: u32, channels: u32 },
    DisplayStart { width: u32, height: u32, fps: u32 },
    DisplayInvite,
    SyncIndex { folder: String, files: Vec<SyncEntry> },
    /// The plain acknowledgement; its wire name is `ok`.
    Ack,
}

} // verus!
