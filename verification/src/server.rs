//! What the daemon does with each message a phone sends on a stream:
//! pairing, the trust check, and the request each message stands for.

use vstd::prelude::*;
use crate::identity::{trusts, TrustedPeers};
use crate::protocol::{Message, SyncEntry, PROTOCOL_VERSION};
use crate::text::{chars_of, decimal, push_decimal, push_str_of};

verus! {

/// Whether two tokens are equal, comparing every character whatever the
/// first difference.
pub fn constant_time_eq(a: &str, b: &str) -> (r: bool)
    ensures
        r == (a@ == b@),
{
    let x = chars_of(a);
    let y = chars_of(b);
    if x.len() != y.len() {
        return false;
    }
    let mut same = true;
    let mut i: usize = 0;
    while i < x.len()
        invariant
            i <= x@.len(),
            x@.len() == y@.len(),
            same == (forall|k: int| 0 <= k < i ==> x@[k] == y@[k]),
        decreases x@.len() - i,
    {
        let eq = x[i] == y[i];
        same = if eq {
            same
        } else {
            false
        };
        i = i + 1;
    }
    proof {
        if same {
            assert(x@ =~= y@);
        }
    }
    same
}

/// Whether the stream speaks for a trusted phone: it paired on this
/// stream, or its certificate fingerprint is in the trust store.
pub fn stream_trusted(session_trusted: bool, peers: &TrustedPeers, peer_fp: Option<&str>) -> (t: bool)
    ensures
        t == (session_trusted || (peer_fp matches Some(fp) && trusts(peers@, fp@))),
{
    if session_trusted {
        return true;
    }
    match peer_fp {
        Some(fp) => peers.is_trusted(fp),
        None => false,
    }
}

/// What the daemon does for one message. The requests that end with `Ack`
/// are answered with it once done; the streaming ones take the stream over.
#[derive(Debug)]
pub enum StreamAction {
    /// Send this reply.
    Reply(Message),
    /// Trust the phone (name, certificate fingerprint), mark the stream
    /// trusted, close the pairing window, and send the reply.
    Paired { device_name: String, fingerprint: String, reply: Message },
    /// Show a phone notification; `Ack`.
    Notify { key: String, app: String, title: String, body: String, can_reply: bool },
    /// Withdraw a phone notification; `Ack`.
    Dismiss { key: String },
    /// Put text on the PC's clipboard; `Ack`.
    SetClipboard { text: String },
    /// Offer a page handed off from the phone; `Ack`.
    Handoff { url: String, title: String },
    /// Record the phone's battery; `Ack`.
    Battery { level: i32, charging: bool },
    /// Mirror do-not-disturb from the phone; `Ack`.
    Dnd { on: bool },
    /// Change the PC's volume; `Ack`.
    Volume { action: String, value: i32 },
    /// Control the PC's media player; `Ack`.
    Media { action: String },
    /// Feed the phone's camera into the virtual webcam.
    Webcam { width: u32, height: u32 },
    /// Feed the phone's microphone into the virtual source.
    Mic { sample_rate: u32, channels: u32 },
    /// Stream the PC's sound to the phone.
    Speaker { sample_rate: u32, channels: u32 },
    /// Run the second screen.
    Display { width: u32, height: u32, fps: u32 },
    /// Sync a folder.
    Sync { folder: String, files: Vec<SyncEntry> },
    /// Receive a file (or a clipboard image).
    ReceiveFile { name: String, size: u64, clipboard: bool },
    /// Send a file the PC offered earlier.
    SendFile { id: String },
    /// Keep the stream for pushes from the PC.
    Subscribe,
    /// Not a request the PC serves: read the next line.
    Ignore,
}

/// The reason given when the pairing handshake speaks another version.
pub open spec fn version_reason(version: u32) -> Seq<char> {
    "version "@ + decimal(version as nat) + " not supported"@
}

/// The reason given when the PC is not showing a pairing code.
pub open spec fn not_pairing_reason() -> Seq<char> {
    "the PC is not in pairing mode (\"Pair a device…\")"@
}

/// The reason given for a wrong token or a phone without a certificate.
pub open spec fn invalid_token_reason() -> Seq<char> {
    "invalid token"@
}

/// How a pairing request is judged.
#[derive(Debug, Clone, Copy, PartialEq, Eq)]
pub enum PairVerdict {
    WrongVersion,
    NotPairing,
    InvalidToken,
    Accepted,
}

/// The verdict on a pairing request: the version must be this protocol's,
/// the PC must be showing a token, the phone must have presented a
/// certificate, and the token must match.
pub open spec fn pair_verdict(version: u32, token: Seq<char>, pairing_token: Option<Seq<char>>, has_fp: bool) -> PairVerdict {
    if version != PROTOCOL_VERSION {
        PairVerdict::WrongVersion
    } else {
        match pairing_token {
            None => PairVerdict::NotPairing,
            Some(t) => if has_fp && t == token {
                PairVerdict::Accepted
            } else {
                PairVerdict::InvalidToken
            },
        }
    }
}

/// The view of an optional `&str`.
pub open spec fn opt_view(s: Option<&str>) -> Option<Seq<char>> {
    match s {
        Some(x) => Some(x@),
        None => None,
    }
}

/// What `pair` returns in each case: `PairRejected` with the matching
/// message, or the phone to trust with `PairOk` naming this PC.
pub open spec fn pair_answer(a: StreamAction, v: PairVerdict, device_name: String, peer_fp: Option<&str>, pc_name: &str) -> bool {
    match v {
        PairVerdict::WrongVersion => false,
        PairVerdict::NotPairing => (a matches StreamAction::Reply(Message::PairRejected { reason }) && reason@ == not_pairing_reason()),
        PairVerdict::InvalidToken => (a matches StreamAction::Reply(Message::PairRejected { reason }) && reason@ == invalid_token_reason()),
        PairVerdict::Accepted => (a matches StreamAction::Paired { device_name: n, fingerprint: f, reply: Message::PairOk { device_name: pc } } && n == device_name && Some(f@) == opt_view(peer_fp) && pc@ == pc_name@),
    }
}

/// A `String` holding the text of `s`.
fn lit(s: &str) -> (r: String)
    ensures
        r@ == s@,
{
    let mut r = String::new();
    push_str_of(&mut r, s);
    assert(r@ =~= s@);
    r
}

/// The answer to a pairing request: accepted when it speaks the protocol
/// version, the PC shows a pairing token, the phone presented a
/// certificate and the token matches.
pub fn pair(version: u32, token: String, device_name: String, pairing_token: Option<&str>, peer_fp: Option<&str>, pc_name: &str) -> (a: StreamAction)
    ensures
        version != PROTOCOL_VERSION ==> (a matches StreamAction::Reply(Message::PairRejected { reason }) && reason@ == version_reason(version)),
        version == PROTOCOL_VERSION ==> pair_answer(a, pair_verdict(version, token@, opt_view(pairing_token), peer_fp is Some), device_name, peer_fp, pc_name),
{
    if version != PROTOCOL_VERSION {
        let mut reason = lit("version ");
        push_decimal(&mut reason, version as u64);
        push_str_of(&mut reason, " not supported");
        return StreamAction::Reply(Message::PairRejected { reason });
    }
    match (pairing_token, peer_fp) {
        (Some(expected), Some(fp)) => {
            if constant_time_eq(expected, token.as_str()) {
                StreamAction::Paired {
                    device_name,
                    fingerprint: lit(fp),
                    reply: Message::PairOk { device_name: lit(pc_name) },
                }
            } else {
                StreamAction::Reply(Message::PairRejected { reason: lit("invalid token") })
            }
        },
        (None, _) => StreamAction::Reply(
            Message::PairRejected { reason: lit("the PC is not in pairing mode (\"Pair a device…\")") },
        ),
        _ => StreamAction::Reply(Message::PairRejected { reason: lit("invalid token") }),
    }
}

/// Whether `msg` is a request that only a trusted phone may make.
pub open spec fn trusted_only(msg: Message) -> bool {
    match msg {
        Message::Hello { .. } | Message::Ping { .. } | Message::Notification { .. }
        | Message::NotificationDismissed { .. } | Message::Clipboard { .. } | Message::Handoff {
            ..
        } | Message::PcVolume { .. } | Message::PcMedia { .. } | Message::Battery { .. }
        | Message::Dnd { .. } | Message::WebcamStart { .. } | Message::MicStart { .. }
        | Message::SpeakerStart { .. } | Message::DisplayStart { .. } | Message::SyncIndex { .. }
        | Message::FileStart { .. } | Message::FilePull { .. } | Message::Subscribe => true,
        _ => false,
    }
}

/// What the daemon does with `msg` on a stream that is `trusted` or not.
/// A pairing request goes to `pair`; a trusted-only request from an
/// untrusted phone is answered `NotTrusted`; a trusted one is carried out
/// with exactly the values it brought (pings answered with a pong that
/// echoes them, hellos with this PC's name); a message the PC does not
/// serve is skipped.
pub fn respond(msg: Message, trusted: bool, pairing_token: Option<&str>, peer_fp: Option<&str>, pc_name: &str) -> (a: StreamAction)
    ensures
        trusted_only(msg) && !trusted ==> a == StreamAction::Reply(Message::NotTrusted),
        !trusted_only(msg) && !(msg is PairRequest) ==> a == StreamAction::Ignore,
        msg matches Message::PairRequest { version, token, device_name } ==> if version != PROTOCOL_VERSION {
            (a matches StreamAction::Reply(Message::PairRejected { reason }) && reason@ == version_reason(version))
        } else {
            pair_answer(a, pair_verdict(version, token@, opt_view(pairing_token), peer_fp is Some), device_name, peer_fp, pc_name)
        },
        trusted ==> match msg {
            Message::Hello { .. } => (a matches StreamAction::Reply(Message::HelloOk { device_name }) && device_name@ == pc_name@),
            Message::Ping { seq, sent_at_ms } => a == StreamAction::Reply(Message::Pong { seq, sent_at_ms }),
            Message::Notification { key, app, title, body, can_reply } => a == StreamAction::Notify { key, app, title, body, can_reply },
            Message::NotificationDismissed { key } => a == StreamAction::Dismiss { key },
            Message::Clipboard { text } => a == StreamAction::SetClipboard { text },
            Message::Handoff { url, title } => a == StreamAction::Handoff { url, title },
            Message::Battery { level, charging } => a == StreamAction::Battery { level, charging },
            Message::Dnd { on } => a == StreamAction::Dnd { on },
            Message::PcVolume { action, value } => a == StreamAction::Volume { action, value },
            Message::PcMedia { action } => a == StreamAction::Media { action },
            Message::WebcamStart { width, height } => a == StreamAction::Webcam { width, height },
            Message::MicStart { sample_rate, channels } => a == StreamAction::Mic { sample_rate, channels },
            Message::SpeakerStart { sample_rate, channels } => a == StreamAction::Speaker { sample_rate, channels },
            Message::DisplayStart { width, height, fps } => a == StreamAction::Display { width, height, fps },
            Message::SyncIndex { folder, files } => a == StreamAction::Sync { folder, files },
            Message::FileStart { name, size, clipboard } => a == StreamAction::ReceiveFile { name, size, clipboard },
            Message::FilePull { id } => a == StreamAction::SendFile { id },
            Message::Subscribe => a == StreamAction::Subscribe,
            _ => true,
        },
{
    match msg {
        Message::PairRequest { version, token, device_name } => pair(version, token, device_name, pairing_token, peer_fp, pc_name),
        Message::Hello { .. } if trusted => StreamAction::Reply(Message::HelloOk { device_name: lit(pc_name) }),
        Message::Ping { seq, sent_at_ms } if trusted => StreamAction::Reply(Message::Pong { seq, sent_at_ms }),
        Message::Notification { key, app, title, body, can_reply } if trusted => StreamAction::Notify { key, app, title, body, can_reply },
        Message::NotificationDismissed { key } if trusted => StreamAction::Dismiss { key },
        Message::Clipboard { text } if trusted => StreamAction::SetClipboard { text },
        Message::Handoff { url, title } if trusted => StreamAction::Handoff { url, title },
        Message::Battery { level, charging } if trusted => StreamAction::Battery { level, charging },
        Message::Dnd { on } if trusted => StreamAction::Dnd { on },
        Message::WebcamStart { width, height } if trusted => StreamAction::Webcam { width, height },
        Message::MicStart { sample_rate, channels } if trusted => StreamAction::Mic { sample_rate, channels },
        Message::SpeakerStart { sample_rate, channels } if trusted => StreamAction::Speaker { sample_rate, channels },
        Message::DisplayStart { width, height, fps } if trusted => StreamAction::Display { width, height, fps },
        Message::SyncIndex { folder, files } if trusted => StreamAction::Sync { folder, files },
        Message::PcVolume { action, value } if trusted => StreamAction::Volume { action, value },
        Message::PcMedia { action } if trusted => StreamAction::Media { action },
        Message::FileStart { name, size, clipboard } if trusted => StreamAction::ReceiveFile { name, size, clipboard },
        Message::FilePull { id } if trusted => StreamAction::SendFile { id },
        Message::Subscribe if trusted => StreamAction::Subscribe,
        Message::Hello { .. }
        | Message::Ping { .. }
        | Message::Notification { .. }
        | Message::NotificationDismissed { .. }
        | Message::Clipboard { .. }
        | Message::Handoff { .. }
        | Message::PcVolume { .. }
        | Message::PcMedia { .. }
        | Message::Battery { .. }
        | Message::Dnd { .. }
        | Message::WebcamStart { .. }
        | Message::MicStart { .. }
        | Message::SpeakerStart { .. }
        | Message::DisplayStart { .. }
        | Message::SyncIndex { .. }
        | Message::FileStart { .. }
        | Message::FilePull { .. }
        | Message::Subscribe => StreamAction::Reply(Message::NotTrusted),
        _ => StreamAction::Ignore,
    }
}

/// The name a subscribing phone is shown under: the name it paired with,
/// or `Phone` for a fingerprint the store does not know.
pub open spec fn spec_subscriber_name(peers: Seq<(Seq<char>, Seq<char>)>, fp: Option<Seq<char>>) -> Seq<char>
    decreases peers.len(),
{
    match fp {
        None => "Phone"@,
        Some(f) => if peers.len() == 0 {
            "Phone"@
        } else if peers[0].1 == f {
            peers[0].0
        } else {
            spec_subscriber_name(peers.drop_first(), fp)
        },
    }
}

/// The name a subscribing phone is shown under (see
/// `spec_subscriber_name`).
pub fn subscriber_name(peers: &TrustedPeers, peer_fp: Option<&str>) -> (n: String)
    ensures
        n@ == spec_subscriber_name(peers@, match peer_fp {
            Some(f) => Some(f@),
            None => None,
        }),
{
    let fp = match peer_fp {
        Some(f) => f,
        None => {
            return lit("Phone");
        },
    };
    let f = chars_of(fp);
    let ghost pv = peers@;
    let mut i: usize = 0;
    assert(pv.skip(0) =~= pv);
    while i < peers.peers.len()
        invariant
            i <= peers.peers@.len(),
            pv == peers@,
            peer_fp == Some(fp),
            f@ == fp@,
            spec_subscriber_name(pv, Some(fp@)) == spec_subscriber_name(pv.skip(i as int), Some(fp@)),
        decreases peers.peers@.len() - i,
    {
        let g = chars_of(peers.peers[i].fingerprint.as_str());
        assert(pv.skip(i as int)[0] == pv[i as int]);
        if crate::order::same_chars(g.as_slice(), f.as_slice()) {
            assert(pv[i as int] == peers.peers@[i as int]@);
            assert(pv.skip(i as int).len() > 0);
            assert(pv.skip(i as int)[0].1 == fp@);
            assert(spec_subscriber_name(pv.skip(i as int), Some(fp@)) == pv[i as int].0);
            let nm = peers.peers[i].name.as_str();
            assert(nm@ == pv[i as int].0);
            let r = lit(nm);
            assert(r@ == spec_subscriber_name(pv, Some(fp@)));
            return r;
        }
        assert(pv.skip(i as int).drop_first() =~= pv.skip(i + 1));
        i = i + 1;
    }
    lit("Phone")
}

} // verus!

verus! {

/// The QUIC keep-alive interval and idle timeout, in seconds. Each
/// keep-alive wakes the phone's radio, so the beat is slow unless the
/// proximity lock needs to notice the phone leaving quickly.
pub fn keep_alive(fast_presence: bool) -> (r: (u64, u64))
    ensures
        r == if fast_presence {
            (6u64, 20u64)
        } else {
            (20u64, 60u64)
        },
        r.0 < r.1,
{
    if fast_presence {
        (6, 20)
    } else {
        (20, 60)
    }
}

/// The largest webcam frame taken from the phone, in bytes.
pub const MAX_WEBCAM_FRAME: u32 = 8388608;

/// Whether a webcam frame of `len` bytes is taken; an empty or oversized
/// one ends the stream.
pub fn webcam_frame_ok(len: u32) -> (ok: bool)
    ensures
        ok == (0 < len && len <= MAX_WEBCAM_FRAME),
{
    0 < len && len <= MAX_WEBCAM_FRAME
}

} // verus!
