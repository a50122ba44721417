//! Core logic of the Linux Link daemon: the wire protocol and the decisions
//! the daemon takes on it, the trust store, folder-sync planning, the H.264
//! stream framing of the second screen, and the text formats it reads and
//! writes.

pub mod text;
pub mod order;
pub mod protocol;
pub mod sync;
pub mod h264;
pub mod xrandr;
pub mod identity;
pub mod files;
pub mod pairing;
pub mod shortcuts;
pub mod screen;
pub mod battery;
pub mod presence;
pub mod desktop;
pub mod server;
pub mod control;
pub mod status;
pub mod clipboard;
pub mod netwatch;
pub mod doctor;
pub mod audio;
pub mod monitor;
pub mod notify;
pub mod tray;
pub mod autostart;
pub mod touch;
