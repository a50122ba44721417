//! The second screen's session decisions: which compositor backend to use,
//! the mode of the virtual monitor, the bitrate, and the encoder command
//! line that captures the monitor and writes H.264 to standard output.

use vstd::prelude::*;
use crate::text::{chars_of, contains_seq, decimal, lowercase, push_decimal, push_str_of, to_lower};

verus! {

/// The compositor families the second screen knows how to extend.
#[derive(Debug, Clone, Copy, PartialEq, Eq)]
pub enum Compositor {
    GnomeWayland,
    Hyprland,
    Sway,
    KdeWayland,
    X11,
}

/// Why no backend fits the session.
#[derive(Debug, Clone)]
pub struct UnsupportedCompositor {
    pub desktop: String,
    pub session: String,
}

/// The backend for a session, from `XDG_SESSION_TYPE`, the lowercased
/// `XDG_CURRENT_DESKTOP`, and whether `HYPRLAND_INSTANCE_SIGNATURE`,
/// `SWAYSOCK` and `DISPLAY` are set; `None` when none fits.
pub open spec fn spec_compositor(
    session: Seq<char>,
    desktop: Seq<char>,
    hyprland: bool,
    sway: bool,
    display: bool,
) -> Option<Compositor> {
    if session == "x11"@ {
        Some(Compositor::X11)
    } else if hyprland {
        Some(Compositor::Hyprland)
    } else if sway {
        Some(Compositor::Sway)
    } else if contains_seq(desktop, "gnome"@) || contains_seq(desktop, "zorin"@) {
        Some(Compositor::GnomeWayland)
    } else if contains_seq(desktop, "kde"@) || contains_seq(desktop, "plasma"@) {
        Some(Compositor::KdeWayland)
    } else if session != "wayland"@ && display {
        Some(Compositor::X11)
    } else {
        None
    }
}

/// Whether `hay` contains the text of `needle`.
fn has(hay: &[char], needle: &str) -> (b: bool)
    ensures
        b == contains_seq(hay@, needle@),
{
    let n = chars_of(needle);
    crate::text::contains(hay, n.as_slice())
}

/// The backend for this session (see `spec_compositor`); the error carries
/// the lowercased desktop and the session type.
pub fn detect(session: &str, current_desktop: &str, hyprland: bool, sway: bool, display: bool) -> (r:
    Result<Compositor, UnsupportedCompositor>)
    ensures
        match spec_compositor(session@, to_lower(current_desktop@), hyprland, sway, display) {
            Some(c) => r == Ok::<Compositor, UnsupportedCompositor>(c),
            None => (r matches Err(e) && e.desktop@ == to_lower(current_desktop@) && e.session@
                == session@),
        },
{
    let desktop = lowercase(current_desktop);
    let d = chars_of(desktop.as_str());
    let s = chars_of(session);
    if crate::text::same_chars_str(s.as_slice(), "x11") {
        return Ok(Compositor::X11);
    }
    if hyprland {
        return Ok(Compositor::Hyprland);
    }
    if sway {
        return Ok(Compositor::Sway);
    }
    if has(d.as_slice(), "gnome") || has(d.as_slice(), "zorin") {
        return Ok(Compositor::GnomeWayland);
    }
    if has(d.as_slice(), "kde") || has(d.as_slice(), "plasma") {
        return Ok(Compositor::KdeWayland);
    }
    if !crate::text::same_chars_str(s.as_slice(), "wayland") && display {
        return Ok(Compositor::X11);
    }
    Err(UnsupportedCompositor { desktop, session: crate::text::string_of(s.as_slice()) })
}

/// `x` held between `lo` and `hi` (`lo <= hi`).
pub open spec fn clamp(x: int, lo: int, hi: int) -> int {
    if x < lo {
        lo
    } else if x > hi {
        hi
    } else {
        x
    }
}

/// `u32::clamp`.
fn clamp_u32(x: u32, lo: u32, hi: u32) -> (r: u32)
    requires
        lo <= hi,
    ensures
        r == clamp(x as int, lo as int, hi as int),
{
    if x < lo {
        lo
    } else if x > hi {
        hi
    } else {
        x
    }
}

/// The virtual monitor a session asks for: width held to 640..3840 and
/// height to 400..2400, both rounded down to even, and the frame rate held
/// to 24..60.
pub fn session_mode(width: u32, height: u32, fps: u32) -> (m: (u32, u32, u32))
    ensures
        m.0 == clamp(width as int, 640, 3840) / 2 * 2,
        m.1 == clamp(height as int, 400, 2400) / 2 * 2,
        m.2 == clamp(fps as int, 24, 60),
{
    let w = clamp_u32(width, 640, 3840) / 2 * 2;
    let h = clamp_u32(height, 400, 2400) / 2 * 2;
    (w, h, clamp_u32(fps, 24, 60))
}

/// The encoder bitrate in kbit/s: 12000 for 1920x1080, proportional to the
/// pixel count, held to 4000..24000 (the proportional value is taken modulo
/// 2^32 first, as the conversion to `u32` does).
pub open spec fn spec_bitrate(width: u32, height: u32) -> u32 {
    let kbps = (width as int * height as int * 12000) / 2073600;
    clamp(kbps % 0x1_0000_0000, 4000, 24000) as u32
}

/// The encoder bitrate for a monitor of `width`x`height` (see
/// `spec_bitrate`).
pub fn bitrate_kbps(width: u32, height: u32) -> (k: u32)
    requires
        width as int * height as int * 12000 <= u64::MAX,
    ensures
        k == spec_bitrate(width, height),
        4000 <= k <= 24000,
{
    assert(width as int * height as int <= 0xffff_ffff * 0xffff_ffff) by (nonlinear_arith);
    let px: u64 = (width as u64) * (height as u64);
    let kbps: u64 = px * 12000 / (1920 * 1080);
    let t = kbps as u32;
    assert(t as u64 == kbps % 0x1_0000_0000) by (bit_vector)
        requires
            t == kbps as u32,
    ;
    clamp_u32(t, 4000, 24000)
}

/// More pixels never mean a lower bitrate, while the proportional value
/// stays below 2^32.
pub proof fn lemma_bitrate_monotone(w1: u32, h1: u32, w2: u32, h2: u32)
    requires
        w1 as int * h1 as int <= w2 as int * h2 as int,
        (w2 as int * h2 as int * 12000) / 2073600 < 0x1_0000_0000,
    ensures
        spec_bitrate(w1, h1) <= spec_bitrate(w2, h2),
{
    let a = w1 as int * h1 as int * 12000;
    let b = w2 as int * h2 as int * 12000;
    assert(a <= b) by (nonlinear_arith)
        requires
            w1 as int * h1 as int <= w2 as int * h2 as int,
            a == w1 as int * h1 as int * 12000,
            b == w2 as int * h2 as int * 12000,
    ;
    assert(0 <= a) by (nonlinear_arith)
        requires
            a == w1 as int * h1 as int * 12000,
    ;
    vstd::arithmetic::div_mod::lemma_div_is_ordered(a, b, 2073600);
    vstd::arithmetic::div_mod::lemma_div_pos_is_pos(a, 2073600);
    assert((a / 2073600) % 0x1_0000_0000 == a / 2073600);
    assert((b / 2073600) % 0x1_0000_0000 == b / 2073600);
}

/// What the capture reads from.
#[derive(Debug, Clone)]
pub enum CaptureSource {
    /// A PipeWire stream node, with the size to negotiate when the
    /// compositor needs one.
    PipeWire { node: u32, negotiate: Option<(u32, u32)> },
    /// A wlroots output, by name.
    WlrOutput { name: String },
    /// A region of the X screen.
    X11Region { x: u32, y: u32, width: u32, height: u32 },
}

/// Which of the external programs and GStreamer elements the encoder may
/// use are installed, and the X display to capture.
#[derive(Debug, Clone)]
pub struct Tools {
    pub gst_launch: bool,
    pub wf_recorder: bool,
    pub ffmpeg: bool,
    pub x264enc: bool,
    pub openh264enc: bool,
    pub vah264enc: bool,
    pub display: String,
}

/// `max(a, b)`.
pub open spec fn imax(a: int, b: int) -> int {
    if a >= b {
        a
    } else {
        b
    }
}

/// The GStreamer H.264 encoder element and its settings: x264 when
/// installed, else OpenH264, else VA-API; `None` when none is.
pub open spec fn gst_encoder_args(bitrate: u32, fps: u32, x264: bool, openh264: bool, va: bool) -> Option<
    Seq<Seq<char>>,
> {
    if x264 {
        let vbv = imax(2000int / imax(fps as int, 1), 16);
        Some(
            seq![
                "x264enc"@,
                "tune=zerolatency"@,
                "speed-preset=superfast"@,
                "bitrate="@ + decimal(bitrate as nat),
                "intra-refresh=true"@,
                "key-int-max="@ + decimal(fps as nat),
                "vbv-buf-capacity="@ + decimal(vbv as nat),
                "byte-stream=true"@,
            ],
        )
    } else if openh264 {
        Some(
            seq![
                "openh264enc"@,
                "usage-type=screen"@,
                "bitrate="@ + decimal((bitrate * 1000) as nat),
                "gop-size=120"@,
            ],
        )
    } else if va {
        Some(seq!["vah264enc"@, "bitrate="@ + decimal(bitrate as nat), "key-int-max=120"@])
    } else {
        None
    }
}

/// A `String` holding the text of `s`.
fn lit(s: &str) -> (r: String)
    ensures
        r@ == s@,
{
    let mut r = String::new();
    push_str_of(&mut r, s);
    assert(r@ =~= s@);
    r
}

/// `prefix` followed by the decimal representation of `n`.
fn with_num(prefix: &str, n: u64) -> (r: String)
    ensures
        r@ == prefix@ + decimal(n as nat),
{
    let mut r = lit(prefix);
    push_decimal(&mut r, n);
    r
}

/// The views of a vector of strings.
pub open spec fn svs(v: Seq<String>) -> Seq<Seq<char>> {
    v.map_values(|s: String| s@)
}

/// Pushes `s` onto `v`.
fn push_s(v: &mut Vec<String>, s: String)
    ensures
        svs(final(v)@) == svs(old(v)@).push(s@),
{
    v.push(s);
    assert(svs(v@) =~= svs(old(v)@).push(s@));
}

/// The message when no H.264 element is installed.
pub open spec fn no_encoder_message() -> Seq<char> {
    "no H.264 encoder element found — install gstreamer1.0-plugins-ugly (x264enc) or gst-plugins-ugly"@
}

/// The GStreamer encoder element for the pipeline (see `gst_encoder_args`).
pub fn gst_encoder(bitrate_kbps: u32, fps: u32, tools: &Tools) -> (r: Result<Vec<String>, String>)
    requires
        !tools.x264enc && tools.openh264enc ==> bitrate_kbps * 1000 <= u32::MAX,
    ensures
        match gst_encoder_args(bitrate_kbps, fps, tools.x264enc, tools.openh264enc, tools.vah264enc) {
            Some(a) => (r matches Ok(v) && svs(v@) == a),
            None => (r matches Err(m) && m@ == no_encoder_message()),
        },
{
    let mut v: Vec<String> = Vec::new();
    if tools.x264enc {
        let f = if fps > 1 {
            fps
        } else {
            1
        };
        let q = 2000 / f;
        let vbv = if q > 16 {
            q
        } else {
            16
        };
        push_s(&mut v, lit("x264enc"));
        push_s(&mut v, lit("tune=zerolatency"));
        push_s(&mut v, lit("speed-preset=superfast"));
        push_s(&mut v, with_num("bitrate=", bitrate_kbps as u64));
        push_s(&mut v, lit("intra-refresh=true"));
        push_s(&mut v, with_num("key-int-max=", fps as u64));
        push_s(&mut v, with_num("vbv-buf-capacity=", vbv as u64));
        push_s(&mut v, lit("byte-stream=true"));
        assert(svs(v@) =~= gst_encoder_args(bitrate_kbps, fps, true, tools.openh264enc, tools.vah264enc).unwrap());
        return Ok(v);
    }
    if tools.openh264enc {
        push_s(&mut v, lit("openh264enc"));
        push_s(&mut v, lit("usage-type=screen"));
        push_s(&mut v, with_num("bitrate=", (bitrate_kbps * 1000) as u64));
        push_s(&mut v, lit("gop-size=120"));
        assert(svs(v@) =~= gst_encoder_args(bitrate_kbps, fps, false, true, tools.vah264enc).unwrap());
        return Ok(v);
    }
    if tools.vah264enc {
        push_s(&mut v, lit("vah264enc"));
        push_s(&mut v, with_num("bitrate=", bitrate_kbps as u64));
        push_s(&mut v, lit("key-int-max=120"));
        assert(svs(v@) =~= gst_encoder_args(bitrate_kbps, fps, false, false, true).unwrap());
        return Ok(v);
    }
    Err(
        lit(
            "no H.264 encoder element found — install gstreamer1.0-plugins-ugly (x264enc) or gst-plugins-ugly",
        ),
    )
}

/// The `gst-launch-1.0` arguments for a PipeWire capture through encoder
/// `enc`.
pub open spec fn pipewire_args(node: u32, negotiate: Option<(u32, u32)>, enc: Seq<Seq<char>>) -> Seq<
    Seq<char>,
> {
    seq!["-q"@, "pipewiresrc"@, "path="@ + decimal(node as nat), "always-copy=true"@, "!"@] + (
    match negotiate {
        Some((w, h)) => seq![
            "video/x-raw,width="@ + decimal(w as nat) + ",height="@ + decimal(h as nat),
            "!"@,
        ],
        None => seq![],
    }) + seq!["videoconvert"@, "n-threads=4"@, "!"@, "video/x-raw,format=I420"@, "!"@] + enc
        + seq![
        "!"@,
        "h264parse"@,
        "config-interval=-1"@,
        "!"@,
        "video/x-h264,stream-format=byte-stream"@,
        "!"@,
        "fdsink"@,
        "fd=1"@,
        "sync=false"@,
    ]
}

/// The `wf-recorder` arguments for capturing output `name`.
pub open spec fn wlr_args(name: Seq<char>) -> Seq<Seq<char>> {
    seq![
        "-o"@,
        name,
        "-c"@,
        "libx264"@,
        "-p"@,
        "preset=superfast"@,
        "-p"@,
        "tune=zerolatency"@,
        "-p"@,
        "x264-params=intra-refresh=1:keyint=60"@,
        "-x"@,
        "yuv420p"@,
        "-m"@,
        "h264"@,
        "-f"@,
        "/dev/stdout"@,
        "-y"@,
    ]
}

/// The `ffmpeg` arguments for capturing a region of X display `display`.
pub open spec fn x11_args(
    display: Seq<char>,
    x: u32,
    y: u32,
    width: u32,
    height: u32,
    fps: u32,
    bitrate: u32,
) -> Seq<Seq<char>> {
    let bufsize = imax(bitrate as int * 2 / imax(fps as int, 1), 64);
    seq![
        "-loglevel"@,
        "error"@,
        "-f"@,
        "x11grab"@,
        "-framerate"@,
        decimal(fps as nat),
        "-video_size"@,
        decimal(width as nat) + "x"@ + decimal(height as nat),
        "-i"@,
        display + "+"@ + decimal(x as nat) + ","@ + decimal(y as nat),
        "-c:v"@,
        "libx264"@,
        "-preset"@,
        "superfast"@,
        "-tune"@,
        "zerolatency"@,
        "-pix_fmt"@,
        "yuv420p"@,
        "-b:v"@,
        decimal(bitrate as nat) + "k"@,
        "-x264-params"@,
        "repeat-headers=1:keyint="@ + decimal(fps as nat) + ":intra-refresh=1:vbv-maxrate="@
            + decimal(bitrate as nat) + ":vbv-bufsize="@ + decimal(bufsize as nat),
        "-f"@,
        "h264"@,
        "-"@,
    ]
}

/// Why the encoder cannot start.
pub open spec fn missing_message(source: CaptureSource) -> Seq<char> {
    match source {
        CaptureSource::PipeWire { .. } =>
            "gst-launch-1.0 not found — install the GStreamer tools (gstreamer1.0-tools / gstreamer1-plugins / gstreamer)"@,
        CaptureSource::WlrOutput { .. } => "wf-recorder not found — install it (pacman -S wf-recorder)"@,
        CaptureSource::X11Region { .. } =>
            "ffmpeg not found — install it (it is also needed for the webcam)"@,
    }
}

/// The encoder program and its arguments for capturing `source` at `fps`
/// (held to 24..60) and `bitrate` kbit/s, given the installed `tools`; the
/// error says what to install.
pub open spec fn spec_command(source: CaptureSource, fps: u32, bitrate: u32, tools: Tools) -> Result<
    (Seq<char>, Seq<Seq<char>>),
    Seq<char>,
> {
    let f = clamp(fps as int, 24, 60) as u32;
    match source {
        CaptureSource::PipeWire { node, negotiate } => if !tools.gst_launch {
            Err(missing_message(source))
        } else {
            match gst_encoder_args(
                bitrate,
                f,
                tools.x264enc,
                tools.openh264enc,
                tools.vah264enc,
            ) {
                Some(enc) => Ok(("gst-launch-1.0"@, pipewire_args(node, negotiate, enc))),
                None => Err(no_encoder_message()),
            }
        },
        CaptureSource::WlrOutput { name } => if !tools.wf_recorder {
            Err(missing_message(source))
        } else {
            Ok(("wf-recorder"@, wlr_args(name@)))
        },
        CaptureSource::X11Region { x, y, width, height } => if !tools.ffmpeg {
            Err(missing_message(source))
        } else {
            Ok(("ffmpeg"@, x11_args(tools.display@, x, y, width, height, f, bitrate)))
        },
    }
}

/// Appends every string of `src` to `v`.
fn push_all(v: &mut Vec<String>, src: Vec<String>)
    ensures
        svs(final(v)@) == svs(old(v)@) + svs(src@),
{
    let mut i: usize = 0;
    let ghost start = svs(v@);
    while i < src.len()
        invariant
            i <= src@.len(),
            svs(v@) == start + svs(src@).take(i as int),
        decreases src@.len() - i,
    {
        let s = lit(src[i].as_str());
        push_s(v, s);
        i = i + 1;
        assert(svs(v@) =~= start + svs(src@).take(i as int));
    }
    assert(svs(src@).take(src@.len() as int) =~= svs(src@));
}

/// The encoder command line (see `spec_command`).
pub fn build_command(source: &CaptureSource, fps: u32, bitrate_kbps: u32, tools: &Tools) -> (r: Result<
    (String, Vec<String>),
    String,
>)
    requires
        source is X11Region ==> bitrate_kbps * 2 <= u32::MAX,
        source is PipeWire && !tools.x264enc && tools.openh264enc ==> bitrate_kbps * 1000
            <= u32::MAX,
    ensures
        match spec_command(*source, fps, bitrate_kbps, *tools) {
            Ok((p, a)) => (r matches Ok((q, v)) && q@ == p && svs(v@) == a),
            Err(m) => (r matches Err(e) && e@ == m),
        },
{
    let fps = clamp_u32(fps, 24, 60);
    match source {
        CaptureSource::PipeWire { node, negotiate } => {
            if !tools.gst_launch {
                return Err(
                    lit(
                        "gst-launch-1.0 not found — install the GStreamer tools (gstreamer1.0-tools / gstreamer1-plugins / gstreamer)",
                    ),
                );
            }
            let enc = match gst_encoder(bitrate_kbps, fps, tools) {
                Ok(e) => e,
                Err(m) => {
                    return Err(m);
                },
            };
            let mut args: Vec<String> = Vec::new();
            push_s(&mut args, lit("-q"));
            push_s(&mut args, lit("pipewiresrc"));
            push_s(&mut args, with_num("path=", *node as u64));
            push_s(&mut args, lit("always-copy=true"));
            push_s(&mut args, lit("!"));
            let ghost head = svs(args@);
            match negotiate {
                Some((w, h)) => {
                    let mut s = with_num("video/x-raw,width=", *w as u64);
                    push_str_of(&mut s, ",height=");
                    push_decimal(&mut s, *h as u64);
                    push_s(&mut args, s);
                    push_s(&mut args, lit("!"));
                },
                None => {},
            }
            push_s(&mut args, lit("videoconvert"));
            push_s(&mut args, lit("n-threads=4"));
            push_s(&mut args, lit("!"));
            push_s(&mut args, lit("video/x-raw,format=I420"));
            push_s(&mut args, lit("!"));
            let ghost mid = svs(args@);
            let ghost ev = svs(enc@);
            push_all(&mut args, enc);
            push_s(&mut args, lit("!"));
            push_s(&mut args, lit("h264parse"));
            push_s(&mut args, lit("config-interval=-1"));
            push_s(&mut args, lit("!"));
            push_s(&mut args, lit("video/x-h264,stream-format=byte-stream"));
            push_s(&mut args, lit("!"));
            push_s(&mut args, lit("fdsink"));
            push_s(&mut args, lit("fd=1"));
            push_s(&mut args, lit("sync=false"));
            assert(svs(args@) =~= pipewire_args(*node, *negotiate, ev));
            Ok((lit("gst-launch-1.0"), args))
        },
        CaptureSource::WlrOutput { name } => {
            if !tools.wf_recorder {
                return Err(lit("wf-recorder not found — install it (pacman -S wf-recorder)"));
            }
            let mut args: Vec<String> = Vec::new();
            push_s(&mut args, lit("-o"));
            push_s(&mut args, lit(name.as_str()));
            push_s(&mut args, lit("-c"));
            push_s(&mut args, lit("libx264"));
            push_s(&mut args, lit("-p"));
            push_s(&mut args, lit("preset=superfast"));
            push_s(&mut args, lit("-p"));
            push_s(&mut args, lit("tune=zerolatency"));
            push_s(&mut args, lit("-p"));
            push_s(&mut args, lit("x264-params=intra-refresh=1:keyint=60"));
            push_s(&mut args, lit("-x"));
            push_s(&mut args, lit("yuv420p"));
            push_s(&mut args, lit("-m"));
            push_s(&mut args, lit("h264"));
            push_s(&mut args, lit("-f"));
            push_s(&mut args, lit("/dev/stdout"));
            push_s(&mut args, lit("-y"));
            assert(svs(args@) =~= wlr_args(name@));
            Ok((lit("wf-recorder"), args))
        },
        CaptureSource::X11Region { x, y, width, height } => {
            if !tools.ffmpeg {
                return Err(lit("ffmpeg not found — install it (it is also needed for the webcam)"));
            }
            let q = bitrate_kbps * 2 / fps;
            let bufsize = if q > 64 {
                q
            } else {
                64
            };
            let mut args: Vec<String> = Vec::new();
            push_s(&mut args, lit("-loglevel"));
            push_s(&mut args, lit("error"));
            push_s(&mut args, lit("-f"));
            push_s(&mut args, lit("x11grab"));
            push_s(&mut args, lit("-framerate"));
            push_s(&mut args, with_num("", fps as u64));
            push_s(&mut args, lit("-video_size"));
            let mut size = with_num("", *width as u64);
            push_str_of(&mut size, "x");
            push_decimal(&mut size, *height as u64);
            push_s(&mut args, size);
            push_s(&mut args, lit("-i"));
            let mut input = lit(tools.display.as_str());
            push_str_of(&mut input, "+");
            push_decimal(&mut input, *x as u64);
            push_str_of(&mut input, ",");
            push_decimal(&mut input, *y as u64);
            push_s(&mut args, input);
            push_s(&mut args, lit("-c:v"));
            push_s(&mut args, lit("libx264"));
            push_s(&mut args, lit("-preset"));
            push_s(&mut args, lit("superfast"));
            push_s(&mut args, lit("-tune"));
            push_s(&mut args, lit("zerolatency"));
            push_s(&mut args, lit("-pix_fmt"));
            push_s(&mut args, lit("yuv420p"));
            push_s(&mut args, lit("-b:v"));
            let mut rate = with_num("", bitrate_kbps as u64);
            push_str_of(&mut rate, "k");
            push_s(&mut args, rate);
            push_s(&mut args, lit("-x264-params"));
            let mut params = with_num("repeat-headers=1:keyint=", fps as u64);
            push_str_of(&mut params, ":intra-refresh=1:vbv-maxrate=");
            push_decimal(&mut params, bitrate_kbps as u64);
            push_str_of(&mut params, ":vbv-bufsize=");
            push_decimal(&mut params, bufsize as u64);
            push_s(&mut args, params);
            push_s(&mut args, lit("-f"));
            push_s(&mut args, lit("h264"));
            push_s(&mut args, lit("-"));
            proof {
                reveal_strlit("");
            }
            assert(svs(args@) =~= x11_args(
                tools.display@,
                *x,
                *y,
                *width,
                *height,
                fps,
                bitrate_kbps,
            ));
            Ok((lit("ffmpeg"), args))
        },
    }
}

} // verus!
