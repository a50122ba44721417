use linkd::h264::{nal_type, AnnexBSplitter, AuAssembler};
use linkd::screen::{bitrate_kbps, build_command, gst_encoder, session_mode, CaptureSource, Tools};
use linkd::xrandr::{parse_x11_disconnected, parse_x11_output_pos, parse_x11_screen_size};

fn nal(t: u8, len: usize) -> Vec<u8> {
    let mut v = vec![0, 0, 0, 1, t];
    v.resize(4 + len, 0xAA);
    v
}

#[test]
fn finds_free_outputs_and_skips_busy_ones() {
    let q = "\
Screen 0: minimum 320 x 200, current 1920 x 1080, maximum 16384 x 16384
eDP-1 connected (normal left inverted right x axis y axis)
HDMI-1 disconnected (normal left inverted right x axis y axis)
HDMI-1-0 connected primary 1920x1080+0+0 (normal left inverted right) 598mm x 336mm
DP-2 disconnected 1696x1200+1920+0 (normal left inverted right) 0mm x 0mm";
    assert_eq!(parse_x11_disconnected(q), vec!["HDMI-1".to_string()]);
}

#[test]
fn reads_an_output_position_even_with_the_primary_flag() {
    let q = "\
HDMI-1-0 connected primary 1920x1080+0+0 (normal left inverted right) 598mm x 336mm
HDMI-1 disconnected 1696x1200+1920+0 (normal left inverted right) 0mm x 0mm";
    assert_eq!(parse_x11_output_pos(q, "HDMI-1", 1696, 1200), Some((1920, 0)));
    assert_eq!(parse_x11_output_pos(q, "HDMI-1-0", 1920, 1080), Some((0, 0)));
    assert_eq!(parse_x11_output_pos(q, "HDMI-1", 1600, 1200), None);
}

#[test]
fn parses_the_xrandr_screen_line() {
    let q = "Screen 0: minimum 320 x 200, current 1920 x 1080, maximum 16384 x 16384\n\
             eDP-1 connected primary 1920x1080+0+0";
    assert_eq!(parse_x11_screen_size(q), Some((1920, 1080)));
}

#[test]
fn screen_size_needs_the_current_field() {
    assert_eq!(parse_x11_screen_size("Screen 0: minimum 320 x 200"), None);
    assert_eq!(parse_x11_screen_size("eDP-1 connected"), None);
    assert_eq!(parse_x11_screen_size("Screen 0: current 800 by 600"), None);
    assert_eq!(parse_x11_screen_size("Screen 1: current 800 x 600"), Some((800, 600)));
}

#[test]
fn a_line_without_a_mode_gives_no_position() {
    assert_eq!(parse_x11_output_pos("HDMI-1 disconnected", "HDMI-1", 1, 1), None);
    assert_eq!(parse_x11_output_pos("HDMI-1 connected 10x20+5", "HDMI-1", 10, 20), None);
    assert_eq!(parse_x11_output_pos("HDMI-1 connected 10x20+5+7", "HDMI-1", 10, 20), Some((5, 7)));
}

#[test]
fn splitter_reassembles_across_arbitrary_chunk_cuts() {
    let mut stream = Vec::new();
    let sps = nal(0x67, 8);
    let pps = nal(0x68, 4);
    let idr = nal(0x65, 900);
    let p = nal(0x41, 300);
    for n in [&sps, &pps, &idr, &p] {
        stream.extend_from_slice(n);
    }

    let mut splitter = AnnexBSplitter::new();
    let mut nals = Vec::new();
    for chunk in stream.chunks(7) {
        nals.extend(splitter.push(chunk));
    }
    if let Some(tail) = splitter.finish() {
        nals.push(tail);
    }
    assert_eq!(nals.len(), 4);
    assert_eq!(nals[0], sps);
    assert_eq!(nals[1], pps);
    assert_eq!(nals[2], idr);
    assert_eq!(nals[3], p);
}

#[test]
fn splitter_output_does_not_depend_on_chunk_size() {
    let mut stream = Vec::new();
    for n in [nal(0x67, 8), nal(0x68, 4), nal(0x65, 50), nal(0x41, 30)] {
        stream.extend_from_slice(&n);
    }
    let mut whole = AnnexBSplitter::new();
    let mut a = whole.push(&stream);
    a.extend(whole.finish());
    for size in [1, 2, 3, 5, 11] {
        let mut s = AnnexBSplitter::new();
        let mut b = Vec::new();
        for chunk in stream.chunks(size) {
            b.extend(s.push(chunk));
        }
        b.extend(s.finish());
        assert_eq!(a, b);
    }
}

#[test]
fn splitter_keeps_a_short_tail() {
    let mut s = AnnexBSplitter::new();
    assert!(s.push(&[0, 0, 1, 0x65]).is_empty());
    assert_eq!(s.finish(), None);
    assert_eq!(s.finish(), None);
    let mut t = AnnexBSplitter::new();
    assert!(t.push(&[9, 9, 9]).is_empty());
    assert_eq!(t.finish(), None);
}

#[test]
fn assembler_glues_parameter_sets_to_their_frame() {
    let mut assembler = AuAssembler::new();
    let mut units = Vec::new();
    for n in [nal(0x67, 8), nal(0x68, 4), nal(0x65, 100), nal(0x41, 50), nal(0x41, 50)] {
        if let Some(au) = assembler.push(n) {
            units.push(au);
        }
    }
    if let Some(au) = assembler.finish() {
        units.push(au);
    }
    assert_eq!(units.len(), 3);
    assert_eq!(nal_type(&units[0]), 7);
    assert!(units[0].len() > 900 / 8);
    assert_eq!(nal_type(&units[1]), 1);
    assert_eq!(nal_type(&units[2]), 1);
}

#[test]
fn assembler_keeps_every_byte() {
    let input = [nal(0x67, 8), nal(0x68, 4), nal(0x65, 10), nal(0x06, 3), nal(0x41, 5)];
    let mut assembler = AuAssembler::new();
    let mut out: Vec<u8> = Vec::new();
    for n in input.iter() {
        if let Some(au) = assembler.push(n.clone()) {
            out.extend(au);
        }
    }
    if let Some(au) = assembler.finish() {
        out.extend(au);
    }
    let all: Vec<u8> = input.concat();
    assert_eq!(out, all);
}

#[test]
fn sliced_frames_stay_one_access_unit() {
    let mut assembler = AuAssembler::new();
    let mut units = Vec::new();
    for n in [
        nal(0x67, 8),
        nal(0x68, 4),
        vec![0, 0, 0, 1, 0x65, 0x88, 0xAA],
        vec![0, 0, 0, 1, 0x65, 0x08, 0xAA],
        vec![0, 0, 0, 1, 0x41, 0x9A, 0xAA],
        vec![0, 0, 0, 1, 0x41, 0x1A, 0xAA],
    ] {
        if let Some(au) = assembler.push(n) {
            units.push(au);
        }
    }
    if let Some(au) = assembler.finish() {
        units.push(au);
    }
    assert_eq!(units.len(), 2);
    assert_eq!(units[0].windows(5).filter(|w| *w == [0, 0, 0, 1, 0x65]).count(), 2);
    assert_eq!(units[1].windows(5).filter(|w| *w == [0, 0, 0, 1, 0x41]).count(), 2);
}

#[test]
fn three_byte_start_codes_are_understood() {
    let mut splitter = AnnexBSplitter::new();
    let mut data = vec![0, 0, 1, 0x67, 0xFF];
    data.extend_from_slice(&[0, 0, 1, 0x65, 0xEE, 0xEE]);
    data.extend_from_slice(&[0, 0, 1, 0x41]);
    let nals = splitter.push(&data);
    assert_eq!(nals.len(), 2);
    assert_eq!(nal_type(&nals[0]), 7);
    assert_eq!(nal_type(&nals[1]), 5);
}

#[test]
fn nal_type_of_a_short_unit_is_zero() {
    assert_eq!(nal_type(&[0, 0, 0, 1]), 0);
    assert_eq!(nal_type(&[]), 0);
    assert_eq!(nal_type(&[0, 0, 1]), 0);
    assert_eq!(nal_type(&[0, 0, 1, 0xE5]), 5);
    assert_eq!(nal_type(&[0, 0, 0, 1, 0x41, 0]), 1);
}

#[test]
fn bitrate_scales_with_the_pixel_count() {
    assert_eq!(bitrate_kbps(1920, 1080), 12000);
    assert!(bitrate_kbps(1280, 800) < 12000);
    assert!(bitrate_kbps(1280, 800) >= 4000);
    assert!(bitrate_kbps(2560, 1600) > 12000);
    assert!(bitrate_kbps(3840, 2400) <= 24000);
}

#[test]
fn bitrate_exact_values() {
    assert_eq!(bitrate_kbps(1280, 800), 5925);
    assert_eq!(bitrate_kbps(640, 400), 4000);
    assert_eq!(bitrate_kbps(3840, 2400), 24000);
    assert_eq!(bitrate_kbps(2560, 1600), 23703);
}

#[test]
fn session_mode_is_held_to_its_range() {
    assert_eq!(session_mode(100, 100, 5), (640, 400, 24));
    assert_eq!(session_mode(5000, 5000, 500), (3840, 2400, 60));
    assert_eq!(session_mode(1281, 801, 30), (1280, 800, 30));
}

fn tools(all: bool) -> Tools {
    Tools {
        gst_launch: all,
        wf_recorder: all,
        ffmpeg: all,
        x264enc: all,
        openh264enc: all,
        vah264enc: all,
        display: ":1".to_string(),
    }
}

#[test]
fn encoder_prefers_x264_then_openh264_then_va() {
    let mut t = tools(true);
    let a = gst_encoder(8000, 30, &t).unwrap();
    assert_eq!(a[0], "x264enc");
    assert_eq!(a[3], "bitrate=8000");
    assert_eq!(a[5], "key-int-max=30");
    assert_eq!(a[6], "vbv-buf-capacity=66");
    t.x264enc = false;
    let b = gst_encoder(8000, 30, &t).unwrap();
    assert_eq!(b, vec!["openh264enc", "usage-type=screen", "bitrate=8000000", "gop-size=120"]);
    t.openh264enc = false;
    let c = gst_encoder(8000, 30, &t).unwrap();
    assert_eq!(c, vec!["vah264enc", "bitrate=8000", "key-int-max=120"]);
    t.vah264enc = false;
    let e = gst_encoder(8000, 30, &t).unwrap_err();
    assert!(e.starts_with("no H.264 encoder element found"));
}

#[test]
fn x11_capture_command() {
    let src = CaptureSource::X11Region { x: 1920, y: 0, width: 1280, height: 800 };
    let (prog, args) = build_command(&src, 100, 6000, &tools(true)).unwrap();
    assert_eq!(prog, "ffmpeg");
    assert_eq!(args[5], "60");
    assert_eq!(args[7], "1280x800");
    assert_eq!(args[9], ":1+1920,0");
    assert_eq!(args[19], "6000k");
    assert_eq!(args[21], "repeat-headers=1:keyint=60:intra-refresh=1:vbv-maxrate=6000:vbv-bufsize=200");
    let missing = build_command(&src, 30, 6000, &tools(false)).unwrap_err();
    assert!(missing.starts_with("ffmpeg not found"));
}

#[test]
fn pipewire_capture_command() {
    let src = CaptureSource::PipeWire { node: 42, negotiate: Some((1280, 800)) };
    let (prog, args) = build_command(&src, 30, 6000, &tools(true)).unwrap();
    assert_eq!(prog, "gst-launch-1.0");
    assert_eq!(args[2], "path=42");
    assert_eq!(args[5], "video/x-raw,width=1280,height=800");
    assert_eq!(args.last().unwrap(), "sync=false");
    let wlr = CaptureSource::WlrOutput { name: "HEADLESS-1".to_string() };
    let (p2, a2) = build_command(&wlr, 30, 6000, &tools(true)).unwrap();
    assert_eq!(p2, "wf-recorder");
    assert_eq!(a2[1], "HEADLESS-1");
}
