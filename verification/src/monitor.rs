//! Creating the virtual monitor that the second screen shows: the commands
//! given to each compositor, how the X11 framebuffer is enlarged, and the
//! commands that undo it all when the session ends.

use vstd::prelude::*;
use crate::text::{chars_of, contains, contains_seq, decimal, push_decimal, push_str_of, string_views};

verus! {

fn text_of(a: &str) -> (s: String)
    ensures
        s@ == a@,
{
    let mut s = String::new();
    push_str_of(&mut s, a);
    s
}

fn push_num(s: &mut String, n: u32)
    ensures
        final(s)@ == old(s)@ + decimal(n as nat),
{
    push_decimal(s, n as u64);
}

/// `{w}x{h}`.
pub open spec fn size_text(w: u32, h: u32) -> Seq<char> {
    decimal(w as nat) + "x"@ + decimal(h as nat)
}

fn size_string(w: u32, h: u32) -> (s: String)
    ensures
        s@ == size_text(w, h),
{
    let mut s = String::new();
    push_num(&mut s, w);
    push_str_of(&mut s, "x");
    push_num(&mut s, h);
    s
}

/// Whether the X11 desktop can host a virtual monitor: GNOME (and Zorin,
/// built on it) undo every change to the framebuffer there.
pub fn x11_can_host(desktop_lower: &str) -> (b: bool)
    ensures
        b == !(contains_seq(desktop_lower@, "gnome"@) || contains_seq(desktop_lower@, "zorin"@)),
{
    let d = chars_of(desktop_lower);
    !(contains(d.as_slice(), chars_of("gnome").as_slice()) || contains(
        d.as_slice(),
        chars_of("zorin").as_slice(),
    ))
}

/// The name of the video mode added to an unused X11 output.
pub open spec fn spec_x11_mode_name(width: u32, height: u32) -> Seq<char> {
    "LinuxLink-"@ + size_text(width, height)
}

/// The name of the video mode added to an unused X11 output.
pub fn x11_mode_name(width: u32, height: u32) -> (s: String)
    ensures
        s@ == spec_x11_mode_name(width, height),
{
    let mut s = text_of("LinuxLink-");
    let t = size_string(width, height);
    push_str_of(&mut s, t.as_str());
    s
}

/// The views of a list of command lines.
pub open spec fn commands_view(v: Seq<Vec<String>>) -> Seq<Seq<Seq<char>>> {
    v.map_values(|c: Vec<String>| string_views(c@))
}

fn cmd3(a: &str, b: &str, c: &str) -> (v: Vec<String>)
    ensures
        string_views(v@) == seq![a@, b@, c@],
{
    let mut v: Vec<String> = Vec::new();
    v.push(text_of(a));
    v.push(text_of(b));
    v.push(text_of(c));
    assert(string_views(v@) =~= seq![a@, b@, c@]);
    v
}

fn cmd4(a: &str, b: &str, c: &str, d: &str) -> (v: Vec<String>)
    ensures
        string_views(v@) == seq![a@, b@, c@, d@],
{
    let mut v: Vec<String> = Vec::new();
    v.push(text_of(a));
    v.push(text_of(b));
    v.push(text_of(c));
    v.push(text_of(d));
    assert(string_views(v@) =~= seq![a@, b@, c@, d@]);
    v
}

/// What undoes a mode forced onto the unused output `out`: switch it off,
/// drop the mode from it and from the server, and give the framebuffer its
/// old size back.
pub open spec fn spec_forced_output_undo(out: Seq<char>, mode: Seq<char>, cur_w: u32, cur_h: u32) -> Seq<
    Seq<Seq<char>>,
> {
    seq![
        seq!["xrandr"@, "--output"@, out, "--off"@],
        seq!["xrandr"@, "--delmode"@, out, mode],
        seq!["xrandr"@, "--rmmode"@, mode],
        seq!["xrandr"@, "--fb"@, size_text(cur_w, cur_h)],
    ]
}

/// The commands that undo a forced output (see `spec_forced_output_undo`).
pub fn forced_output_undo(out: &str, mode: &str, cur_w: u32, cur_h: u32) -> (v: Vec<Vec<String>>)
    ensures
        commands_view(v@) == spec_forced_output_undo(out@, mode@, cur_w, cur_h),
{
    let mut v: Vec<Vec<String>> = Vec::new();
    v.push(cmd4("xrandr", "--output", out, "--off"));
    v.push(cmd4("xrandr", "--delmode", out, mode));
    v.push(cmd3("xrandr", "--rmmode", mode));
    let fb = size_string(cur_w, cur_h);
    v.push(cmd3("xrandr", "--fb", fb.as_str()));
    assert(commands_view(v@) =~= spec_forced_output_undo(out@, mode@, cur_w, cur_h));
    v
}

/// The position of an output placed right of the current desktop.
pub open spec fn spec_right_of(cur_w: u32) -> Seq<char> {
    decimal(cur_w as nat) + "x0"@
}

/// The `--pos` of an output placed right of the current desktop.
pub fn right_of(cur_w: u32) -> (s: String)
    ensures
        s@ == spec_right_of(cur_w),
{
    let mut s = String::new();
    push_num(&mut s, cur_w);
    push_str_of(&mut s, "x0");
    s
}

/// The desktop's size once a `width` x `height` monitor sits right of a
/// `cur_w` x `cur_h` one, when `xrandr` does not tell it.
pub fn desktop_after(cur_w: u32, cur_h: u32, width: u32, height: u32) -> (r: (u32, u32))
    requires
        cur_w + width <= u32::MAX,
    ensures
        r.0 == cur_w + width,
        r.1 == if cur_h >= height {
            cur_h
        } else {
            height
        },
{
    (cur_w + width, if cur_h >= height {
        cur_h
    } else {
        height
    })
}

/// The enlarged X11 framebuffer that holds the virtual monitor on its
/// right: its size, where the monitor starts, and the monitor's physical
/// size in millimetres (at 96 dots per inch).
pub struct BigFramebuffer {
    pub fb_w: u32,
    pub fb_h: u32,
    pub x_off: u32,
    pub mm_w: u32,
    pub mm_h: u32,
}

/// The framebuffer for a `width` x `height` monitor beside a `cur_w` x
/// `cur_h` desktop.
pub fn big_framebuffer(width: u32, height: u32, cur_w: u32, cur_h: u32) -> (b: BigFramebuffer)
    requires
        cur_w + width <= u32::MAX,
        width * 254 <= u32::MAX,
        height * 254 <= u32::MAX,
    ensures
        b.fb_w == cur_w + width,
        b.fb_h == if cur_h >= height {
            cur_h
        } else {
            height
        },
        b.x_off == cur_w,
        b.mm_w == width * 254 / 960,
        b.mm_h == height * 254 / 960,
{
    let (fb_w, fb_h) = desktop_after(cur_w, cur_h, width, height);
    BigFramebuffer { fb_w, fb_h, x_off: cur_w, mm_w: width * 254 / 960, mm_h: height * 254 / 960 }
}

/// The geometry given to `xrandr --setmonitor`:
/// `{width}/{mm_w}x{height}/{mm_h}+{x_off}+0`.
pub open spec fn spec_setmonitor_geometry(width: u32, height: u32, b: BigFramebuffer) -> Seq<char> {
    decimal(width as nat) + "/"@ + decimal(b.mm_w as nat) + "x"@ + decimal(height as nat) + "/"@
        + decimal(b.mm_h as nat) + "+"@ + decimal(b.x_off as nat) + "+0"@
}

/// The geometry given to `xrandr --setmonitor`.
pub fn setmonitor_geometry(width: u32, height: u32, b: &BigFramebuffer) -> (s: String)
    ensures
        s@ == spec_setmonitor_geometry(width, height, *b),
{
    let mut s = String::new();
    push_num(&mut s, width);
    push_str_of(&mut s, "/");
    push_num(&mut s, b.mm_w);
    push_str_of(&mut s, "x");
    push_num(&mut s, height);
    push_str_of(&mut s, "/");
    push_num(&mut s, b.mm_h);
    push_str_of(&mut s, "+");
    push_num(&mut s, b.x_off);
    push_str_of(&mut s, "+0");
    s
}

/// Whether the desktop kept the enlarged framebuffer: it is now at least
/// as wide as asked.
pub fn framebuffer_kept(width_now: u32, b: &BigFramebuffer) -> (k: bool)
    ensures
        k == (width_now >= b.fb_w),
{
    width_now >= b.fb_w
}

/// What undoes the enlarged framebuffer: drop the monitor, restore the old
/// size.
pub open spec fn spec_big_framebuffer_undo(cur_w: u32, cur_h: u32) -> Seq<Seq<Seq<char>>> {
    seq![
        seq!["xrandr"@, "--delmonitor"@, "LinuxLink"@],
        seq!["xrandr"@, "--fb"@, size_text(cur_w, cur_h)],
    ]
}

/// The commands that undo the enlarged framebuffer.
pub fn big_framebuffer_undo(cur_w: u32, cur_h: u32) -> (v: Vec<Vec<String>>)
    ensures
        commands_view(v@) == spec_big_framebuffer_undo(cur_w, cur_h),
{
    let mut v: Vec<Vec<String>> = Vec::new();
    v.push(cmd3("xrandr", "--delmonitor", "LinuxLink"));
    let fb = size_string(cur_w, cur_h);
    v.push(cmd3("xrandr", "--fb", fb.as_str()));
    assert(commands_view(v@) =~= spec_big_framebuffer_undo(cur_w, cur_h));
    v
}

/// The monitor rule that gives Hyprland's headless output its mode:
/// `linuxlink,{w}x{h}@{fps},auto,1`.
pub open spec fn spec_hyprland_rule(width: u32, height: u32, fps: u32) -> Seq<char> {
    "linuxlink,"@ + size_text(width, height) + "@"@ + decimal(fps as nat) + ",auto,1"@
}

/// The monitor rule for Hyprland's headless output.
pub fn hyprland_rule(width: u32, height: u32, fps: u32) -> (s: String)
    ensures
        s@ == spec_hyprland_rule(width, height, fps),
{
    let mut s = text_of("linuxlink,");
    let t = size_string(width, height);
    push_str_of(&mut s, t.as_str());
    push_str_of(&mut s, "@");
    push_num(&mut s, fps);
    push_str_of(&mut s, ",auto,1");
    s
}

/// The output that sway created: the first name now listed that was not
/// listed before.
pub open spec fn spec_new_output(before: Seq<Seq<char>>, after: Seq<Seq<char>>) -> Option<Seq<char>>
    decreases after.len(),
{
    if after.len() == 0 {
        None
    } else if !before.contains(after[0]) {
        Some(after[0])
    } else {
        spec_new_output(before, after.drop_first())
    }
}

/// The output that sway created (see `spec_new_output`).
pub fn new_output(before: &[String], after: &[String]) -> (r: Option<String>)
    ensures
        match spec_new_output(string_views(before@), string_views(after@)) {
            Some(n) => r matches Some(x) && x@ == n,
            None => r is None,
        },
{
    let ghost bv = string_views(before@);
    let ghost av = string_views(after@);
    assert(av.skip(0) =~= av);
    let mut i: usize = 0;
    while i < after.len()
        invariant
            i <= after@.len(),
            bv == string_views(before@),
            av == string_views(after@),
            spec_new_output(bv, av) == spec_new_output(bv, av.skip(i as int)),
        decreases after@.len() - i,
    {
        let a = chars_of(after[i].as_str());
        let mut seen = false;
        let mut j: usize = 0;
        while j < before.len()
            invariant
                j <= before@.len(),
                i < after@.len(),
                bv == string_views(before@),
                a@ == after@[i as int]@,
                seen == exists|k: int| 0 <= k < j && before@[k]@ == a@,
            decreases before@.len() - j,
        {
            if crate::text::same_chars_str(a.as_slice(), before[j].as_str()) {
                seen = true;
            }
            j = j + 1;
        }
        assert(av.skip(i as int)[0] == a@);
        assert(seen == bv.contains(a@)) by {
            if seen {
                let k = choose|k: int| 0 <= k < before@.len() && before@[k]@ == a@;
                assert(bv[k] == a@);
            }
            if bv.contains(a@) {
                let k = choose|k: int| 0 <= k < bv.len() && bv[k] == a@;
                assert(before@[k]@ == a@);
            }
        }
        if !seen {
            return Some(crate::text::string_of(a.as_slice()));
        }
        assert(av.skip(i as int).drop_first() =~= av.skip(i + 1));
        i = i + 1;
    }
    assert(av.skip(after@.len() as int) =~= Seq::<Seq<char>>::empty());
    None
}

/// The `swaymsg` arguments that give the new output its mode:
/// `output {name} mode --custom {w}x{h}@{fps}Hz`.
pub open spec fn spec_sway_mode_args(name: Seq<char>, width: u32, height: u32, fps: u32) -> Seq<
    Seq<char>,
> {
    seq![
        "output"@,
        name,
        "mode"@,
        "--custom"@,
        size_text(width, height) + "@"@ + decimal(fps as nat) + "Hz"@,
    ]
}

/// The `swaymsg` arguments that give the new output its mode.
pub fn sway_mode_args(name: &str, width: u32, height: u32, fps: u32) -> (v: Vec<String>)
    ensures
        string_views(v@) == spec_sway_mode_args(name@, width, height, fps),
{
    let mut m = size_string(width, height);
    push_str_of(&mut m, "@");
    push_num(&mut m, fps);
    push_str_of(&mut m, "Hz");
    let mut v: Vec<String> = Vec::new();
    v.push(text_of("output"));
    v.push(text_of(name));
    v.push(text_of("mode"));
    v.push(text_of("--custom"));
    v.push(m);
    assert(string_views(v@) =~= spec_sway_mode_args(name@, width, height, fps));
    v
}

/// The command that unplugs sway's output at the end.
pub fn sway_unplug(name: &str) -> (v: Vec<String>)
    ensures
        string_views(v@) == seq!["swaymsg"@, "output"@, name@, "unplug"@],
{
    cmd4("swaymsg", "output", name, "unplug")
}

/// The VNC port of KDE's virtual monitor: 51000 plus the process id modulo
/// 8000, so that two daemons do not collide.
pub fn krfb_port(pid: u32) -> (p: u16)
    ensures
        p == 51000 + pid % 8000,
{
    let r: u32 = pid % 8000;
    51000u16 + (r as u16)
}

/// The arguments of `krfb-virtualmonitor`.
pub open spec fn spec_krfb_args(width: u32, height: u32, password: Seq<char>, port: u16) -> Seq<
    Seq<char>,
> {
    seq![
        "--name"@,
        "Linux Link"@,
        "--resolution"@,
        size_text(width, height),
        "--password"@,
        password,
        "--port"@,
        decimal(port as nat),
    ]
}

/// The arguments of `krfb-virtualmonitor`.
pub fn krfb_args(width: u32, height: u32, password: &str, port: u16) -> (v: Vec<String>)
    ensures
        string_views(v@) == spec_krfb_args(width, height, password@, port),
{
    let mut v: Vec<String> = Vec::new();
    v.push(text_of("--name"));
    v.push(text_of("Linux Link"));
    v.push(text_of("--resolution"));
    v.push(size_string(width, height));
    v.push(text_of("--password"));
    v.push(text_of(password));
    v.push(text_of("--port"));
    let mut p = String::new();
    push_decimal(&mut p, port as u64);
    v.push(p);
    assert(string_views(v@) =~= spec_krfb_args(width, height, password@, port));
    v
}

/// The evdev code of a pointer button as GNOME's remote desktop takes it:
/// left, right, then middle for anything else.
pub fn pointer_button_code(button: u8) -> (code: i32)
    ensures
        code == if button == 0 {
            0x110i32
        } else if button == 1 {
            0x111i32
        } else {
            0x112i32
        },
{
    if button == 0 {
        0x110
    } else if button == 1 {
        0x111
    } else {
        0x112
    }
}

} // verus!
