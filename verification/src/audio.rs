//! The phone as the PC's speaker, microphone and webcam: the command lines
//! that create the PulseAudio sink and source and feed the loopback webcam,
//! and which leftover sinks of an earlier run are swept away.

use vstd::prelude::*;
use crate::text::{
    chars_of, contains, contains_seq, decimal, lines, lines_of, push_decimal, push_str_of,
    string_of, string_views, views, words, words_of,
};

verus! {

/// The name of the sink whose monitor carries the PC's sound to the phone.
pub open spec fn speaker_sink() -> Seq<char> {
    "linuxlink_speaker"@
}

fn text_of(a: &str) -> (s: String)
    ensures
        s@ == a@,
{
    let mut s = String::new();
    push_str_of(&mut s, a);
    s
}

fn text_of2(a: &str, b: &str) -> (s: String)
    ensures
        s@ == a@ + b@,
{
    let mut s = String::new();
    push_str_of(&mut s, a);
    push_str_of(&mut s, b);
    s
}

fn text_num(a: &str, n: u32) -> (s: String)
    ensures
        s@ == a@ + decimal(n as nat),
{
    let mut s = String::new();
    push_str_of(&mut s, a);
    push_decimal(&mut s, n as u64);
    s
}

/// The arguments of `pactl` that create the phone's speaker sink.
pub open spec fn spec_speaker_sink_args(rate: u32, channels: u32) -> Seq<Seq<char>> {
    seq![
        "load-module"@,
        "module-null-sink"@,
        "sink_name="@ + speaker_sink(),
        "rate="@ + decimal(rate as nat),
        "channels="@ + decimal(channels as nat),
        "sink_properties=device.description=\"Phone (Linux Link)\""@,
    ]
}

/// The arguments of `pactl` that create the phone's speaker sink.
pub fn speaker_sink_args(rate: u32, channels: u32) -> (v: Vec<String>)
    ensures
        string_views(v@) == spec_speaker_sink_args(rate, channels),
{
    let mut v: Vec<String> = Vec::new();
    v.push(text_of("load-module"));
    v.push(text_of("module-null-sink"));
    v.push(text_of2("sink_name=", "linuxlink_speaker"));
    v.push(text_num("rate=", rate));
    v.push(text_num("channels=", channels));
    v.push(text_of("sink_properties=device.description=\"Phone (Linux Link)\""));
    assert(string_views(v@) =~= spec_speaker_sink_args(rate, channels));
    v
}

/// The arguments of `parec` that record the speaker sink's monitor.
pub open spec fn spec_parec_args(rate: u32, channels: u32) -> Seq<Seq<char>> {
    seq![
        "-d"@,
        speaker_sink() + ".monitor"@,
        "--format=s16le"@,
        "--rate="@ + decimal(rate as nat),
        "--channels="@ + decimal(channels as nat),
        "--latency-msec=40"@,
    ]
}

/// The arguments of `parec` that record the speaker sink's monitor.
pub fn parec_args(rate: u32, channels: u32) -> (v: Vec<String>)
    ensures
        string_views(v@) == spec_parec_args(rate, channels),
{
    let mut v: Vec<String> = Vec::new();
    v.push(text_of("-d"));
    v.push(text_of2("linuxlink_speaker", ".monitor"));
    v.push(text_of("--format=s16le"));
    v.push(text_num("--rate=", rate));
    v.push(text_num("--channels=", channels));
    v.push(text_of("--latency-msec=40"));
    assert(string_views(v@) =~= spec_parec_args(rate, channels));
    v
}

/// The arguments of `pactl` that create the phone's microphone source,
/// fed through the pipe `pipe`.
pub open spec fn spec_mic_source_args(pipe: Seq<char>, rate: u32, channels: u32) -> Seq<
    Seq<char>,
> {
    seq![
        "load-module"@,
        "module-pipe-source"@,
        "source_name=linuxlink_mic"@,
        "file="@ + pipe,
        "format=s16le"@,
        "rate="@ + decimal(rate as nat),
        "channels="@ + decimal(channels as nat),
        "source_properties=device.description=Linux\\ Link"@,
    ]
}

/// The arguments of `pactl` that create the phone's microphone source.
pub fn mic_source_args(pipe: &str, rate: u32, channels: u32) -> (v: Vec<String>)
    ensures
        string_views(v@) == spec_mic_source_args(pipe@, rate, channels),
{
    let mut v: Vec<String> = Vec::new();
    v.push(text_of("load-module"));
    v.push(text_of("module-pipe-source"));
    v.push(text_of("source_name=linuxlink_mic"));
    let mut f = text_of("file=");
    push_str_of(&mut f, pipe);
    v.push(f);
    v.push(text_of("format=s16le"));
    v.push(text_num("rate=", rate));
    v.push(text_num("channels=", channels));
    v.push(text_of("source_properties=device.description=Linux\\ Link"));
    assert(string_views(v@) =~= spec_mic_source_args(pipe@, rate, channels));
    v
}

/// The arguments of `ffmpeg` that feed the phone's JPEG frames to the
/// loopback webcam `device`.
pub open spec fn spec_webcam_args(device: Seq<char>) -> Seq<Seq<char>> {
    seq![
        "-f"@,
        "mjpeg"@,
        "-framerate"@,
        "30"@,
        "-i"@,
        "pipe:0"@,
        "-pix_fmt"@,
        "yuv420p"@,
        "-f"@,
        "v4l2"@,
        device,
    ]
}

/// The arguments of `ffmpeg` that feed the loopback webcam.
pub fn webcam_args(device: &str) -> (v: Vec<String>)
    ensures
        string_views(v@) == spec_webcam_args(device@),
{
    let mut v: Vec<String> = Vec::new();
    v.push(text_of("-f"));
    v.push(text_of("mjpeg"));
    v.push(text_of("-framerate"));
    v.push(text_of("30"));
    v.push(text_of("-i"));
    v.push(text_of("pipe:0"));
    v.push(text_of("-pix_fmt"));
    v.push(text_of("yuv420p"));
    v.push(text_of("-f"));
    v.push(text_of("v4l2"));
    v.push(text_of(device));
    assert(string_views(v@) =~= spec_webcam_args(device@));
    v
}

/// Whether a line of `pactl list short modules` is a speaker sink left by
/// an earlier run.
pub open spec fn is_stale_sink(line: Seq<char>) -> bool {
    contains_seq(line, "module-null-sink"@) && contains_seq(line, "sink_name="@ + speaker_sink())
        && words(line).len() > 0
}

/// The module numbers of the leftover speaker sinks among `ls`, in order.
pub open spec fn stale_of(ls: Seq<Seq<char>>) -> Seq<Seq<char>>
    decreases ls.len(),
{
    if ls.len() == 0 {
        seq![]
    } else {
        let rest = stale_of(ls.drop_last());
        if is_stale_sink(ls.last()) {
            rest.push(words(ls.last())[0])
        } else {
            rest
        }
    }
}

/// The module numbers to unload: the first word of each line of the module
/// list that names a null sink called `linuxlink_speaker`.
pub fn stale_speaker_modules(listing: &str) -> (ids: Vec<String>)
    ensures
        string_views(ids@) == stale_of(lines(listing@)),
{
    let ls = lines_of(chars_of(listing).as_slice());
    let ghost lv = views(ls@);
    let kind = chars_of("module-null-sink");
    let name = chars_of(text_of2("sink_name=", "linuxlink_speaker").as_str());
    let mut ids: Vec<String> = Vec::new();
    let mut i: usize = 0;
    while i < ls.len()
        invariant
            i <= ls@.len(),
            lv == views(ls@),
            lv == lines(listing@),
            kind@ == "module-null-sink"@,
            name@ == "sink_name="@ + speaker_sink(),
            string_views(ids@) == stale_of(lv.take(i as int)),
        decreases ls@.len() - i,
    {
        let l = ls[i].as_slice();
        assert(lv.take(i + 1).drop_last() =~= lv.take(i as int));
        assert(lv.take(i + 1).last() == l@);
        if contains(l, kind.as_slice()) && contains(l, name.as_slice()) {
            let w = words_of(l);
            if w.len() > 0 {
                let id = string_of(w[0].as_slice());
                proof {
                    assert(views(w@)[0] == w@[0]@);
                }
                ids.push(id);
            }
        }
        assert(string_views(ids@) =~= stale_of(lv.take(i + 1)));
        i = i + 1;
    }
    assert(lv.take(ls@.len() as int) =~= lv);
    ids
}

} // verus!
