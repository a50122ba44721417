use linkd::audio::{mic_source_args, parec_args, speaker_sink_args, stale_speaker_modules, webcam_args};

#[test]
fn speaker_sink_command() {
    assert_eq!(
        speaker_sink_args(48000, 2),
        vec![
            "load-module",
            "module-null-sink",
            "sink_name=linuxlink_speaker",
            "rate=48000",
            "channels=2",
            "sink_properties=device.description=\"Phone (Linux Link)\"",
        ]
    );
    assert_eq!(
        parec_args(44100, 1),
        vec!["-d", "linuxlink_speaker.monitor", "--format=s16le", "--rate=44100", "--channels=1", "--latency-msec=40"]
    );
}

#[test]
fn mic_source_command() {
    assert_eq!(
        mic_source_args("/tmp/linuxlink-mic.pipe", 16000, 1),
        vec![
            "load-module",
            "module-pipe-source",
            "source_name=linuxlink_mic",
            "file=/tmp/linuxlink-mic.pipe",
            "format=s16le",
            "rate=16000",
            "channels=1",
            "source_properties=device.description=Linux\\ Link",
        ]
    );
}

#[test]
fn webcam_command() {
    assert_eq!(
        webcam_args("/dev/video9"),
        vec!["-f", "mjpeg", "-framerate", "30", "-i", "pipe:0", "-pix_fmt", "yuv420p", "-f", "v4l2", "/dev/video9"]
    );
}

#[test]
fn only_our_leftover_sinks_are_swept() {
    let listing = "12\tmodule-null-sink\tsink_name=linuxlink_speaker rate=48000\n\
                   13\tmodule-null-sink\tsink_name=other\n\
                   14\tmodule-pipe-source\tsource_name=linuxlink_mic\n\
                   27\tmodule-null-sink\tsink_name=linuxlink_speaker\r\n";
    assert_eq!(stale_speaker_modules(listing), vec!["12", "27"]);
    assert_eq!(stale_speaker_modules(""), Vec::<String>::new());
}
