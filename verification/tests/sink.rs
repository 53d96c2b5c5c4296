use localdesktop::audio::args::{parse_args, run, Args, Parsed, DEFAULT_NODE_NAME, USAGE};
use localdesktop::audio::env::sink_args;
use localdesktop::audio::sink::{buffer_limits, callback_samples, limits_fit, Sink};

fn args(argv: &[&str]) -> Args {
    let argv: Vec<String> = argv.iter().map(|s| s.to_string()).collect();
    match parse_args(&argv) {
        Ok(Parsed::Run(args)) => args,
        _ => panic!("expected parsed args"),
    }
}

fn error(argv: &[&str]) -> String {
    let argv: Vec<String> = argv.iter().map(|s| s.to_string()).collect();
    match parse_args(&argv) {
        Err(e) => e,
        Ok(_) => panic!("expected an error"),
    }
}

fn bits(v: &[f32]) -> Vec<u32> {
    v.iter().map(|f| f.to_bits()).collect()
}

fn floats(v: &[u32]) -> Vec<f32> {
    v.iter().map(|b| f32::from_bits(*b)).collect()
}

#[test]
fn defaults_and_overrides_parse() {
    let d = args(&[]);
    assert_eq!(
        (d.node_name.as_str(), d.rate, d.channels, d.buffer_ms),
        (DEFAULT_NODE_NAME, 48000, 2, 120)
    );

    let a = args(&["--node-name", "x", "--rate", "44100", "--channels", "1"]);
    assert_eq!((a.node_name.as_str(), a.rate, a.channels), ("x", 44100, 1));

    assert!(parse_args(&["--rate".into(), "0".into()]).is_err());
    assert!(parse_args(&["--rate".into()]).is_err());
    assert!(parse_args(&["--nope".into(), "1".into()]).is_err());
    assert!(matches!(parse_args(&["--help".into()]), Ok(Parsed::Help)));
}

#[test]
fn errors_name_the_argument() {
    assert_eq!(error(&["--rate", "0"]), "invalid value for --rate: 0");
    assert_eq!(error(&["--channels", "two"]), "invalid value for --channels: two");
    assert_eq!(error(&["--buffer-ms", "4294967296"]), "invalid value for --buffer-ms: 4294967296");
    assert_eq!(error(&["--rate"]), "--rate needs a value");
    assert_eq!(error(&["--nope"]), "--nope needs a value");
    assert_eq!(error(&["--nope", "1"]), "unknown argument --nope");
    assert_eq!(error(&["--rate", "+48000", "--rate", ""]), "invalid value for --rate: ");
    assert_eq!(args(&["--rate", "+48000"]).rate, 48000);
    assert_eq!(args(&["--buffer-ms", "4294967295"]).buffer_ms, u32::MAX);
}

#[test]
fn help_wins_where_it_is_read() {
    let parse = |v: &[&str]| parse_args(&v.iter().map(|s| s.to_string()).collect::<Vec<_>>());
    assert!(matches!(parse(&["--rate", "1", "-h"]), Ok(Parsed::Help)));
    assert!(matches!(parse(&["--node-name", "-h"]), Ok(Parsed::Run(_))));
    assert!(USAGE.starts_with("Usage: localdesktop-pipewire-aaudio-sink"));
}

#[test]
fn the_supervisor_asks_for_the_defaults() {
    match parse_args(&sink_args()) {
        Ok(Parsed::Run(a)) => assert_eq!(
            (a.node_name.as_str(), a.rate, a.channels, a.buffer_ms),
            ("localdesktop-aaudio-sink", 48000, 2, 120)
        ),
        _ => panic!("expected parsed args"),
    }
}

#[test]
fn the_sink_runs_on_a_device_only() {
    assert_eq!(
        run(args(&[])).unwrap_err(),
        "pipewire_aaudio_sink only runs on Android"
    );
}

/// 48 kHz × 120 ms × 2ch, the values the supervisor passes.
fn sink() -> Sink {
    Sink::new(48000, 2, 120)
}

#[test]
fn ring_sizing_matches_buffer_ms() {
    assert_eq!(sink().ring_frames(), 5760);
    assert_eq!(sink().frame_bytes(), 8);
    // Tiny buffers still get the 256-frame floor.
    assert_eq!(Sink::new(48000, 2, 1).ring_frames(), 256);
}

#[test]
fn writes_come_back_in_order() {
    let mut sink = sink();
    let src: Vec<f32> = (0..8).map(|i| i as f32).collect();
    sink.write(&bits(&src));
    assert_eq!(sink.buffered_frames(), 4);

    let mut dst = bits(&vec![-1.0; 8]);
    sink.read(&mut dst);
    assert_eq!(floats(&dst), src);
    assert_eq!(sink.buffered_frames(), 0);
    assert_eq!(sink.underrun_frames(), 0);
    assert_eq!(sink.dropped_frames(), 0);
}

#[test]
fn underrun_pads_with_silence() {
    let mut sink = sink();
    sink.write(&bits(&[1.0, 2.0]));

    let mut dst = bits(&vec![-1.0; 6]);
    sink.read(&mut dst);
    assert_eq!(floats(&dst), vec![1.0, 2.0, 0.0, 0.0, 0.0, 0.0]);
    assert_eq!(sink.underrun_frames(), 2);
}

#[test]
fn overflow_drops_the_oldest_frames() {
    let mut sink = Sink::new(48000, 2, 1); // 256 frames
    let src: Vec<f32> = (0..(300 * 2)).map(|i| i as f32).collect();
    sink.write(&bits(&src));

    assert_eq!(sink.dropped_frames(), 44);
    assert_eq!(sink.buffered_frames(), 256);

    let mut dst = bits(&vec![-1.0; 256 * 2]);
    sink.read(&mut dst);
    let dst = floats(&dst);
    // The first 44 frames were dropped, so frame 44 leads.
    assert_eq!(&dst[..2], &[88.0, 89.0]);
    assert_eq!(&dst[dst.len() - 2..], &[598.0, 599.0]);
}

#[test]
fn samples_behind_the_last_frame_are_ignored() {
    let mut sink = Sink::new(48000, 2, 1);
    sink.write(&bits(&[1.0, 2.0, 3.0]));
    assert_eq!(sink.buffered_frames(), 1);
    assert_eq!((sink.dropped_frames(), sink.underrun_frames()), (0, 0));
    let mut dst = bits(&[-1.0; 2]);
    sink.read(&mut dst);
    assert_eq!(floats(&dst), [1.0, 2.0]);
}

#[test]
fn clear_discards_pending_audio() {
    let mut sink = sink();
    sink.write(&bits(&[1.0, 2.0, 3.0, 4.0]));
    sink.clear();
    assert_eq!(sink.buffered_frames(), 0);
}

#[test]
fn samples_behind_the_last_whole_frame_stay() {
    let mut sink = Sink::new(48000, 3, 1);
    sink.write(&[1, 2, 3, 4, 5]);
    assert_eq!(sink.buffered_frames(), 1);
    let mut dst = vec![9; 8];
    sink.read(&mut dst);
    assert_eq!(dst, vec![1, 2, 3, 0, 0, 0, 9, 9]);
    assert_eq!(sink.underrun_frames(), 1);
}

#[test]
fn writing_in_pieces_is_writing_at_once() {
    let src: Vec<u32> = (0..700).collect();
    let mut once = Sink::new(48000, 2, 1);
    let mut twice = Sink::new(48000, 2, 1);
    once.write(&src);
    twice.write(&src[..300]);
    twice.write(&src[300..]);
    let mut a = vec![7; 512];
    let mut b = vec![7; 512];
    once.read(&mut a);
    // Two reads yield what one does.
    let mut c = vec![7; 100];
    twice.read(&mut c);
    b[..100].copy_from_slice(&c);
    let mut d = vec![7; 412];
    twice.read(&mut d);
    b[100..].copy_from_slice(&d);
    assert_eq!(a, b);
    assert_eq!(a[0], 188);
    assert_eq!(once.dropped_frames(), 94);
    assert_eq!(twice.dropped_frames(), 94);
}

#[test]
fn the_graph_is_triggered_once_when_the_ring_runs_low() {
    let mut sink = sink();
    assert!(!sink.state_changed(true));
    sink.connect();
    assert!(sink.maybe_trigger_process());
    assert!(!sink.maybe_trigger_process());
    assert!(sink.state_changed(true));
    // A quantum of 960 frames: 480 is low, 481 is not.
    sink.process(0, 0, &[]);
    sink.write(&vec![1; 481 * 2]);
    assert!(!sink.maybe_trigger_process());
    let mut one = vec![0; 2];
    sink.read(&mut one);
    assert!(sink.maybe_trigger_process());
    assert!(!sink.state_changed(false));
    assert!(!sink.maybe_trigger_process());
    assert_eq!(sink.buffered_frames(), 480);
    sink.disconnect();
    assert!(!sink.state_changed(true));
    assert_eq!(sink.buffered_frames(), 0);
}

#[test]
fn a_buffer_is_taken_as_far_as_it_goes() {
    let mut sink = Sink::new(48000, 2, 1);
    let mut bytes: Vec<u8> = Vec::new();
    for f in [9.0f32, 1.5, -2.5, 3.0, 4.0] {
        bytes.extend_from_slice(&f.to_le_bytes());
    }
    sink.process(4, 1000, &bytes);
    assert_eq!(sink.buffered_frames(), 2);
    let mut dst = vec![0; 4];
    sink.read(&mut dst);
    assert_eq!(floats(&dst), vec![1.5, -2.5, 3.0, 4.0]);
    sink.process(100, 8, &bytes);
    sink.process(0, 7, &bytes);
    assert_eq!(sink.buffered_frames(), 0);
}

#[test]
fn buffers_are_sized_by_the_rate() {
    let l = buffer_limits(48000, 8);
    assert_eq!((l.default, l.min, l.max, l.stride), (3840, 2048, 65536, 8));
    assert_eq!(buffer_limits(8000, 4).default, 1024);
    assert!(limits_fit(48000, 8) && !limits_fit(48000, 262_144));
    assert!(Sink::fits(48000, 2, 120) && !Sink::fits(u32::MAX, u32::MAX, u32::MAX));
    assert_eq!(callback_samples(-3, 2), 0);
    assert_eq!(callback_samples(192, 2), 384);
}

#[test]
fn a_negotiated_format_is_compared() {
    let s = sink();
    assert!(!s.format_differs(48000, 2));
    assert!(s.format_differs(44100, 2));
    assert!(s.format_differs(48000, 1));
    assert_eq!((s.rate(), s.channels()), (48000, 2));
}
