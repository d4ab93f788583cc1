use gstshm2::demo::{demo_args, frame_pts_ns, frame_text};
use gstshm2::relay::args::{parse_args, usage, LeakyType};
use gstshm2::relay::clients::{notify_client_count, CapsLatch, ClientCount, RelayAction};
use gstshm2::relay::lines::{log_line, log_piece, LineBuffer};
use gstshm2::relay::listen::{parse_listen, run_vsock_listener, tcp_address, vsock_peer};
use gstshm2::relay::listen::{ListenSpec, SocketAction, SocketEvent};
use gstshm2::relay::pipeline::{normalize_caps_filters, normalize_pipeline, output_pipeline};

fn args(list: &[&str]) -> Vec<String> {
    list.iter().map(|s| s.to_string()).collect()
}

fn tcp(spec: &str) -> (String, u16) {
    match parse_listen(spec, true) {
        Ok(ListenSpec::Tcp { host, port }) => (host, port),
        other => panic!("{other:?}"),
    }
}

#[test]
fn tcp_places_are_read() {
    assert_eq!(tcp("tcp://0.0.0.0:5555"), ("0.0.0.0".to_string(), 5555));
    assert_eq!(tcp("tcp://:80"), ("0.0.0.0".to_string(), 80));
    assert_eq!(tcp("tcp://::1:65535"), ("::1".to_string(), 65535));
    assert_eq!(tcp("tcp://h:+7"), ("h".to_string(), 7));
    let err = |s| parse_listen(s, true).unwrap_err();
    assert_eq!(err("tcp://host"), "tcp listen must be tcp://host:port");
    assert_eq!(err("tcp://host:65536"), "invalid tcp port");
    assert_eq!(err("tcp://host:"), "invalid tcp port");
    assert_eq!(err("udp://host:1"), "listen must be tcp://host:port or vsock://cid:port");
    assert_eq!(tcp_address("::1", 80), "::1:80");
}

#[test]
fn vsock_places_are_read() {
    assert!(matches!(
        parse_listen("vsock://3:4294967295", true),
        Ok(ListenSpec::Vsock { cid: 3, port: u32::MAX })
    ));
    let err = |s| parse_listen(s, true).unwrap_err();
    assert_eq!(err("vsock://3"), "vsock listen must be vsock://cid:port");
    assert_eq!(err("vsock://x:1"), "invalid vsock cid");
    assert_eq!(err("vsock://3:1:2"), "invalid vsock port");
    assert_eq!(
        parse_listen("vsock://3:1", false).unwrap_err(),
        "listen must be tcp://host:port or vsock://cid:port"
    );
    assert_eq!(vsock_peer(3, 1024), "vsock:3:1024");
}

#[test]
fn media_types_are_put_into_elements() {
    assert_eq!(
        normalize_caps_filters("videotestsrc ! video/x-raw,format=I420 ! videoconvert"),
        "videotestsrc ! capsfilter caps=video/x-raw,format=I420 ! videoconvert"
    );
    for media in ["audio/x-raw", "text/x-raw", "application/x-rtp"] {
        assert_eq!(
            normalize_caps_filters(&format!("a !  {media}\t! b")),
            format!("a ! capsfilter caps={media} ! b")
        );
    }
    assert_eq!(normalize_caps_filters("video/x-raw ! a"), "video/x-raw ! a");
    assert_eq!(normalize_caps_filters("a ! image/png"), "a ! image/png");
    assert_eq!(normalize_caps_filters("a !"), "a !");
    assert_eq!(normalize_caps_filters("  \n "), "  \n ");
    assert_eq!(normalize_caps_filters(""), "");
}

#[test]
fn escaped_marks_are_unescaped() {
    assert_eq!(
        normalize_pipeline("videotestsrc \\! video/x-raw \\! videoconvert"),
        "videotestsrc ! capsfilter caps=video/x-raw ! videoconvert"
    );
    assert_eq!(normalize_pipeline("a\\\\!b"), "a\\!b");
}

#[test]
fn the_output_pipeline_names_the_region() {
    assert_eq!(
        output_pipeline("shm:///dev/shm/x", 67108864),
        "appsrc name=appsrc is-live=true format=time stream-type=stream ! queue max-size-buffers=8 max-size-bytes=0 max-size-time=0 leaky=downstream ! shm2sink shm-path=shm:///dev/shm/x shm-size=67108864"
    );
}

#[test]
fn a_short_command_line_is_filled_up() {
    let c = parse_args(&args(&["--shm-path", "p", "--input", "a \\! video/x"]), true).unwrap();
    assert!(matches!(c.listen, ListenSpec::Tcp { port: 5555, .. }));
    assert_eq!((c.shm_path.as_str(), c.shm_size), ("p", 67108864));
    assert_eq!(c.input, "a ! capsfilter caps=video/x");
    assert!(c.splash.is_none() && c.deep_copy);
    assert_eq!((c.appsrc.max_buffers, c.appsrc.max_bytes, c.appsrc.max_time_ns), (8, 0, 0));
    assert!(c.appsrc.block);
    assert_eq!(c.appsrc.leaky, LeakyType::Nothing);
}

#[test]
fn a_long_command_line_is_read() {
    let line = [
        "--listen", "tcp://h:1", "--shm-path", "p", "--shm-size", "99", "--input", "i",
        "--splash", "s ! audio/y", "--no-deep-copy", "--appsrc-max-buffers", "1",
        "--appsrc-max-bytes", "2", "--appsrc-max-time", "3", "--appsrc-no-block",
        "--appsrc-leaky", "downstream", "--input", "last",
    ];
    let c = parse_args(&args(&line), true).unwrap();
    assert!(matches!(c.listen, ListenSpec::Tcp { port: 1, .. }));
    assert_eq!((c.shm_size, c.input.as_str(), c.deep_copy), (99, "last", false));
    assert_eq!(c.splash.as_deref(), Some("s ! capsfilter caps=audio/y"));
    assert_eq!((c.appsrc.max_buffers, c.appsrc.max_bytes, c.appsrc.max_time_ns), (1, 2, 3));
    assert!(!c.appsrc.block);
    assert_eq!(c.appsrc.leaky, LeakyType::Downstream);
    let base = ["--shm-path", "p", "--input", "i"];
    let with = |more: &[&str]| parse_args(&args(&[&base[..], more].concat()), true).unwrap();
    assert_eq!(with(&["--appsrc-leaky", "upstream"]).appsrc.leaky, LeakyType::Upstream);
    assert_eq!(with(&["--appsrc-leaky", "none"]).appsrc.leaky, LeakyType::Nothing);
    assert!(with(&["--appsrc-no-block", "--appsrc-block"]).appsrc.block);
}

#[test]
fn a_wrong_command_line_is_refused() {
    let cases: [(&[&str], &str); 20] = [
        (&["--listen"], "--listen requires a value"),
        (&["--shm-path"], "--shm-path requires a value"),
        (&["--shm-size"], "--shm-size requires a value"),
        (&["--shm-size", "-1"], "--shm-size must be a u64"),
        (&["--input"], "--input requires a pipeline string"),
        (&["--splash"], "--splash requires a pipeline string"),
        (&["--appsrc-max-buffers"], "--appsrc-max-buffers requires a value"),
        (&["--appsrc-max-buffers", "x"], "--appsrc-max-buffers must be a u64"),
        (&["--appsrc-max-bytes"], "--appsrc-max-bytes requires a value"),
        (&["--appsrc-max-bytes", ""], "--appsrc-max-bytes must be a u64"),
        (&["--appsrc-max-time"], "--appsrc-max-time requires a value (ns)"),
        (&["--appsrc-max-time", "1s"], "--appsrc-max-time must be a u64 (ns)"),
        (&["--appsrc-leaky"], "--appsrc-leaky requires none|upstream|downstream"),
        (&["--appsrc-leaky", "x"], "--appsrc-leaky must be none|upstream|downstream"),
        (&["--help"], "help"),
        (&["-h", "--bogus"], "help"),
        (&["--bogus"], "unknown arg: --bogus"),
        (&[], "--shm-path is required"),
        (&["--shm-path", "p"], "--input is required"),
        (&["--shm-path", "p", "--input", "i", "--listen", "x"],
         "listen must be tcp://host:port or vsock://cid:port"),
    ];
    for (line, reason) in cases {
        assert_eq!(parse_args(&args(line), true).unwrap_err(), reason);
    }
    assert!(usage().starts_with("Usage: shm2_relayd --shm-path <path> "));
}

#[test]
fn the_input_plays_while_clients_are_there() {
    let mut count = ClientCount::new();
    assert_eq!(count.count(), 0);
    assert_eq!(count.connected(), 1);
    assert_eq!(count.connected(), 2);
    assert_eq!(count.disconnected(), 1);
    assert_eq!(
        notify_client_count(1, false),
        vec![RelayAction::ClearCaps, RelayAction::Flush, RelayAction::PlayInput]
    );
    assert_eq!(
        notify_client_count(1, true),
        vec![
            RelayAction::StopSplash,
            RelayAction::ForgetSplashCaps,
            RelayAction::ClearCaps,
            RelayAction::Flush,
            RelayAction::PlayInput,
            RelayAction::StopSplash,
        ]
    );
    assert_eq!(count.disconnected(), 0);
    assert_eq!(
        notify_client_count(0, true),
        vec![
            RelayAction::StopInput,
            RelayAction::ForgetInputCaps,
            RelayAction::ClearCaps,
            RelayAction::Flush,
            RelayAction::PlaySplash,
        ]
    );
    assert_eq!(notify_client_count(0, false).last(), Some(&RelayAction::Flush));
}

#[test]
fn the_media_type_is_given_once() {
    let mut caps = CapsLatch::new();
    assert!(!caps.take_caps(false));
    assert!(caps.take_caps(true));
    assert!(!caps.take_caps(true));
    caps.forget();
    assert!(caps.take_caps(true));
}

#[test]
fn lines_are_cut_where_they_end() {
    let mut b = LineBuffer::new();
    assert!(b.feed(b"ab").is_empty());
    assert_eq!(b.feed(b"c\r\nde\n\nf"), vec![b"abc\r\n".to_vec(), b"de\n".to_vec(), b"\n".to_vec()]);
    assert_eq!(b.finish(), Some(b"f".to_vec()));
    assert_eq!(LineBuffer::new().finish(), None);
}

#[test]
fn long_lines_are_cut_at_the_limit() {
    let mut b = LineBuffer::new();
    assert!(b.feed(&[b'x'; 1023]).is_empty());
    assert_eq!(b.feed(b"y").len(), 1);
    assert_eq!(b.finish(), None);
    let mut b = LineBuffer::new();
    let mut chunk = b"a\n".to_vec();
    chunk.extend(vec![b'z'; 1500]);
    let got = b.feed(&chunk);
    assert_eq!((got.len(), got[1].len()), (2, 1500));
    assert_eq!(got.concat(), chunk);
}

#[test]
fn lines_are_logged_without_their_ends() {
    assert_eq!(log_line("p:1", "hi\r\n").unwrap(), "[shm2_relayd] p:1: hi");
    assert_eq!(log_line("p", "a\n b\n\r\n").unwrap(), "[shm2_relayd] p: a\n b");
    assert!(log_line("p", "\r\n").is_none());
    assert!(log_line("p", "").is_none());
}

#[test]
fn bytes_that_are_no_text_are_marked() {
    assert_eq!(log_piece("p", "gr\u{fc}n\n".as_bytes()).unwrap(), "[shm2_relayd] p: gr\u{fc}n");
    assert_eq!(log_piece("p", b"a\xffb\n").unwrap(), "[shm2_relayd] p: a\u{fffd}b");
    assert!(log_piece("p", b"\n").is_none());
}

#[test]
fn the_trial_programs_read_their_arguments() {
    let d = demo_args(&args(&[]));
    assert_eq!((d.path.as_str(), d.count), ("/dev/shm/gst-shm2-demo", 5000));
    let d = demo_args(&args(&["shm:///x", "2000"]));
    assert_eq!((d.path.as_str(), d.count), ("shm:///x", 2000));
    assert_eq!(demo_args(&args(&["x", "many"])).count, 5000);
    assert_eq!(frame_text(12), "frame=12;hello=shm-only;transport=gst-shm2");
    assert_eq!(frame_pts_ns(3), 3_000_000);
}

#[test]
fn vsock_clients_are_accepted_without_end() {
    let next = run_vsock_listener;
    let e = || "e".to_string();
    assert!(matches!(next(SocketEvent::Made), SocketAction::Bind));
    assert!(matches!(next(SocketEvent::Bound), SocketAction::Listen(64)));
    assert!(matches!(next(SocketEvent::Listening), SocketAction::Accept));
    assert!(matches!(next(SocketEvent::Accepted), SocketAction::Serve));
    assert!(matches!(next(SocketEvent::Served), SocketAction::Accept));
    match next(SocketEvent::AcceptFailed(e())) {
        SocketAction::Report(line) => assert_eq!(line, "vsock accept error: e"),
        other => panic!("{other:?}"),
    }
    for (event, closes) in [
        (SocketEvent::NoSocket(e()), false),
        (SocketEvent::BindFailed(e()), true),
        (SocketEvent::ListenFailed(e()), true),
    ] {
        match next(event) {
            SocketAction::Fail { close, words } => {
                assert_eq!((close, words.as_str()), (closes, "e"));
            }
            other => panic!("{other:?}"),
        }
    }
}
