use video_encoder::clock::Seconds;
use video_encoder::log::find;
use video_encoder::monitor::{read_line, EncodeMonitor, Readings};
use video_encoder::probe::{probe_video, video_info, ProbeError, VideoInfo};
use video_encoder::progress::{share_of, ProgressWatch, Share};
use video_encoder::report::{percent_text, report, WideShare};

fn s(micros: i64) -> Seconds {
    Seconds { micros }
}

const REPORT: &str = "Input #0, mov,mp4, from 'a.mp4':
  Duration: 00:01:40.25, start: 0.000000, bitrate: 1205 kb/s
  Stream #0:0(und): Video: h264 (High) (avc1 / 0x31637661), yuv420p, 1920x1080 [SAR 1:1], 25 fps
";

#[test]
fn a_report_gives_length_and_size() {
    assert_eq!(
        probe_video(REPORT.as_bytes()),
        Ok(VideoInfo { duration: s(100_250_000), width: 1920, height: 1080 })
    );
}

#[test]
fn a_report_without_a_length_is_an_error() {
    assert_eq!(probe_video(b"no such file"), Err(ProbeError::NoDuration));
    assert_eq!(ProbeError::NoDuration.message(), "Duration 정보를 찾지 못했습니다");
}

#[test]
fn a_report_without_a_picture_has_no_size() {
    assert_eq!(
        probe_video(b"Duration: 00:00:03.5\nAudio: aac"),
        Ok(VideoInfo { duration: s(3_500_000), width: 0, height: 0 })
    );
}

#[test]
fn found_texts_come_to_an_info() {
    let text = |t: &str| Some(t.to_string());
    assert_eq!(
        video_info(&text("00:00:10.00"), &text("640"), &text("00480")),
        Ok(VideoInfo { duration: s(10_000_000), width: 640, height: 480 })
    );
    assert_eq!(
        video_info(&text("00:00:10.00"), &text("\u{0661}\u{0662}"), &None),
        Ok(VideoInfo { duration: s(10_000_000), width: 0, height: 0 })
    );
    assert_eq!(video_info(&None, &text("640"), &text("480")), Err(ProbeError::NoDuration));
}

#[test]
fn patterns_find_their_first_group() {
    assert_eq!(find(r"speed=\s*(\S+)", "fps=1 speed= 1.5x q"), Some("1.5x".to_string()));
    assert_eq!(find(r"speed=\s*(\S+)", "fps=1"), None);
    assert_eq!(find("(", "anything"), None);
    assert_eq!(find("a", "a"), None);
}

#[test]
fn shares_stay_within_the_whole() {
    assert_eq!(share_of(s(5), s(10)), Share { part: 5, whole: 10 });
    assert_eq!(share_of(s(-5), s(10)), Share { part: 0, whole: 10 });
    assert_eq!(share_of(s(15), s(10)), Share { part: 10, whole: 10 });
    assert_eq!(share_of(s(5), s(0)), Share { part: 0, whole: 1 });
    assert_eq!(share_of(s(5), s(-1)), Share { part: 0, whole: 1 });
}

#[test]
fn only_steps_of_more_than_a_thousandth_are_shown() {
    let mut watch = ProgressWatch::new(s(10_000_000));
    assert_eq!(watch.note(s(0)), Some(Share { part: 0, whole: 10_000_000 }));
    assert_eq!(watch.note(s(10_000)), None);
    assert_eq!(watch.note(s(10_001)), Some(Share { part: 10_001, whole: 10_000_000 }));
    assert_eq!(watch.note(s(20_001)), None);
    assert_eq!(watch.note(s(0)), Some(Share { part: 0, whole: 10_000_000 }));
}

#[test]
fn a_job_without_a_length_shows_nothing_once() {
    let mut watch = ProgressWatch::new(s(0));
    assert_eq!(watch.note(s(1_000_000)), Some(Share { part: 0, whole: 1 }));
    assert_eq!(watch.note(s(2_000_000)), None);
}

#[test]
fn a_log_is_watched_in_pieces() {
    let mut watch = ProgressWatch::new(s(4_000_000));
    assert_eq!(watch.watch_progress(b"frame=1\nout_time=00:00:0"), vec![]);
    assert_eq!(
        watch.watch_progress(b"1.000000\nspeed=2x\rframe=9 time=00:00:03.00 x\n"),
        vec![Share { part: 1_000_000, whole: 4_000_000 }, Share { part: 3_000_000, whole: 4_000_000 }]
    );
    assert_eq!(
        watch.watch_progress(b"out_time=00:00:09.00\n"),
        vec![Share { part: 4_000_000, whole: 4_000_000 }]
    );
}

#[test]
fn a_line_reports_what_it_holds() {
    let r: Readings = read_line("  bitrate=1205.3kbits/s speed=1.5x time=00:00:02.00  ");
    assert_eq!(r.bitrate.as_deref(), Some("1205.3kbits/s"));
    assert_eq!(r.speed.as_deref(), Some("1.5x"));
    assert_eq!(r.time.as_deref(), Some("00:00:02.00"));
    assert_eq!(r.duration, None);
    let empty = read_line(" \t ");
    assert!(empty.bitrate.is_none() && empty.speed.is_none() && empty.time.is_none());
}

#[test]
fn a_monitor_follows_the_log() {
    let mut m = EncodeMonitor::new();
    assert_eq!((m.bitrate(), m.speed()), ("N/A", "N/A"));
    assert!(!m.feed(b"  Duration: 00:00:10.00, start: 0\n"));
    assert_eq!(m.duration(), s(10_000_000));
    assert!(!m.feed(b"  Duration: 00:00:20.00, start: 0\nbitrate= 900k\nspeed=  2.5xx\n"));
    assert_eq!(m.duration(), s(10_000_000));
    assert_eq!((m.bitrate(), m.speed()), ("900k", "2.5"));
    assert!(m.feed(b"out_time=00:00:02.500000\n\n"));
    assert_eq!(m.time(), s(2_500_000));
}

#[test]
fn percentages_have_one_decimal() {
    assert_eq!(percent_text(Share { part: 0, whole: 1 }), "0.0");
    assert_eq!(percent_text(Share { part: 1, whole: 3 }), "33.3");
    assert_eq!(percent_text(Share { part: 2, whole: 3 }), "66.7");
    assert_eq!(percent_text(Share { part: 1, whole: 1 }), "100.0");
    assert_eq!(percent_text(Share { part: 1, whole: 800 }), "0.1");
    assert_eq!(percent_text(Share { part: 3, whole: 800 }), "0.4");
    assert_eq!(percent_text(Share { part: 1, whole: 8000 }), "0.0");
}

#[test]
fn a_report_on_a_job_under_way() {
    let mut m = EncodeMonitor::new();
    m.feed(b"Duration: 00:01:40.00\nbitrate=900k\nspeed=2x\ntime=00:00:25.00\n");
    let r = report(&m, s(10_000_000), s(30_000_000), 1, 4);
    assert_eq!(r.file, Share { part: 25_000_000, whole: 100_000_000 });
    assert_eq!(r.overall, WideShare { part: 125_000_000, whole: 400_000_000 });
    assert_eq!(r.progress_text, "25.0% (x2, 900k)");
    assert_eq!(r.time_text, "00:00:10 / 00:00:40 (00:00:30 remaining)");
    assert_eq!(r.overall_time_text, "Started: 00:00:30 / Est: 00:01:36 (00:01:06 remaining)");
}

#[test]
fn a_report_before_one_percent() {
    let mut m = EncodeMonitor::new();
    m.feed(b"Duration: 00:01:40.00\ntime=00:00:01.00\n");
    let r = report(&m, s(2_000_000), s(2_000_000), 0, 1);
    assert_eq!(r.progress_text, "1.0% (xN/A, N/A)");
    assert_eq!(r.time_text, "00:00:02 / 00:01:40 (00:01:39 remaining)");
    assert_eq!(r.overall_time_text, "Started: 00:00:02");
}

#[test]
fn a_report_before_the_length_is_known() {
    let m = EncodeMonitor::new();
    let r = report(&m, s(61_000_000), s(3_600_000_000), 1, 2);
    assert_eq!(r.file, Share { part: 0, whole: 1 });
    assert_eq!(r.overall, WideShare { part: 1, whole: 2 });
    assert_eq!(r.time_text, "00:01:01 (Analyzing...)");
    assert_eq!(r.overall_time_text, "Started: 01:00:00 / Est: 02:00:00 (01:00:00 remaining)");
}

#[test]
fn a_report_on_extreme_numbers() {
    let mut m = EncodeMonitor::new();
    m.feed(b"Duration: 2562047788:00:00.00\ntime=2562047788:00:00.00\n");
    let r = report(&m, s(i64::MAX), s(i64::MAX), usize::MAX - 1, usize::MAX);
    assert_eq!(r.file.part, r.file.whole);
    assert_eq!(r.overall.part, r.overall.whole);
    assert_eq!(r.time_text, "596523:14:07 / 596523:14:07 (00:00:00 remaining)");
}

#[test]
fn a_log_in_pieces_tells_the_same() {
    let log = "Duration: 00:00:10.00\nbitrate=5k speed=3x time=00:00:04.00\rtime=00:00:06.00\n";
    let mut whole = EncodeMonitor::new();
    assert!(whole.feed(log.as_bytes()));
    for cut in 0..log.len() {
        let mut pieces = EncodeMonitor::new();
        let first = pieces.feed(log[..cut].as_bytes());
        let second = pieces.feed(log[cut..].as_bytes());
        assert!(first || second);
        assert_eq!(pieces.duration(), whole.duration());
        assert_eq!(pieces.time(), whole.time());
        assert_eq!((pieces.bitrate(), pieces.speed()), (whole.bitrate(), whole.speed()));
    }
}

#[test]
fn the_batch_moves_on_with_its_files() {
    let mut m = EncodeMonitor::new();
    m.feed(b"Duration: 00:00:10.00\n");
    let mut last = 0.0f64;
    for index in 0..3 {
        for line in ["time=00:00:00.00\n", "time=00:00:05.00\n", "time=00:00:10.00\n"] {
            m.feed(line.as_bytes());
            let r = report(&m, s(1), s(1), index, 3);
            let share = r.overall.part as f64 / r.overall.whole as f64;
            assert!(share >= last);
            last = share;
        }
        assert_eq!(last, (index as f64 + 1.0) / 3.0);
    }
}
