use video_encoder::batch::{
    file_label, file_text, start_failed_status, start_refused, step, Batch, JobAction, JobEvent,
};
use video_encoder::clock::Seconds;
use video_encoder::files::{
    add_dropped, add_folder, add_picked, choose_video, clear, join_dropped, open_video,
    split_dropped, DropItem, OpenAction,
};
use video_encoder::monitor::EncodeMonitor;
use video_encoder::setup::{find_ffmpeg, find_ffplay, tool_beside, EncodeOptions};

fn strings(list: &[&str]) -> Vec<String> {
    list.iter().map(|s| s.to_string()).collect()
}

fn utf16(text: &str) -> Vec<u16> {
    text.encode_utf16().collect()
}

#[test]
fn files_are_handed_out_in_order() {
    let mut b = Batch::new(2);
    assert_eq!(b.next_file(false), Some(0));
    assert!(!b.file_ended(true, false));
    assert_eq!(b.next_file(false), Some(1));
    assert!(!b.file_ended(false, false));
    assert_eq!(b.next_file(false), None);
    assert_eq!(b.summary(false), "Finished: 1/2 Success");
}

#[test]
fn a_stopped_batch_hands_out_nothing_and_discards() {
    let mut b = Batch::new(3);
    assert_eq!(b.next_file(false), Some(0));
    assert!(b.file_ended(true, true));
    assert_eq!(b.next_file(true), None);
    assert_eq!(b.summary(true), "Task stopped");
    assert_eq!(b.summary(false), "Finished: 0/3 Success");
}

#[test]
fn a_batch_in_which_all_goes_well() {
    let mut b = Batch::new(12);
    while let Some(_) = b.next_file(false) {
        b.file_ended(true, false);
    }
    assert_eq!(b.summary(false), "Finished: 12/12 Success");
}

#[test]
fn an_empty_batch_is_finished() {
    let mut b = Batch::new(0);
    assert_eq!(b.next_file(false), None);
    assert_eq!(b.summary(false), "Finished: 0/0 Success");
}

#[test]
fn files_have_a_line() {
    assert_eq!(file_text(0, 3, &Some("a.mp4".to_string())), "[1/3] a.mp4");
    assert_eq!(file_text(9, 10, &None), "[10/10] ");
    assert_eq!(file_label(1, 3, "/v/a.mp4"), "[2/3] a.mp4");
    assert_eq!(file_label(1, 3, "/"), "[2/3] ");
}

#[test]
fn events_lead_to_actions() {
    let mut m = EncodeMonitor::new();
    assert_eq!(step(&mut m, &JobEvent::Tick, false), JobAction::Show);
    assert_eq!(step(&mut m, &JobEvent::Tick, true), JobAction::Kill);
    let log = |t: &str| JobEvent::Log(t.as_bytes().to_vec());
    assert_eq!(step(&mut m, &log("speed=1x\n"), true), JobAction::Wait);
    assert_eq!(step(&mut m, &log("time=00:00:01.00"), false), JobAction::Wait);
    assert_eq!(step(&mut m, &log("\n"), false), JobAction::Show);
    assert_eq!(m.time(), Seconds { micros: 1_000_000 });
    assert_eq!(step(&mut m, &log(""), false), JobAction::Finish);
}

#[test]
fn a_batch_needs_ffmpeg() {
    assert_eq!(start_refused("").as_deref(), Some("Error: FFmpeg path not set"));
    assert_eq!(start_refused("ffmpeg"), None);
    assert_eq!(start_failed_status("gone"), "FFmpeg execution failed: gone");
}

#[test]
fn dropped_names_arrive() {
    let names = vec![utf16("C:\\v\\a.mp4"), vec![], utf16("b 한글\u{1f600}.mkv")];
    let joined = join_dropped(&names).unwrap();
    assert_eq!(joined, "C:\\v\\a.mp4|b 한글\u{1f600}.mkv");
    assert_eq!(split_dropped(&joined), strings(&["C:\\v\\a.mp4", "b 한글\u{1f600}.mkv"]));
    assert_eq!(join_dropped(&vec![vec![]]), None);
    assert_eq!(join_dropped(&vec![vec![0x61, 0xd800]]).unwrap(), "a\u{fffd}");
    assert_eq!(join_dropped(&vec![vec![0xdc00, 0xd800, 0x61]]).unwrap(), "\u{fffd}\u{fffd}a");
    assert_eq!(join_dropped(&vec![vec![0xd800, 0xd83d, 0xde00]]).unwrap(), "\u{fffd}\u{1f600}");
    assert_eq!(join_dropped(&vec![vec![0xdbff, 0xdfff]]).unwrap(), "\u{10ffff}");
}

#[test]
fn only_videos_are_added_from_drops() {
    let mut list = strings(&["old.mp4"]);
    let items = vec![
        DropItem { path: "notes.txt".to_string(), entries: None },
        DropItem { path: "dir".to_string(), entries: Some(strings(&["dir/x.avi", "dir/y", "dir/z.MOV"])) },
        DropItem { path: "w.flv".to_string(), entries: None },
        DropItem { path: "empty.mp4".to_string(), entries: Some(vec![]) },
    ];
    let added = add_dropped(&mut list, &items);
    assert_eq!(list, strings(&["old.mp4", "dir/x.avi", "dir/z.MOV", "w.flv"]));
    assert_eq!(added.first, Some(1));
    assert_eq!(added.status, "3 items added");
}

#[test]
fn a_drop_without_videos_adds_nothing() {
    let mut list = strings(&["old.mp4"]);
    let items = vec![DropItem { path: "notes.txt".to_string(), entries: None }];
    let added = add_dropped(&mut list, &items);
    assert_eq!((added.first, added.status.as_str()), (None, "0 items added"));
    assert_eq!(list, strings(&["old.mp4"]));
}

#[test]
fn folders_and_picks_fill_the_list() {
    let mut list: Vec<String> = Vec::new();
    let added = add_folder(&mut list, &strings(&["d/a.mpg", "d/b.doc"]));
    assert_eq!(added.status, "1 files added from folder");
    assert_eq!(add_picked(&mut list, &strings(&["any.thing", "x.mp4"])), "3 files added");
    assert_eq!(list, strings(&["d/a.mpg", "any.thing", "x.mp4"]));
    assert_eq!(clear(&mut list), "List cleared");
    assert!(list.is_empty());
}

#[test]
fn the_selected_video_comes_first() {
    let list = strings(&["a.mp4", "b.mp4"]);
    assert_eq!(choose_video(&list, 1, "c.mp4").as_deref(), Some("b.mp4"));
    assert_eq!(choose_video(&list, 2, "c.mp4").as_deref(), Some("c.mp4"));
    assert_eq!(choose_video(&list, -1, "c.mp4").as_deref(), Some("c.mp4"));
    assert_eq!(choose_video(&list, -1, ""), None);
}

#[test]
fn opening_is_told() {
    assert_eq!(open_video("", true), OpenAction::NeedFfmpeg);
    assert_eq!(open_video("ffmpeg", false), OpenAction::NoVideo);
    assert_eq!(open_video("ffmpeg", true), OpenAction::Open);
    assert_eq!(OpenAction::NeedFfmpeg.status(), "먼저 FFmpeg 경로를 설정하세요.");
    assert_eq!(OpenAction::Open.status(), "비디오 정보를 읽는 중...");
    assert_eq!(
        OpenAction::NoVideo.status(),
        "선택된 비디오가 없습니다. 파일을 추가하거나 '파일 선택'을 누르세요."
    );
}

#[test]
fn tools_beside_the_program_come_first() {
    let path = |t: &str| Some(t.to_string());
    assert_eq!(find_ffmpeg(path("here"), path("there")), "here");
    assert_eq!(find_ffmpeg(None, path("there")), "there");
    assert_eq!(find_ffmpeg(None, None), "");
    assert_eq!(find_ffplay(path("here"), path("there")), path("here"));
    assert_eq!(find_ffplay(None, path("there")), path("there"));
    assert_eq!(find_ffplay(None, None), None);
}

#[test]
fn tools_are_looked_for_beside_ffmpeg() {
    let sep = std::path::MAIN_SEPARATOR;
    assert_eq!(tool_beside("/opt/bin/ffmpeg", "ffplay"), format!("/opt/bin{}ffplay", sep));
    assert_eq!(tool_beside("ffmpeg", "ffplay"), "ffplay");
}

#[test]
fn videos_of_windows_get_into_the_list() {
    let mut list: Vec<String> = Vec::new();
    let items = vec![
        DropItem { path: "C:\\v\\a.mp4".to_string(), entries: None },
        DropItem { path: "C:\\v\\a.txt".to_string(), entries: None },
        DropItem { path: "\\\\server\\share\\b.MKV".to_string(), entries: None },
    ];
    assert_eq!(add_dropped(&mut list, &items).status, "2 items added");
    assert_eq!(list, strings(&["C:\\v\\a.mp4", "\\\\server\\share\\b.MKV"]));
}

#[test]
fn options_to_begin_with() {
    let o = EncodeOptions::reset();
    assert_eq!((o.suffix.as_str(), o.crf, o.folder.as_str()), ("_h265", 19, ""));
}
