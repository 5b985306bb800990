use video_encoder::clock::Seconds;
use video_encoder::command::{encode_args, frame_args, probe_args, sound_args};
use video_encoder::crop::{crop_filter, crop_rect, scale, CropArea, PixelRect, ONE};
use video_encoder::editor::{Editor, TickAction, TimerAction};
use video_encoder::frame::{decode_png_rgba, extract_frame, FrameError, FrameRequester};
use video_encoder::jobs::{plan_crop, plan_cut, start_failed, Refusal, Work};
use video_encoder::probe::VideoInfo;

fn s(micros: i64) -> Seconds {
    Seconds { micros }
}

fn area(x: i64, y: i64, w: i64, h: i64) -> CropArea {
    CropArea { x, y, w, h }
}

fn loaded() -> Editor {
    let mut e = Editor::new();
    let info = VideoInfo { duration: s(10_000_000), width: 1920, height: 1080 };
    assert_eq!(e.load("a.mp4", info), s(0));
    e
}

#[test]
fn fractions_are_rounded_to_pixels() {
    assert_eq!(scale(ONE / 2, 1921), 961);
    assert_eq!(scale(-ONE / 2, 1921), -961);
    assert_eq!(scale(333_333_333, 100), 33);
    assert_eq!(scale(i64::MAX, i32::MAX), i32::MAX);
    assert_eq!(scale(i64::MAX, i32::MIN), i32::MIN);
    assert_eq!(scale(0, 1080), 0);
}

#[test]
fn pixels_agree_with_floating_point() {
    for f in [0.0f32, 0.1, 0.25, 0.333, 0.5, 0.75, 0.98, 1.0] {
        for size in [2i32, 480, 719, 1080, 1920, 7680] {
            let fixed = scale((f as f64 * 1e9).round() as i64, size);
            assert_eq!(fixed, (f * size as f32).round() as i32, "{} {}", f, size);
        }
    }
}

#[test]
fn crops_are_even_and_inside() {
    assert_eq!(
        crop_rect(area(ONE / 4, ONE / 4, ONE / 2, ONE / 2), 1920, 1080),
        PixelRect { w: 960, h: 540, x: 480, y: 270 }
    );
    assert_eq!(
        crop_rect(area(ONE, ONE, ONE / 3, ONE / 3), 1001, 1001),
        PixelRect { w: 334, h: 334, x: 666, y: 666 }
    );
    assert_eq!(crop_rect(area(-ONE, -ONE, 0, 0), 640, 480), PixelRect { w: 2, h: 2, x: 0, y: 0 });
    assert_eq!(crop_rect(area(0, 0, ONE, ONE), 3, 2), PixelRect { w: 2, h: 2, x: 0, y: 0 });
    for n in 0..50 {
        let a = area(n * 37_000_000, n * 11_000_000, n * 23_000_000, 900_000_000);
        let r = crop_rect(a, 1279, 719);
        assert!(r.w >= 2 && r.h >= 2 && r.x >= 0 && r.y >= 0);
        assert!(r.x + r.w <= 1279 && r.y + r.h <= 719);
        assert!(r.w % 2 == 0 && r.h % 2 == 0 && r.x % 2 == 0 && r.y % 2 == 0);
    }
}

#[test]
fn everything_is_kept_of_an_even_picture() {
    let r = crop_rect(CropArea::whole(), 1920, 1080);
    assert_eq!(r, PixelRect { w: 1920, h: 1080, x: 0, y: 0 });
    assert_eq!(crop_filter(r), "crop=1920:1080:0:0");
}

#[test]
fn nearly_everything_counts_as_everything() {
    assert!(CropArea::whole().full_frame());
    assert!(area(20_000_000, 20_000_000, 980_000_000, 980_000_000).full_frame());
    assert!(!area(20_000_001, 0, ONE, ONE).full_frame());
    assert!(!area(0, 0, 979_999_999, ONE).full_frame());
    assert!(!area(0, 0, ONE, 979_999_999).full_frame());
    assert!(!area(0, 20_000_001, ONE, ONE).full_frame());
}

#[test]
fn a_cut_copies_its_span() {
    let job = plan_cut("ffmpeg", "v.mkv", true, s(1_000_000), s(3_500_000)).unwrap();
    assert_eq!(job.out, "v_cut.mkv");
    assert_eq!(job.status, "잘라내기 시작: v.mkv");
    let expected = [
        "-y", "-hide_banner", "-ss", "1.000", "-i", "v.mkv", "-t", "2.500", "-c", "copy",
        "-avoid_negative_ts", "make_zero", "-map", "0", "-map_metadata", "0", "-progress", "pipe:2",
        "v_cut.mkv",
    ];
    assert_eq!(job.args(), expected);
    assert_eq!(job.end_status(true), "잘라내기 완료: v_cut.mkv");
    assert_eq!(job.end_status(false), "잘라내기 실패");
}

#[test]
fn a_crop_encodes_its_span() {
    let half = area(0, 0, ONE / 2, ONE / 2);
    let job = plan_crop("ffmpeg", "v.mkv", true, s(0), s(60_000), half, 640, 480, 19).unwrap();
    assert_eq!(job.out, "v_crop.mp4");
    assert_eq!(job.status, "크롭+컷 시작 (crop=320:240:0:0): v.mkv");
    let expected = [
        "-y", "-hide_banner", "-ss", "0.000", "-i", "v.mkv", "-t", "0.060", "-vf",
        "crop=320:240:0:0", "-c:v", "libx265", "-crf", "19", "-preset", "medium", "-c:a", "copy",
        "-map_metadata", "0", "-progress", "pipe:2", "v_crop.mp4",
    ];
    assert_eq!(job.args(), expected);
    assert_eq!(job.end_status(true), "크롭+컷 완료: v_crop.mp4");
    assert_eq!(job.end_status(false), "크롭+컷 실패");
}

#[test]
fn a_crop_of_the_whole_frame_is_a_cut() {
    let whole = CropArea::whole();
    let job = plan_crop("ffmpeg", "v.mkv", true, s(0), s(60_000), whole, 0, 0, 19).unwrap();
    assert!(matches!(job.work, Work::Cut));
    assert_eq!(job.out, "v_cut.mkv");
    assert_eq!(job.status, "크롭 영역이 전체이므로 무손실 잘라내기로 실행합니다.");
}

#[test]
fn jobs_are_refused_for_the_first_reason() {
    let half = area(0, 0, ONE / 2, ONE / 2);
    let cut = |f: &str, there: bool, a: i64, b: i64| plan_cut(f, "v.mkv", there, s(a), s(b)).err();
    assert_eq!(cut("", false, 0, 0), Some(Refusal::NoFfmpeg));
    assert_eq!(cut("ffmpeg", false, 0, 0), Some(Refusal::NoFile));
    assert_eq!(cut("ffmpeg", true, 0, 49_999), Some(Refusal::BadSpan));
    assert_eq!(cut("ffmpeg", true, 5, 0), Some(Refusal::BadSpan));
    assert_eq!(cut("ffmpeg", true, i64::MIN, i64::MAX), None);
    assert_eq!(cut("ffmpeg", true, 0, 50_000), None);
    assert_eq!(cut("ffmpeg", true, 10_000_000, 10_050_000), None);
    let crop = |w: i32, h: i32| {
        plan_crop("ffmpeg", "v.mkv", true, s(0), s(60_000), half, w, h, 19).err()
    };
    assert_eq!(crop(0, 480), Some(Refusal::UnknownSize));
    assert_eq!(crop(640, -1), Some(Refusal::UnknownSize));
    assert_eq!(crop(640, 480), None);
}

#[test]
fn refusals_are_told() {
    assert_eq!(Refusal::NoFfmpeg.message(), "FFmpeg 경로가 설정되지 않았습니다.");
    assert_eq!(Refusal::NoFile.message(), "비디오 파일이 없습니다.");
    assert_eq!(Refusal::BadSpan.message(), "잘라낼 구간이 올바르지 않습니다 (시작 < 끝).");
    assert_eq!(
        Refusal::UnknownSize.message(),
        "비디오 해상도를 알 수 없어 크롭을 실행할 수 없습니다."
    );
}

#[test]
fn ends_of_jobs_are_shown() {
    let job = plan_cut("ffmpeg", "v.mkv", true, s(0), s(50_000)).unwrap();
    let good = job.ended(true);
    assert_eq!((good.busy, good.progress_full), (false, true));
    assert_eq!(good.status, "잘라내기 완료: v_cut.mkv");
    let bad = job.ended(false);
    assert_eq!((bad.busy, bad.progress_full), (false, false));
    assert_eq!(bad.status, "잘라내기 실패");
    let none = start_failed("gone");
    assert_eq!((none.busy, none.progress_full), (false, false));
    assert_eq!(none.status, "FFmpeg 실행 실패: gone");
}

#[test]
fn a_video_is_shown_under_its_file_name() {
    let info = VideoInfo { duration: s(10_000_000), width: 64, height: 48 };
    let mut e = Editor::new();
    assert_eq!(e.open("/v/a.mp4", info), s(0));
    assert_eq!(e.info_label, "a.mp4  |  길이 00:00:10  |  해상도 64x48");
    e.open("..", info);
    assert_eq!(e.info_label, "  |  길이 00:00:10  |  해상도 64x48");
}

#[test]
fn marks_on_one_place_can_be_cut() {
    let mut e = loaded();
    e.seek(s(4_000_000), "");
    e.mark_trim_start();
    e.mark_trim_end();
    assert!(plan_cut("ffmpeg", "v", true, e.trim_start, e.trim_end).is_ok());
}

#[test]
fn command_lines() {
    assert_eq!(probe_args("v"), ["-hide_banner", "-i", "v"]);
    let frame = [
        "-hide_banner", "-loglevel", "error", "-ss", "1.250", "-i", "v", "-frames:v", "1", "-an",
        "-f", "image2pipe", "-vcodec", "png", "-y", "pipe:1",
    ];
    assert_eq!(frame_args("v", s(1_250_000)), frame);
    let sound = ["-nodisp", "-autoexit", "-loglevel", "quiet", "-ss", "2.000", "-i", "v"];
    assert_eq!(sound_args("v", s(2_000_000)), sound);
    let encode = [
        "-y", "-i", "v", "-c:v", "libx265", "-crf", "-3", "-preset", "medium", "-c:a", "copy",
        "-progress", "pipe:2", "o",
    ];
    assert_eq!(encode_args("v", "o", -3), encode);
}

#[test]
fn a_loaded_video_is_shown() {
    let e = loaded();
    assert!(e.loaded && !e.playing);
    assert_eq!((e.preview, e.trim_start, e.trim_end), (s(0), s(0), s(10_000_000)));
    assert_eq!(e.area, CropArea::whole());
    assert_eq!(e.info_label, "a.mp4  |  길이 00:00:10  |  해상도 1920x1080");
    assert_eq!(e.crop_label, "크롭 영역: 전체 (1920x1080)");
    assert_eq!(e.end_label, "00:00:10");
    assert_eq!(
        e.status,
        "비디오를 불러왔습니다. 타임라인에서 구간을 선택하고 크롭 영역을 지정하세요."
    );
}

#[test]
fn a_failed_load_is_told() {
    let mut e = loaded();
    e.load_failed("gone");
    assert!(!e.loaded && !e.playing);
    assert_eq!(e.status, "비디오 정보를 읽지 못했습니다: gone");
}

#[test]
fn seeking_stays_in_the_video() {
    let mut e = loaded();
    assert_eq!(e.seek(s(3_000_000), "ffmpeg"), Some(s(2_950_000)));
    assert_eq!((e.preview, e.preview_label.as_str()), (s(3_000_000), "00:00:03"));
    assert_eq!(e.seek(s(-1), "ffmpeg"), Some(s(0)));
    assert_eq!(e.seek(s(20_000), "ffmpeg"), Some(s(0)));
    assert_eq!(e.seek(s(99_000_000), ""), None);
    assert_eq!(e.preview, s(10_000_000));
    assert_eq!(Editor::new().seek(s(1), "ffmpeg"), None);
}

#[test]
fn marks_keep_their_distance() {
    let mut e = loaded();
    e.seek(s(4_000_000), "");
    e.mark_trim_start();
    assert_eq!((e.trim_start, e.start_label.as_str()), (s(4_000_000), "00:00:04"));
    e.mark_trim_end();
    assert_eq!(e.trim_end, s(4_050_000));
    e.seek(s(9_000_000), "");
    e.mark_trim_start();
    assert_eq!(e.trim_start, s(4_000_000));
    e.mark_trim_end();
    assert_eq!((e.trim_end, e.end_label.as_str()), (s(9_000_000), "00:00:09"));
    e.trim_changed(s(9_990_000), s(20_000));
    e.mark_trim_end();
    assert_eq!(e.trim_end, s(10_000_000));
    e.trim_changed(s(0), s(20_000));
    e.mark_trim_start();
    assert_eq!(e.trim_start, s(0));
}

#[test]
fn the_crop_area_is_shown() {
    let mut e = loaded();
    e.crop_changed(area(ONE / 10, 0, ONE / 2, -ONE));
    assert_eq!(e.crop_label, "크롭: x=192 y=0 크기=960x0 (전체 1920x1080)");
}

#[test]
fn playing_runs_to_the_end() {
    let mut e = Editor::new();
    assert_eq!(e.toggle_play(), TimerAction::Keep);
    let mut e2 = loaded();
    assert_eq!(e2.toggle_play(), TimerAction::Start);
    let mut ticks = 0;
    while let TickAction::Frame(t) = e2.tick() {
        ticks += 1;
        assert_eq!(t, s(ticks * 500_000));
    }
    assert_eq!(ticks, 19);
    assert!(!e2.playing);
    assert_eq!((e2.preview, e2.preview_label.as_str()), (s(10_000_000), "00:00:10"));
    assert_eq!(e2.tick(), TickAction::Stop);
    e2.toggle_play();
    assert_eq!(e2.toggle_play(), TimerAction::Stop);
}

#[test]
fn a_reset_brings_everything_back() {
    let mut e = loaded();
    e.seek(s(4_000_000), "");
    e.mark_trim_start();
    e.crop_changed(area(1, 2, 3, 4));
    e.toggle_play();
    assert_eq!(e.reset("ffmpeg"), Some(s(0)));
    let fresh = loaded();
    assert_eq!((e.preview, e.trim_start, e.trim_end), (fresh.preview, fresh.trim_start, fresh.trim_end));
    assert_eq!((e.area, e.crop_label.clone(), e.playing), (fresh.area, fresh.crop_label, false));
    assert_eq!(e.status, "편집 옵션을 초기화했습니다.");
    assert_eq!(Editor::new().reset("ffmpeg"), None);
    e.toggle_play();
    e.stop();
    assert!(!e.playing);
}

#[test]
fn one_picture_is_taken_at_a_time_and_the_newest_next() {
    let mut r = FrameRequester::new();
    assert_eq!(r.request(s(1)), Some(s(1)));
    assert_eq!(r.request(s(2)), None);
    assert_eq!(r.request(s(3)), None);
    assert_eq!(r.done(), Some(s(3)));
    assert_eq!(r.done(), None);
    assert_eq!(r.request(s(4)), Some(s(4)));
}

#[test]
fn no_output_is_no_picture() {
    assert_eq!(extract_frame(vec![1, 2]).unwrap(), vec![1, 2]);
    let e = extract_frame(vec![]).unwrap_err();
    assert!(matches!(e, FrameError::NoPicture));
    assert_eq!(
        e.status(),
        "프레임 추출 실패: 프레임 추출 실패 (시간이 영상 끝을 벗어났을 수 있습니다)"
    );
}

#[test]
fn a_png_is_decoded() {
    let mut png: Vec<u8> = Vec::new();
    let picture = image::RgbImage::from_raw(2, 1, vec![10, 20, 30, 40, 50, 60]).unwrap();
    picture
        .write_to(&mut std::io::Cursor::new(&mut png), image::ImageFormat::Png)
        .unwrap();
    let (pixels, w, h) = decode_png_rgba(&png).unwrap();
    assert_eq!((w, h), (2, 1));
    assert_eq!(pixels, vec![10, 20, 30, 255, 40, 50, 60, 255]);
}

#[test]
fn what_is_no_picture_is_an_error() {
    match decode_png_rgba(b"not a picture") {
        Err(FrameError::Decode(text)) => assert!(!text.is_empty()),
        _ => panic!("decoded"),
    }
    let e = decode_png_rgba(&[]).unwrap_err();
    assert!(e.status().starts_with("프레임 추출 실패: "));
}
