use video_encoder::outputs::{
    crop_file_name, crop_output, cut_file_name, cut_output, encode_output, encoded_file_name,
};
use video_encoder::paths::{is_video_file, is_video_name, split_name};

fn name(text: &str) -> Option<String> {
    Some(text.to_string())
}

#[test]
fn videos_are_known_by_their_extension() {
    for ext in ["mp4", "mkv", "avi", "mov", "wmv", "flv", "mpg", "mpeg"] {
        assert!(is_video_file(&format!("/videos/a.{}", ext)));
        assert!(is_video_file(&format!("b.c.{}", ext.to_uppercase())));
    }
    for path in ["a.txt", "mp4", ".mp4", "a.mp4.part", "a.mp4/b", "", "/", "..", "a.mp"] {
        assert!(!is_video_file(path), "{}", path);
    }
    assert!(is_video_file("dir.x/a.mKv"));
    assert!(is_video_file("a.mp4/"));
}

#[test]
fn letters_that_are_lowered_to_ascii_count() {
    assert!(is_video_name(&name("a.M\u{212a}V")));
    assert!(!is_video_name(&name("a.\u{ff4d}p4")));
    assert!(!is_video_name(&None));
}

#[test]
fn names_fall_into_stem_and_extension() {
    assert_eq!(split_name("a.b.mp4"), ("a.b".to_string(), name("mp4")));
    assert_eq!(split_name("noext"), ("noext".to_string(), None));
    assert_eq!(split_name(".hidden"), (".hidden".to_string(), None));
    assert_eq!(split_name("end."), ("end".to_string(), name("")));
    assert_eq!(split_name("..a"), (".".to_string(), name("a")));
}

#[test]
fn stems_and_extensions_agree_with_std() {
    for n in ["a.b.mp4", "noext", ".hidden", "end.", "..a", "한글.mkv"] {
        let path = std::path::Path::new(n);
        let (stem, ext) = split_name(n);
        assert_eq!(path.file_stem().unwrap().to_str().unwrap(), stem);
        assert_eq!(path.extension().map(|e| e.to_str().unwrap().to_string()), ext);
    }
}

#[test]
fn results_are_named_after_their_source() {
    assert_eq!(encoded_file_name(&name("clip.avi"), "_h265"), "clip_h265.mp4");
    assert_eq!(encoded_file_name(&None, "_h265"), "_h265.mp4");
    assert_eq!(cut_file_name(&name("clip.mkv")), "clip_cut.mkv");
    assert_eq!(cut_file_name(&name("clip")), "clip_cut.mp4");
    assert_eq!(cut_file_name(&None), "output_cut.mp4");
    assert_eq!(crop_file_name(&name("clip.mkv")), "clip_crop.mp4");
    assert_eq!(crop_file_name(&None), "output_crop.mp4");
}

#[test]
fn results_never_bear_the_name_of_their_source() {
    for n in ["a_cut.mp4", "a_crop.mp4", "a.mp4", "a", "x._crop", "b.c"] {
        assert_ne!(cut_file_name(&name(n)), n);
        assert_ne!(crop_file_name(&name(n)), n);
        assert_ne!(encoded_file_name(&name(n), "_h265"), n);
    }
    assert_eq!(encoded_file_name(&name("a.mp4"), ""), "a.mp4");
}

#[test]
fn encoded_files_go_beside_their_input_or_where_told() {
    let sep = std::path::MAIN_SEPARATOR;
    assert_eq!(encode_output("/v/clip.avi", "", "_x"), format!("/v{}clip_x.mp4", sep));
    assert_eq!(encode_output("clip.avi", "", "_x"), "clip_x.mp4");
    assert_eq!(encode_output("/v/clip.avi", "/out", "_x"), format!("/out{}clip_x.mp4", sep));
    assert_eq!(encode_output("/v/clip.avi", "/out/", "_x"), "/out/clip_x.mp4");
    assert_eq!(encode_output("", "", "_x"), format!(".{}_x.mp4", sep));
}

#[test]
fn cuts_and_crops_stay_beside_their_source() {
    let sep = std::path::MAIN_SEPARATOR;
    assert_eq!(cut_output("/v/clip.avi"), format!("/v{}clip_cut.avi", sep));
    assert_eq!(cut_output("/clip.avi"), "/clip_cut.avi");
    assert_eq!(cut_output("clip"), "clip_cut.mp4");
    assert_eq!(crop_output("/v/w/clip.avi"), format!("/v/w{}clip_crop.mp4", sep));
    assert_eq!(crop_output("clip.avi"), "clip_crop.mp4");
}

#[test]
fn windows_paths_are_judged_by_their_extension() {
    for path in [
        "C:\\v\\a.mp4",
        "D:\\b.MP4",
        "C:\\v.x\\a.mkv",
        "v\\a.avi",
        "\\v\\a.mov",
        "C:a.wmv",
        "\\\\server\\share\\a.flv",
        "C:/v/a.mpg",
        "C:/v\\a.mpeg",
    ] {
        assert!(is_video_file(path), "{}", path);
    }
    for path in ["C:\\v\\a.txt", "C:\\v.mp4\\a", "C:\\mp4", "C:", "\\\\server\\share\\mkv"] {
        assert!(!is_video_file(path), "{}", path);
    }
}

#[test]
fn what_follows_a_file_name_does_not_matter() {
    for path in ["a.mp4/", "a.mp4//", "a.mp4/.", "v/a.mp4/./", "./a.mp4"] {
        assert!(is_video_file(path), "{}", path);
    }
    for path in [".", "..", "a.mp4/..", "/", "//", "./"] {
        assert!(!is_video_file(path), "{}", path);
    }
}

#[test]
fn results_of_windows_paths_stay_beside_their_source() {
    assert_eq!(cut_output("C:\\v\\a.mp4"), "C:\\v\\a_cut.mp4");
    assert_eq!(crop_output("C:\\v\\a.mkv"), "C:\\v\\a_crop.mp4");
    assert_eq!(cut_output("C:\\a.mp4"), "C:\\a_cut.mp4");
    assert_eq!(encode_output("C:\\v\\a.mp4", "", "_h265"), "C:\\v\\a_h265.mp4");
    assert_eq!(cut_output("\\\\server\\share\\v\\a.mp4"), "\\\\server\\share\\v\\a_cut.mp4");
}

#[test]
fn results_are_never_their_source() {
    for path in [
        "C:\\v\\a.mp4",
        "C:\\v\\a_cut.mp4",
        "C:a.mp4",
        "/v/a_crop.mp4",
        "t.x",
        ".mp4",
        "v\\.mp4",
        "12:30.mp4",
        "a.mp4/",
        "..",
        "",
        "//s/h/a.mp4",
        "\\\\server\\share\\a.mp4",
    ] {
        assert_ne!(cut_output(path), path);
        assert_ne!(crop_output(path), path);
        assert_ne!(encode_output(path, "", "_h265"), path);
        assert_ne!(encode_output(path, "C:\\v", "_h265"), path);
    }
}

#[test]
fn directories_keep_their_spelling() {
    let sep = std::path::MAIN_SEPARATOR;
    assert_eq!(cut_output("../v/a.mp4"), format!("../v{}a_cut.mp4", sep));
    assert_eq!(cut_output("./a.mp4"), format!(".{}a_cut.mp4", sep));
    assert_eq!(cut_output("v./a.mp4"), format!("v.{}a_cut.mp4", sep));
    assert_eq!(cut_output("//s/h/v/a.mp4"), format!("//s/h/v{}a_cut.mp4", sep));
    assert_eq!(encode_output("v/./w/a.mp4", "", "_x"), format!("v/./w{}a_x.mp4", sep));
    assert_eq!(encode_output("a.mp4", "/out", "/x"), format!("/out{}a/x.mp4", sep));
}

const PATHS: [&str; 46] = [
    "", "/", "//", ".", "..", "./", "../", "/.", "/..", "a", "a.mp4", ".mp4", "a.", "..a",
    "v/a.mkv", "v//a.mkv", "v/./a.mkv", "v/.//./a.mkv", "/a.mkv", "//a.mkv", "/./a.mkv", "./a.mkv",
    "././a.mkv", "v/a.mkv/", "v/a.mkv/.", "v/a.mkv/./", "v/..", "v/../", "v/../a.mkv",
    "C:\\v\\a.mkv", "C:\\a.mkv", "C:a.mkv", "C:", "C:\\", "C:/v/a.mkv", "C:/v\\a.mkv", "v\\/a.mkv",
    "v\\a.mkv/", "\\a.mkv", "\\\\s\\h\\a.mkv", "\\\\s\\h", "\\\\?\\C:\\a.mkv", "//s/h/a.mkv",
    "1:2.mkv", "v.x\\a", "한/글.mkv",
];

/// The names and places of results are those that the platform's own paths give.
#[test]
fn results_agree_with_the_platform() {
    for text in PATHS {
        let path = std::path::Path::new(text);
        let stem = path.file_stem().map(|s| s.to_str().unwrap());
        let extension = path.extension().map(|e| e.to_str().unwrap()).unwrap_or("mp4");
        let cut = path.with_file_name(format!("{}_cut.{}", stem.unwrap_or("output"), extension));
        assert_eq!(cut_output(text), cut.to_str().unwrap(), "{}", text);
        let crop = path.with_file_name(format!("{}_crop.mp4", stem.unwrap_or("output")));
        assert_eq!(crop_output(text), crop.to_str().unwrap(), "{}", text);
        for suffix in ["_h265", "", "/x", "\\x", ":"] {
            let name = format!("{}{}.mp4", stem.unwrap_or(""), suffix);
            let here = path.parent().unwrap_or(std::path::Path::new(".")).join(&name);
            assert_eq!(encode_output(text, "", suffix), here.to_str().unwrap(), "{}", text);
            for folder in ["/out", "out/", "D:\\out", "D:", "\\\\s\\h", "\\\\?\\D:\\o", "."] {
                let there = std::path::Path::new(folder).join(&name);
                assert_eq!(encode_output(text, folder, suffix), there.to_str().unwrap());
            }
        }
    }
}

#[test]
fn videos_agree_with_the_platform() {
    for text in PATHS {
        let extension = std::path::Path::new(text).extension().map(|e| e.to_str().unwrap());
        assert_eq!(is_video_file(text), extension == Some("mkv") || extension == Some("mp4"));
    }
}
