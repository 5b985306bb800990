use video_encoder::log::LineBuffer;
use video_encoder::text::{join, split_at, trim, trim_trailing};

fn strings(list: &[&str]) -> Vec<String> {
    list.iter().map(|s| s.to_string()).collect()
}

#[test]
fn splitting_keeps_empty_parts() {
    assert_eq!(split_at("a|b||c", '|'), strings(&["a", "b", "", "c"]));
    assert_eq!(split_at("", '|'), strings(&[""]));
    assert_eq!(split_at("|", '|'), strings(&["", ""]));
}

#[test]
fn splitting_undoes_joining() {
    let parts = strings(&["one", "", "drei", "넷"]);
    assert_eq!(join(&parts, '|'), "one||drei|넷");
    assert_eq!(split_at(&join(&parts, '|'), '|'), parts);
    assert_eq!(join(&Vec::new(), '|'), "");
}

#[test]
fn trimming_takes_white_space_of_every_kind() {
    for text in ["  a b\t", "\u{3000}x\u{2028}", "\u{85}\u{a0}y", "", " \r\n ", "z", "\u{200b}q"] {
        assert_eq!(trim(text), text.trim());
    }
}

#[test]
fn trailing_runs_are_taken_off() {
    assert_eq!(trim_trailing("1.23x", 'x'), "1.23");
    assert_eq!(trim_trailing("xx", 'x'), "");
    assert_eq!(trim_trailing("x1", 'x'), "x1");
}

#[test]
fn lines_end_at_line_feeds_and_carriage_returns() {
    let mut buffer = LineBuffer::new();
    assert_eq!(buffer.push_text("one\ntw"), strings(&["one"]));
    assert_eq!(buffer.push_text("o\rthree\r\nrest"), strings(&["two", "three", ""]));
    assert_eq!(buffer.push_text(""), strings(&[]));
    assert_eq!(buffer.push_text("\n"), strings(&["rest"]));
}

#[test]
fn pieces_do_not_matter() {
    let text = "frame=1\rframe=2\nspeed=1x\n\ntail";
    let mut whole = LineBuffer::new();
    let all = whole.push_text(text);
    for cut in 0..text.len() {
        let mut buffer = LineBuffer::new();
        let mut lines = buffer.push_text(&text[..cut]);
        lines.extend(buffer.push_text(&text[cut..]));
        assert_eq!(lines, all);
    }
}

#[test]
fn bytes_that_are_no_text_are_replaced() {
    let mut buffer = LineBuffer::new();
    assert_eq!(buffer.push_bytes("값\n".as_bytes()), strings(&["값"]));
    assert_eq!(buffer.push_bytes(b"a\xffb\n"), strings(&["a\u{fffd}b"]));
}
