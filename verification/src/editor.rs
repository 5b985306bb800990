//! The editor: a video with a preview position, two trim marks and a crop area, and the labels
//! that show them.

use vstd::prelude::*;

use crate::clock;
use crate::clock::Seconds;
use crate::crop;
use crate::crop::CropArea;
use crate::jobs;
use crate::log;
use crate::reading;
use crate::probe::VideoInfo;
use crate::progress;

verus! {

/// How far the preview moves at each tick while it plays, in microseconds.
pub const STEP: i64 = 500_000;

/// The editor as it is seen from outside.
#[verifier::ext_equal]
pub struct EditorState {
    pub loaded: bool,
    pub playing: bool,
    pub duration: int,
    pub width: int,
    pub height: int,
    pub preview: int,
    pub trim_start: int,
    pub trim_end: int,
    pub area: CropArea,
    pub preview_label: Seq<char>,
    pub start_label: Seq<char>,
    pub end_label: Seq<char>,
    pub info_label: Seq<char>,
    pub crop_label: Seq<char>,
    pub status: Seq<char>,
}

pub open spec fn min(a: int, b: int) -> int {
    if a < b {
        a
    } else {
        b
    }
}

pub open spec fn max(a: int, b: int) -> int {
    if a > b {
        a
    } else {
        b
    }
}

/// Where the start mark goes when it is set at `t`: not closer to the end mark than the shortest
/// span, and not before the beginning.
pub open spec fn marked_start(t: int, trim_end: int) -> int {
    max(min(t, max(trim_end - jobs::MIN_SPAN, 0)), 0)
}

/// Where the end mark goes when it is set at `t`: not closer to the start mark than the shortest
/// span, and not past the end of the video.
pub open spec fn marked_end(t: int, trim_start: int, duration: int) -> int {
    min(max(t, trim_start + jobs::MIN_SPAN), duration)
}

/// The line on a video that has been opened.
pub open spec fn info_line(name: Seq<char>, info: VideoInfo) -> Seq<char> {
    name + "  |  길이 "@ + clock::hms(info.duration.micros as int) + "  |  해상도 "@
        + crop::size_text(info.width as int, info.height as int)
}

impl EditorState {
    /// Nothing has been opened.
    pub open spec fn empty() -> EditorState {
        EditorState {
            loaded: false,
            playing: false,
            duration: 0,
            width: 0,
            height: 0,
            preview: 0,
            trim_start: 0,
            trim_end: 0,
            area: CropArea::everything(),
            preview_label: clock::hms(0),
            start_label: clock::hms(0),
            end_label: clock::hms(0),
            info_label: Seq::<char>::empty(),
            crop_label: Seq::<char>::empty(),
            status: Seq::<char>::empty(),
        }
    }

    /// The preview at the beginning, the marks around everything, the whole picture kept.
    pub open spec fn rewound(self) -> EditorState {
        EditorState {
            playing: false,
            preview: 0,
            trim_start: 0,
            trim_end: self.duration,
            area: CropArea::everything(),
            preview_label: clock::hms(0),
            start_label: clock::hms(0),
            end_label: clock::hms(self.duration),
            ..self
        }
    }

    /// The file `name` has been opened.
    pub open spec fn after_load(self, name: Seq<char>, info: VideoInfo) -> EditorState {
        EditorState {
            loaded: true,
            duration: info.duration.micros as int,
            width: info.width as int,
            height: info.height as int,
            info_label: info_line(name, info),
            crop_label: crop::whole_line(info.width as int, info.height as int),
            status:
                "비디오를 불러왔습니다. 타임라인에서 구간을 선택하고 크롭 영역을 지정하세요."@,
            ..self
        }.rewound()
    }

    /// A file could not be opened.
    pub open spec fn after_load_failure(self, reason: Seq<char>) -> EditorState {
        EditorState {
            loaded: false,
            playing: false,
            status: "비디오 정보를 읽지 못했습니다: "@ + reason,
            ..self
        }
    }

    /// The preview has been moved to `t`.
    pub open spec fn after_seek(self, t: int) -> EditorState {
        self.shown_at(progress::between(t, 0, self.duration))
    }

    /// The preview stands at `t`.
    pub open spec fn shown_at(self, t: int) -> EditorState {
        EditorState { preview: t, preview_label: clock::hms(t), ..self }
    }

    /// The marks stand at `start` and `end`.
    pub open spec fn trimmed_to(self, start: int, end: int) -> EditorState {
        EditorState {
            trim_start: start,
            trim_end: end,
            start_label: clock::hms(start),
            end_label: clock::hms(end),
            ..self
        }
    }

    /// The start mark has been set at the preview.
    pub open spec fn after_mark_start(self) -> EditorState {
        let start = marked_start(self.preview, self.trim_end);
        EditorState { trim_start: start, start_label: clock::hms(start), ..self }
    }

    /// The end mark has been set at the preview.
    pub open spec fn after_mark_end(self) -> EditorState {
        let end = marked_end(self.preview, self.trim_start, self.duration);
        EditorState { trim_end: end, end_label: clock::hms(end), ..self }
    }

    /// The crop area has been redrawn.
    pub open spec fn cropped_to(self, area: CropArea) -> EditorState {
        EditorState { area, crop_label: crop::area_line(area, self.width, self.height), ..self }
    }

    /// Play or pause has been pressed. Without a video there is nothing to play.
    pub open spec fn after_toggle(self) -> EditorState {
        EditorState { playing: !self.playing && self.loaded, ..self }
    }

    /// The preview has been stopped.
    pub open spec fn after_stop(self) -> EditorState {
        EditorState { playing: false, ..self }
    }

    /// A tick has passed while the preview plays: it moves on, and stops at the end.
    pub open spec fn after_tick(self) -> EditorState {
        if !self.playing {
            self
        } else if self.preview + STEP >= self.duration {
            EditorState { playing: false, ..self.shown_at(self.duration) }
        } else {
            self.shown_at(self.preview + STEP)
        }
    }

    /// The marks and the crop area have been reset.
    pub open spec fn after_reset(self) -> EditorState {
        EditorState {
            crop_label: if self.loaded {
                crop::whole_line(self.width, self.height)
            } else {
                self.crop_label
            },
            status: "편집 옵션을 초기화했습니다."@,
            ..self.rewound()
        }
    }

    /// The preview lies in the video, the marks too, and the span between them is no shorter
    /// than the shortest one.
    pub open spec fn in_order(self) -> bool {
        &&& 0 <= self.preview <= self.duration
        &&& 0 <= self.trim_start
        &&& self.trim_start + jobs::MIN_SPAN <= self.trim_end
        &&& self.trim_end <= self.duration
    }

    /// The labels show where the preview and the marks stand and, once a video has been opened,
    /// which part of the picture is kept.
    pub open spec fn labelled(self) -> bool {
        &&& self.preview_label == clock::hms(self.preview)
        &&& self.start_label == clock::hms(self.trim_start)
        &&& self.end_label == clock::hms(self.trim_end)
        &&& self.loaded ==> {
            ||| self.crop_label == crop::area_line(self.area, self.width, self.height)
            ||| self.area == CropArea::everything() && self.crop_label == crop::whole_line(
                self.width,
                self.height,
            )
        }
    }

    /// Whether `other` shows the same video.
    pub open spec fn same_video(self, other: EditorState) -> bool {
        &&& self.loaded == other.loaded
        &&& self.duration == other.duration
        &&& self.width == other.width
        &&& self.height == other.height
        &&& self.info_label == other.info_label
    }

    /// Whether `other` differs in nothing but the preview, its label, and whether it plays.
    pub open spec fn same_but_preview(self, other: EditorState) -> bool {
        &&& self.same_video(other)
        &&& self.trim_start == other.trim_start
        &&& self.trim_end == other.trim_end
        &&& self.start_label == other.start_label
        &&& self.end_label == other.end_label
        &&& self.area == other.area
        &&& self.crop_label == other.crop_label
        &&& self.status == other.status
    }

    /// Whether `other` differs in nothing but the marks and their labels.
    pub open spec fn same_but_marks(self, other: EditorState) -> bool {
        &&& self.same_video(other)
        &&& self.playing == other.playing
        &&& self.preview == other.preview
        &&& self.preview_label == other.preview_label
        &&& self.area == other.area
        &&& self.crop_label == other.crop_label
        &&& self.status == other.status
    }

    /// Only a video that has been opened plays.
    pub open spec fn plays_only_loaded(self) -> bool {
        self.playing ==> self.loaded
    }
}

/// The name under which a video is shown: its file name, or nothing where it has none.
pub open spec fn shown_name(name: Option<Seq<char>>) -> Seq<char> {
    match name {
        Some(n) => n,
        None => Seq::<char>::empty(),
    }
}

/// Opening a video that is not shorter than the shortest span puts everything in order, and no
/// action but moving the marks freely takes it out of order.
pub proof fn law_actions_keep_order(
    s: EditorState,
    name: Seq<char>,
    info: VideoInfo,
    t: int,
    area: CropArea,
    reason: Seq<char>,
)
    ensures
        info.duration.micros >= jobs::MIN_SPAN ==> s.after_load(name, info).in_order(),
        s.in_order() ==> s.after_seek(t).in_order(),
        s.in_order() ==> s.after_mark_start().in_order(),
        s.in_order() ==> s.after_mark_end().in_order(),
        s.in_order() ==> s.cropped_to(area).in_order(),
        s.in_order() ==> s.after_toggle().in_order(),
        s.in_order() ==> s.after_tick().in_order(),
        s.in_order() ==> s.after_stop().in_order(),
        s.in_order() ==> s.after_reset().in_order(),
        s.in_order() ==> s.after_load_failure(reason).in_order(),
{
}

/// The labels agree with what they show after every action.
pub proof fn law_labels_agree(
    s: EditorState,
    name: Seq<char>,
    info: VideoInfo,
    t: int,
    start: int,
    end: int,
    area: CropArea,
    reason: Seq<char>,
)
    ensures
        EditorState::empty().labelled(),
        s.after_load(name, info).labelled(),
        s.after_reset().labelled(),
        s.labelled() ==> s.after_seek(t).labelled(),
        s.labelled() ==> s.trimmed_to(start, end).labelled(),
        s.labelled() ==> s.after_mark_start().labelled(),
        s.labelled() ==> s.after_mark_end().labelled(),
        s.labelled() ==> s.cropped_to(area).labelled(),
        s.labelled() ==> s.after_toggle().labelled(),
        s.labelled() ==> s.after_tick().labelled(),
        s.labelled() ==> s.after_stop().labelled(),
        s.labelled() ==> s.after_load_failure(reason).labelled(),
{
}

/// No action makes the preview play without a video.
pub proof fn law_plays_only_loaded(
    s: EditorState,
    name: Seq<char>,
    info: VideoInfo,
    t: int,
    start: int,
    end: int,
    area: CropArea,
    reason: Seq<char>,
)
    requires
        s.plays_only_loaded(),
    ensures
        EditorState::empty().plays_only_loaded(),
        s.after_load(name, info).plays_only_loaded(),
        s.after_load_failure(reason).plays_only_loaded(),
        s.after_seek(t).plays_only_loaded(),
        s.trimmed_to(start, end).plays_only_loaded(),
        s.after_mark_start().plays_only_loaded(),
        s.after_mark_end().plays_only_loaded(),
        s.cropped_to(area).plays_only_loaded(),
        s.after_toggle().plays_only_loaded(),
        s.after_tick().plays_only_loaded(),
        s.after_stop().plays_only_loaded(),
        s.after_reset().plays_only_loaded(),
{
}

/// A reset brings back the marks, the crop area and the labels of a video that has just been
/// opened, whatever was done in between.
pub proof fn law_reset_undoes_edits(s: EditorState, name: Seq<char>, info: VideoInfo)
    requires
        s.loaded,
        s.duration == info.duration.micros,
        s.width == info.width,
        s.height == info.height,
        s.info_label == info_line(name, info),
    ensures
        s.after_reset() == (EditorState {
            status: s.after_reset().status,
            ..s.after_load(name, info)
        }),
{
}

/// Playing comes to an end: a tick either stops the preview or brings it a step closer to the
/// end of the video.
pub proof fn law_playing_ends(s: EditorState)
    requires
        s.playing,
    ensures
        !s.after_tick().playing ==> s.after_tick().preview == s.duration,
        s.after_tick().playing ==> s.after_tick().preview == s.preview + STEP
            && s.after_tick().preview < s.duration,
{
}

/// The preview goes where it is told, as far as the video reaches, and nothing but the preview
/// and its label changes. Where it was before does not matter.
pub proof fn law_seek_goes_there(s: EditorState, t: int, before: int)
    requires
        s.duration >= 0,
    ensures
        0 <= t <= s.duration ==> s.after_seek(t).preview == t,
        t < 0 ==> s.after_seek(t).preview == 0,
        t > s.duration ==> s.after_seek(t).preview == s.duration,
        s.after_seek(before).after_seek(t) == s.after_seek(t),
        s.same_but_preview(s.after_seek(t)),
        s.playing == s.after_seek(t).playing,
{
}

/// The start mark goes to the preview where at least a twentieth of a second is left before the
/// end mark, else to a twentieth of a second before the end mark, and never before the beginning.
/// Nothing else moves.
pub proof fn law_start_mark(s: EditorState)
    ensures
        0 <= s.preview && s.preview + 50_000 <= s.trim_end ==> s.after_mark_start().trim_start
            == s.preview,
        s.preview + 50_000 > s.trim_end && s.trim_end >= 50_000 ==> s.after_mark_start().trim_start
            + 50_000 == s.trim_end,
        s.preview <= 0 || s.trim_end <= 50_000 ==> s.after_mark_start().trim_start == 0,
        s.after_mark_start().trim_end == s.trim_end,
        s.after_mark_start().preview == s.preview,
        s.same_but_marks(s.after_mark_start()),
{
}

/// The end mark goes to the preview where that is at least a twentieth of a second behind the
/// start mark, else to a twentieth of a second behind the start mark, and never past the end of
/// the video. Nothing else moves.
pub proof fn law_end_mark(s: EditorState)
    ensures
        s.trim_start + 50_000 <= s.preview <= s.duration ==> s.after_mark_end().trim_end
            == s.preview,
        s.preview < s.trim_start + 50_000 <= s.duration ==> s.after_mark_end().trim_end
            == s.trim_start + 50_000,
        s.preview >= s.duration || s.trim_start + 50_000 >= s.duration
            ==> s.after_mark_end().trim_end == s.duration,
        s.after_mark_end().trim_start == s.trim_start,
        s.after_mark_end().preview == s.preview,
        s.same_but_marks(s.after_mark_end()),
{
}

/// Marks and crop areas that are given are taken as they are, and change nothing else.
pub proof fn law_edits_are_taken(s: EditorState, start: int, end: int, area: CropArea)
    ensures
        s.trimmed_to(start, end).trim_start == start,
        s.trimmed_to(start, end).trim_end == end,
        s.trimmed_to(start, end).preview == s.preview,
        s.same_but_marks(s.trimmed_to(start, end)),
        s.cropped_to(area).area == area,
        s.cropped_to(area).trim_start == s.trim_start,
        s.cropped_to(area).trim_end == s.trim_end,
        s.cropped_to(area).preview == s.preview,
        s.cropped_to(area).playing == s.playing,
        s.same_video(s.cropped_to(area)),
        s.cropped_to(area).status == s.status,
{
}

/// At first there is no video, nothing plays, and no mark is anywhere but at the beginning.
pub proof fn law_nothing_at_first()
    ensures
        ({
            let e = EditorState::empty();
            &&& !e.loaded && !e.playing
            &&& e.duration == 0 && e.width == 0 && e.height == 0
            &&& e.preview == 0 && e.trim_start == 0 && e.trim_end == 0
            &&& e.area.covers_frame()
            &&& e.info_label.len() == 0 && e.crop_label.len() == 0 && e.status.len() == 0
        }),
{
}

/// A video that is opened is taken over with its length and size: the preview is at its
/// beginning, the marks are at its ends, the whole picture is kept, and nothing plays. What was
/// there before does not matter.
pub proof fn law_load_takes_over(s: EditorState, other: EditorState, name: Seq<char>, info: VideoInfo)
    ensures
        ({
            let n = s.after_load(name, info);
            &&& n.loaded && !n.playing
            &&& n.duration == info.duration.micros
            &&& n.width == info.width && n.height == info.height
            &&& n.preview == 0 && n.trim_start == 0 && n.trim_end == info.duration.micros
            &&& n.area.x == 0 && n.area.y == 0
            &&& n.area.w == 1_000_000_000 && n.area.h == 1_000_000_000
            &&& n == other.after_load(name, info)
        }),
        info_line(name, info).take(name.len() as int) == name,
        ({
            let line = info_line(name, info);
            let size = crop::size_text(info.width as int, info.height as int);
            let length = clock::hms(info.duration.micros as int);
            let from = name.len() + "  |  길이 "@.len();
            &&& line.skip(line.len() - size.len()) == size
            &&& line.subrange(from as int, (from + length.len()) as int) == length
        }),
{
    let length = clock::hms(info.duration.micros as int);
    let from = (name.len() + "  |  길이 "@.len()) as int;
    assert(info_line(name, info).subrange(from, from + length.len()) =~= length);
    let line = info_line(name, info);
    let size = crop::size_text(info.width as int, info.height as int);
    assert(line.skip(line.len() - size.len()) =~= size);
    assert(s.after_load(name, info) =~= other.after_load(name, info));
    assert(info_line(name, info).take(name.len() as int) =~= name);
}

/// A video that cannot be opened leaves the edits as they are; it only stops the preview, and
/// says why.
pub proof fn law_failure_keeps_edits(s: EditorState, reason: Seq<char>)
    ensures
        ({
            let n = s.after_load_failure(reason);
            &&& !n.loaded && !n.playing
            &&& s.same_but_preview(EditorState { loaded: s.loaded, status: s.status, ..n })
            &&& n.preview == s.preview && n.preview_label == s.preview_label
            &&& n.status.skip(n.status.len() - reason.len()) == reason
        }),
{
    let n = s.after_load_failure(reason);
    assert(n.status.skip(n.status.len() - reason.len()) =~= reason);
}

/// Play and pause take turns while there is a video. Neither they nor stop move anything.
pub proof fn law_play_and_pause(s: EditorState)
    ensures
        s.loaded ==> s.after_toggle().playing == !s.playing,
        !s.loaded ==> !s.after_toggle().playing,
        s.loaded ==> s.after_toggle().after_toggle() == s,
        !s.after_stop().playing,
        s.same_but_preview(s.after_toggle()) && s.after_toggle().preview == s.preview,
        s.same_but_preview(s.after_stop()) && s.after_stop().preview == s.preview,
{
    assert(s.loaded ==> s.after_toggle().after_toggle() =~= s);
}

/// A tick moves a preview that plays on by half a second, and no further than the end, where it
/// stops; a preview that does not play stays. Nothing else moves.
pub proof fn law_tick_is_half_a_second(s: EditorState)
    ensures
        !s.playing ==> s.after_tick() == s,
        s.playing && s.preview + 500_000 < s.duration ==> s.after_tick().playing
            && s.after_tick().preview == s.preview + 500_000,
        s.playing && s.preview + 500_000 >= s.duration ==> !s.after_tick().playing
            && s.after_tick().preview == s.duration,
        s.same_but_preview(s.after_tick()),
{
}

/// Marks that are in order are no reason to refuse a cut.
pub proof fn law_ordered_marks_can_be_cut(
    s: EditorState,
    ffmpeg: Seq<char>,
    start: Seconds,
    end: Seconds,
)
    requires
        s.in_order(),
        start.micros == s.trim_start,
        end.micros == s.trim_end,
        ffmpeg.len() > 0,
    ensures
        jobs::cut_refusal(ffmpeg, true, start, end) is None,
{
}

/// What the timer of the preview has to do.
#[derive(Clone, Copy, Debug, PartialEq, Eq, Structural)]
pub enum TimerAction {
    /// Nothing changes.
    Keep,
    /// It starts.
    Start,
    /// It stops.
    Stop,
}

/// What follows from a tick.
#[derive(Clone, Copy, Debug, PartialEq, Eq, Structural)]
pub enum TickAction {
    /// The timer stops.
    Stop,
    /// The picture at this time is wanted.
    Frame(Seconds),
}

/// The editor.
#[derive(Debug)]
pub struct Editor {
    pub loaded: bool,
    pub playing: bool,
    pub duration: Seconds,
    pub width: i32,
    pub height: i32,
    pub preview: Seconds,
    pub trim_start: Seconds,
    pub trim_end: Seconds,
    pub area: CropArea,
    pub preview_label: String,
    pub start_label: String,
    pub end_label: String,
    pub info_label: String,
    pub crop_label: String,
    pub status: String,
}

impl View for Editor {
    type V = EditorState;

    open spec fn view(&self) -> EditorState {
        EditorState {
            loaded: self.loaded,
            playing: self.playing,
            duration: self.duration.micros as int,
            width: self.width as int,
            height: self.height as int,
            preview: self.preview.micros as int,
            trim_start: self.trim_start.micros as int,
            trim_end: self.trim_end.micros as int,
            area: self.area,
            preview_label: self.preview_label@,
            start_label: self.start_label@,
            end_label: self.end_label@,
            info_label: self.info_label@,
            crop_label: self.crop_label@,
            status: self.status@,
        }
    }
}

impl Editor {
    /// Nothing has been opened.
    pub fn new() -> (e: Editor)
        ensures
            e@ == EditorState::empty(),
    {
        let zero = Seconds { micros: 0 };
        Editor {
            loaded: false,
            playing: false,
            duration: zero,
            width: 0,
            height: 0,
            preview: zero,
            trim_start: zero,
            trim_end: zero,
            area: CropArea::whole(),
            preview_label: clock::seconds_to_hms(zero),
            start_label: clock::seconds_to_hms(zero),
            end_label: clock::seconds_to_hms(zero),
            info_label: String::new(),
            crop_label: String::new(),
            status: String::new(),
        }
    }

    fn rewind(&mut self)
        ensures
            final(self)@ == old(self)@.rewound(),
    {
        let zero = Seconds { micros: 0 };
        self.playing = false;
        self.preview = zero;
        self.trim_start = zero;
        self.trim_end = self.duration;
        self.area = CropArea::whole();
        self.preview_label = clock::seconds_to_hms(zero);
        self.start_label = clock::seconds_to_hms(zero);
        self.end_label = clock::seconds_to_hms(self.duration);
    }

    /// The file `name` has been opened. Hands out the time whose picture is wanted.
    pub fn load(&mut self, name: &str, info: VideoInfo) -> (frame: Seconds)
        ensures
            final(self)@ == old(self)@.after_load(name@, info),
            frame.micros == 0,
    {
        self.loaded = true;
        self.duration = info.duration;
        self.width = info.width;
        self.height = info.height;
        let mut line = name.to_owned();
        line.append("  |  길이 ");
        line.append(clock::seconds_to_hms(info.duration).as_str());
        line.append("  |  해상도 ");
        crop::push_size(&mut line, info.width, info.height);
        self.info_label = line;
        self.crop_label = crop::whole_text(info.width, info.height);
        self.status =
        "비디오를 불러왔습니다. 타임라인에서 구간을 선택하고 크롭 영역을 지정하세요.".to_owned();
        self.rewind();
        Seconds { micros: 0 }
    }

    /// The video at `path` has been opened: it is shown under its file name. Hands out the time
    /// whose picture is wanted.
    pub fn open(&mut self, path: &str, info: VideoInfo) -> (frame: Seconds)
        ensures
            exists|name: Option<Seq<char>>| #[trigger]
                reading::is_file_name(path@, name) && final(self)@ == old(self)@.after_load(
                    shown_name(name),
                    info,
                ),
            frame.micros == 0,
    {
        let name = reading::file_name(path);
        assert(reading::is_file_name(path@, log::text_of(name)));
        match name {
            Some(n) => self.load(n.as_str(), info),
            None => {
                proof {
                    reveal_strlit("");
                    assert(""@ =~= Seq::<char>::empty());
                }
                self.load("", info)
            },
        }
    }

    /// A file could not be opened.
    pub fn load_failed(&mut self, reason: &str)
        ensures
            final(self)@ == old(self)@.after_load_failure(reason@),
    {
        self.loaded = false;
        self.playing = false;
        let mut status = "비디오 정보를 읽지 못했습니다: ".to_owned();
        status.append(reason);
        self.status = status;
    }

    /// Moves the preview to `t`. Hands out the time whose picture is wanted, a little earlier, if
    /// there is a video and something to take pictures with.
    pub fn seek(&mut self, t: Seconds, ffmpeg: &str) -> (frame: Option<Seconds>)
        requires
            old(self).duration.micros >= 0,
        ensures
            final(self)@ == old(self)@.after_seek(t.micros as int),
            match frame {
                Some(f) => old(self)@.loaded && ffmpeg@.len() > 0 && f.micros == max(
                    final(self)@.preview - jobs::MIN_SPAN,
                    0,
                ),
                None => !old(self)@.loaded || ffmpeg@.len() == 0,
            },
            frame matches Some(f) ==> (if final(self)@.preview >= 50_000 {
                f.micros + 50_000 == final(self)@.preview
            } else {
                f.micros == 0
            }),
    {
        let at: i64 = if t.micros < 0 {
            0
        } else if t.micros > self.duration.micros {
            self.duration.micros
        } else {
            t.micros
        };
        self.preview = Seconds { micros: at };
        self.preview_label = clock::seconds_to_hms(self.preview);
        if self.loaded && !ffmpeg.is_empty() {
            let earlier: i64 = if at < jobs::MIN_SPAN {
                0
            } else {
                at - jobs::MIN_SPAN
            };
            Some(Seconds { micros: earlier })
        } else {
            None
        }
    }

    /// Sets the start mark at the preview.
    pub fn mark_trim_start(&mut self)
        ensures
            final(self)@ == old(self)@.after_mark_start(),
    {
        let latest: i128 = self.trim_end.micros as i128 - jobs::MIN_SPAN as i128;
        let t: i128 = self.preview.micros as i128;
        let limit: i128 = if latest > 0 {
            latest
        } else {
            0
        };
        let at: i128 = if t < limit {
            t
        } else {
            limit
        };
        self.trim_start = Seconds {
            micros: if at > 0 {
                at as i64
            } else {
                0
            },
        };
        self.start_label = clock::seconds_to_hms(self.trim_start);
    }

    /// Sets the end mark at the preview.
    pub fn mark_trim_end(&mut self)
        ensures
            final(self)@ == old(self)@.after_mark_end(),
    {
        let earliest: i128 = self.trim_start.micros as i128 + jobs::MIN_SPAN as i128;
        let t: i128 = self.preview.micros as i128;
        let at: i128 = if t > earliest {
            t
        } else {
            earliest
        };
        let end: i128 = self.duration.micros as i128;
        self.trim_end = Seconds {
            micros: if at < end {
                at as i64
            } else {
                end as i64
            },
        };
        self.end_label = clock::seconds_to_hms(self.trim_end);
    }

    /// The marks have been moved to `start` and `end`.
    pub fn trim_changed(&mut self, start: Seconds, end: Seconds)
        ensures
            final(self)@ == old(self)@.trimmed_to(start.micros as int, end.micros as int),
    {
        self.trim_start = start;
        self.trim_end = end;
        self.start_label = clock::seconds_to_hms(start);
        self.end_label = clock::seconds_to_hms(end);
    }

    /// The crop area has been redrawn.
    pub fn crop_changed(&mut self, area: CropArea)
        ensures
            final(self)@ == old(self)@.cropped_to(area),
    {
        self.area = area;
        self.crop_label = crop::area_text(area, self.width, self.height);
    }

    /// Play or pause has been pressed.
    pub fn toggle_play(&mut self) -> (timer: TimerAction)
        ensures
            final(self)@ == old(self)@.after_toggle(),
            timer == (if old(self)@.playing {
                TimerAction::Stop
            } else if old(self)@.loaded {
                TimerAction::Start
            } else {
                TimerAction::Keep
            }),
    {
        if self.playing {
            self.playing = false;
            TimerAction::Stop
        } else if !self.loaded {
            TimerAction::Keep
        } else {
            self.playing = true;
            TimerAction::Start
        }
    }

    /// A tick of the preview's timer has passed.
    pub fn tick(&mut self) -> (next: TickAction)
        ensures
            final(self)@ == old(self)@.after_tick(),
            match next {
                TickAction::Stop => !final(self)@.playing,
                TickAction::Frame(t) => final(self)@.playing && t.micros == final(self)@.preview,
            },
    {
        if !self.playing {
            return TickAction::Stop;
        }
        let t: i128 = self.preview.micros as i128 + STEP as i128;
        if t >= self.duration.micros as i128 {
            self.preview = self.duration;
            self.preview_label = clock::seconds_to_hms(self.duration);
            self.playing = false;
            TickAction::Stop
        } else {
            self.preview = Seconds { micros: t as i64 };
            self.preview_label = clock::seconds_to_hms(self.preview);
            TickAction::Frame(self.preview)
        }
    }

    /// Resets the marks and the crop area. Hands out the time whose picture is wanted, if there
    /// is a video and something to take pictures with.
    pub fn reset(&mut self, ffmpeg: &str) -> (frame: Option<Seconds>)
        ensures
            final(self)@ == old(self)@.after_reset(),
            match frame {
                Some(f) => old(self)@.loaded && ffmpeg@.len() > 0 && f.micros == 0,
                None => !old(self)@.loaded || ffmpeg@.len() == 0,
            },
    {
        self.rewind();
        if self.loaded {
            self.crop_label = crop::whole_text(self.width, self.height);
        }
        self.status = "편집 옵션을 초기화했습니다.".to_owned();
        if self.loaded && !ffmpeg.is_empty() {
            Some(Seconds { micros: 0 })
        } else {
            None
        }
    }

    /// Stops the preview, as every job does before it begins.
    pub fn stop(&mut self)
        ensures
            final(self)@ == old(self)@.after_stop(),
    {
        self.playing = false;
    }
}

} // verus!
