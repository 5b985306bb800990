//! Cuts and crops: whether a job can be run, and with what.

use vstd::prelude::*;

use crate::clock;
use crate::clock::Seconds;
use crate::command;
use crate::crop;
use crate::crop::CropArea;
use crate::decimal;
use crate::outputs;
use crate::text;

verus! {

/// The shortest span that can be cut out, in microseconds; the trim marks are kept this far
/// apart.
pub const MIN_SPAN: i64 = 50_000;

/// Why a job is not run.
#[derive(Clone, Copy, Debug, PartialEq, Eq, Structural)]
pub enum Refusal {
    /// It is not known where FFmpeg is.
    NoFfmpeg,
    /// The file is not there.
    NoFile,
    /// The span is too short.
    BadSpan,
    /// The size of the picture is not known.
    UnknownSize,
}

impl Refusal {
    /// What the user is told.
    pub open spec fn spec_message(self) -> Seq<char> {
        match self {
            Refusal::NoFfmpeg => "FFmpeg 경로가 설정되지 않았습니다."@,
            Refusal::NoFile => "비디오 파일이 없습니다."@,
            Refusal::BadSpan => "잘라낼 구간이 올바르지 않습니다 (시작 < 끝)."@,
            Refusal::UnknownSize => "비디오 해상도를 알 수 없어 크롭을 실행할 수 없습니다."@,
        }
    }

    /// What the user is told.
    pub fn message(&self) -> (s: String)
        ensures
            s@ == self.spec_message(),
    {
        match self {
            Refusal::NoFfmpeg => "FFmpeg 경로가 설정되지 않았습니다.".to_owned(),
            Refusal::NoFile => "비디오 파일이 없습니다.".to_owned(),
            Refusal::BadSpan => "잘라낼 구간이 올바르지 않습니다 (시작 < 끝).".to_owned(),
            Refusal::UnknownSize =>
                "비디오 해상도를 알 수 없어 크롭을 실행할 수 없습니다.".to_owned(),
        }
    }
}

/// What a job does.
#[derive(Debug)]
pub enum Work {
    /// Copies the span.
    Cut,
    /// Encodes the span through a filter, with a quality.
    Crop { filter: String, crf: i32 },
}

/// A job on a span of a file.
#[derive(Debug)]
pub struct EditJob {
    pub src: String,
    pub out: String,
    pub start: Seconds,
    pub dur: Seconds,
    pub work: Work,
    /// What the user is told when the job begins.
    pub status: String,
}

/// The length of the span.
pub open spec fn span(start: Seconds, end: Seconds) -> int {
    clock::clamp64(end.micros - start.micros)
}

/// Why a span cannot be cut out. Of several reasons the first one counts.
pub open spec fn cut_refusal(
    ffmpeg: Seq<char>,
    src_exists: bool,
    start: Seconds,
    end: Seconds,
) -> Option<Refusal> {
    if ffmpeg.len() == 0 {
        Some(Refusal::NoFfmpeg)
    } else if !src_exists {
        Some(Refusal::NoFile)
    } else if span(start, end) < MIN_SPAN {
        Some(Refusal::BadSpan)
    } else {
        None
    }
}

/// Why an area cannot be cropped. An area that covers the frame is not cropped but cut.
pub open spec fn crop_refusal(
    ffmpeg: Seq<char>,
    src_exists: bool,
    start: Seconds,
    end: Seconds,
    area: CropArea,
    width: i32,
    height: i32,
) -> Option<Refusal> {
    match cut_refusal(ffmpeg, src_exists, start, end) {
        Some(r) => Some(r),
        None => if !area.covers_frame() && (width <= 0 || height <= 0) {
            Some(Refusal::UnknownSize)
        } else {
            None
        },
    }
}

impl EditJob {
    /// Whether this is the job on the span from `start` to `end` of `src`.
    pub open spec fn is_on(self, src: Seq<char>, start: Seconds, end: Seconds) -> bool {
        &&& self.src@ == src
        &&& self.start == start
        &&& self.dur.micros == span(start, end)
    }

    /// FFmpeg's arguments.
    pub open spec fn command(self) -> Seq<Seq<char>> {
        match self.work {
            Work::Cut => command::cut_command(
                self.src@,
                self.out@,
                self.start.micros as int,
                self.dur.micros as int,
            ),
            Work::Crop { filter, crf } => command::crop_command(
                self.src@,
                self.out@,
                self.start.micros as int,
                self.dur.micros as int,
                filter@,
                crf as int,
            ),
        }
    }

    /// What the job is called.
    pub open spec fn label(self) -> Seq<char> {
        match self.work {
            Work::Cut => "잘라내기"@,
            Work::Crop { .. } => "크롭+컷"@,
        }
    }

    /// FFmpeg's arguments.
    pub fn args(&self) -> (args: Vec<String>)
        ensures
            text::texts(args@) == self.command(),
    {
        match &self.work {
            Work::Cut => command::cut_args(
                self.src.as_str(),
                self.out.as_str(),
                self.start,
                self.dur,
            ),
            Work::Crop { filter, crf } => command::crop_args(
                self.src.as_str(),
                self.out.as_str(),
                self.start,
                self.dur,
                filter.as_str(),
                *crf,
            ),
        }
    }

    /// What the user is told when the job has ended.
    pub open spec fn end_line(self, ok: bool) -> Seq<char> {
        if ok {
            self.label() + " 완료: "@ + self.out@
        } else {
            self.label() + " 실패"@
        }
    }

    /// What the user is told when the job has ended.
    pub fn end_status(&self, ok: bool) -> (s: String)
        ensures
            s@ == self.end_line(ok),
    {
        let mut s = match &self.work {
            Work::Cut => "잘라내기".to_owned(),
            Work::Crop { .. } => "크롭+컷".to_owned(),
        };
        if ok {
            s.append(" 완료: ");
            s.append(self.out.as_str());
        } else {
            s.append(" 실패");
        }
        s
    }

    /// The job has ended.
    pub fn ended(&self, ok: bool) -> (e: JobEnd)
        ensures
            !e.busy,
            e.progress_full == ok,
            e.status@ == self.end_line(ok),
    {
        JobEnd { busy: false, progress_full: ok, status: self.end_status(ok) }
    }
}

/// What is shown at the end of a job.
#[derive(Debug)]
pub struct JobEnd {
    /// Whether a job is still under way.
    pub busy: bool,
    /// Whether the progress is shown as full; if not, it stays as it is.
    pub progress_full: bool,
    pub status: String,
}

/// The length of the span.
fn span_of(start: Seconds, end: Seconds) -> (dur: Seconds)
    ensures
        dur.micros == span(start, end),
{
    Seconds { micros: clock::to_i64(end.micros as i128 - start.micros as i128) }
}

/// What both jobs have in common: the span, or why there is none.
fn checked_span(ffmpeg: &str, src_exists: bool, start: Seconds, end: Seconds) -> (r: Result<
    Seconds,
    Refusal,
>)
    ensures
        match r {
            Ok(dur) => cut_refusal(ffmpeg@, src_exists, start, end) is None && dur.micros == span(
                start,
                end,
            ),
            Err(e) => cut_refusal(ffmpeg@, src_exists, start, end) == Some(e),
        },
{
    if ffmpeg.is_empty() {
        return Err(Refusal::NoFfmpeg);
    }
    if !src_exists {
        return Err(Refusal::NoFile);
    }
    let dur = span_of(start, end);
    if dur.micros < MIN_SPAN {
        return Err(Refusal::BadSpan);
    }
    Ok(dur)
}

/// The job that cuts the span from `start` to `end` out of `src`.
pub fn plan_cut(
    ffmpeg: &str,
    src: &str,
    src_exists: bool,
    start: Seconds,
    end: Seconds,
) -> (job: Result<EditJob, Refusal>)
    ensures
        match job {
            Ok(j) => {
                &&& cut_refusal(ffmpeg@, src_exists, start, end) is None
                &&& j.is_on(src@, start, end)
                &&& end.micros - start.micros <= i64::MAX ==> j.start.micros + j.dur.micros
                    == end.micros
                &&& j.work is Cut
                &&& outputs::cuts_to(src@, j.out@)
                &&& j.status@ == "잘라내기 시작: "@ + src@
            },
            Err(e) => cut_refusal(ffmpeg@, src_exists, start, end) == Some(e),
        },
{
    match checked_span(ffmpeg, src_exists, start, end) {
        Ok(dur) => {
            let mut status = "잘라내기 시작: ".to_owned();
            status.append(src);
            Ok(
                EditJob {
                    src: src.to_owned(),
                    out: outputs::cut_output(src),
                    start,
                    dur,
                    work: Work::Cut,
                    status,
                },
            )
        },
        Err(e) => Err(e),
    }
}

/// The job that crops the span from `start` to `end` of `src` to `area`. An area that covers the
/// frame needs no crop: the span is then cut out without loss.
pub fn plan_crop(
    ffmpeg: &str,
    src: &str,
    src_exists: bool,
    start: Seconds,
    end: Seconds,
    area: CropArea,
    width: i32,
    height: i32,
    crf: i32,
) -> (job: Result<EditJob, Refusal>)
    requires
        crop_refusal(ffmpeg@, src_exists, start, end, area, width, height) is None
            && !area.covers_frame() ==> width >= 2 && height >= 2,
    ensures
        match job {
            Ok(j) => {
                &&& crop_refusal(ffmpeg@, src_exists, start, end, area, width, height) is None
                &&& j.is_on(src@, start, end)
                &&& end.micros - start.micros <= i64::MAX ==> j.start.micros + j.dur.micros
                    == end.micros
                &&& if area.covers_frame() {
                    &&& j.work is Cut
                    &&& outputs::cuts_to(src@, j.out@)
                    &&& j.status@ == "크롭 영역이 전체이므로 무손실 잘라내기로 실행합니다."@
                } else {
                    let filter = crop::filter(crop::kept(area, width as int, height as int));
                    &&& j.work matches Work::Crop { filter: f, crf: c }
                    &&& f@ == filter
                    &&& c == crf
                    &&& outputs::crops_to(src@, j.out@)
                    &&& j.status@ == "크롭+컷 시작 ("@ + filter + "): "@ + src@
                }
            },
            Err(e) => crop_refusal(ffmpeg@, src_exists, start, end, area, width, height) == Some(e),
        },
{
    let dur = match checked_span(ffmpeg, src_exists, start, end) {
        Ok(dur) => dur,
        Err(e) => {
            return Err(e);
        },
    };
    if area.full_frame() {
        return Ok(
            EditJob {
                src: src.to_owned(),
                out: outputs::cut_output(src),
                start,
                dur,
                work: Work::Cut,
                status: "크롭 영역이 전체이므로 무손실 잘라내기로 실행합니다.".to_owned(),
            },
        );
    }
    if width <= 0 || height <= 0 {
        return Err(Refusal::UnknownSize);
    }
    let filter = crop::crop_filter(crop::crop_rect(area, width, height));
    let mut status = "크롭+컷 시작 (".to_owned();
    status.append(filter.as_str());
    status.append("): ");
    status.append(src);
    Ok(
        EditJob {
            src: src.to_owned(),
            out: outputs::crop_output(src),
            start,
            dur,
            work: Work::Crop { filter, crf },
            status,
        },
    )
}

/// FFmpeg could not be started for a job.
pub fn start_failed(reason: &str) -> (e: JobEnd)
    ensures
        !e.busy,
        !e.progress_full,
        e.status@ == "FFmpeg 실행 실패: "@ + reason@,
{
    let mut status = "FFmpeg 실행 실패: ".to_owned();
    status.append(reason);
    JobEnd { busy: false, progress_full: false, status }
}

/// A crop of an area that covers the frame can be run exactly when a cut of the same span can,
/// whether or not the size of the picture is known, and is refused for the same reason.
pub proof fn law_full_frame_is_a_cut(
    ffmpeg: Seq<char>,
    src_exists: bool,
    start: Seconds,
    end: Seconds,
    area: CropArea,
    width: i32,
    height: i32,
)
    requires
        area.covers_frame(),
    ensures
        crop_refusal(ffmpeg, src_exists, start, end, area, width, height) == cut_refusal(
            ffmpeg,
            src_exists,
            start,
            end,
        ),
{
}

/// A job runs over exactly the span between the marks: what it begins with and what it lasts add
/// up to the end of the span.
pub proof fn law_job_runs_over_its_span(job: EditJob, src: Seq<char>, start: Seconds, end: Seconds)
    requires
        job.is_on(src, start, end),
        i64::MIN <= end.micros - start.micros <= i64::MAX,
    ensures
        job.src@ == src,
        job.start.micros == start.micros,
        job.start.micros + job.dur.micros == end.micros,
{
}

/// A span that is longer than can be counted lasts as long as can be.
pub proof fn law_job_span_saturates(job: EditJob, src: Seq<char>, start: Seconds, end: Seconds)
    requires
        job.is_on(src, start, end),
    ensures
        end.micros - start.micros > i64::MAX ==> job.dur.micros == i64::MAX,
        end.micros - start.micros < i64::MIN ==> job.dur.micros == i64::MIN,
{
}

/// FFmpeg is given the source of a job, where the span begins, and how long it is.
pub proof fn law_job_gives_its_span(job: EditJob, src: Seq<char>, start: Seconds, end: Seconds)
    requires
        job.is_on(src, start, end),
        i64::MIN <= end.micros - start.micros <= i64::MAX,
    ensures
        command::gives(job.command(), "-i"@, src),
        command::gives(job.command(), "-ss"@, clock::three_decimals(start.micros as int)),
        command::gives(job.command(), "-t"@, clock::three_decimals(end.micros - start.micros)),
        job.command().last() == job.out@,
        job.work is Cut ==> command::gives(job.command(), "-c"@, "copy"@),
        job.work matches Work::Crop { filter, crf } ==> command::gives(
            job.command(),
            "-vf"@,
            filter@,
        ) && command::gives(job.command(), "-crf"@, decimal::signed_decimal(crf as int)),
{
    match job.work {
        Work::Cut => command::law_cut_is_lossless(
            job.src@,
            job.out@,
            job.start.micros as int,
            job.dur.micros as int,
        ),
        Work::Crop { filter, crf } => command::law_crop_encodes_hevc(
            job.src@,
            job.out@,
            job.start.micros as int,
            job.dur.micros as int,
            filter@,
            crf as int,
        ),
    }
}

/// A cut can be run if and only if FFmpeg is known, the file is there and the span lasts at least
/// a twentieth of a second. What is missing first in this order is what it is refused for.
pub proof fn law_when_a_cut_is_run(
    ffmpeg: Seq<char>,
    src_exists: bool,
    start: Seconds,
    end: Seconds,
)
    ensures
        cut_refusal(ffmpeg, src_exists, start, end) is None <==> ffmpeg.len() > 0 && src_exists
            && end.micros - start.micros >= 50_000,
        cut_refusal(ffmpeg, src_exists, start, end) == Some(Refusal::NoFfmpeg) <==> ffmpeg.len()
            == 0,
        cut_refusal(ffmpeg, src_exists, start, end) == Some(Refusal::NoFile) <==> ffmpeg.len() > 0
            && !src_exists,
        cut_refusal(ffmpeg, src_exists, start, end) == Some(Refusal::BadSpan) <==> ffmpeg.len() > 0
            && src_exists && end.micros - start.micros < 50_000,
{
}

/// A crop can be run if and only if a cut of the span can, and either the size of the picture is
/// known or there is nothing to crop.
pub proof fn law_when_a_crop_is_run(
    ffmpeg: Seq<char>,
    src_exists: bool,
    start: Seconds,
    end: Seconds,
    area: CropArea,
    width: i32,
    height: i32,
)
    ensures
        ({
            let crop = crop_refusal(ffmpeg, src_exists, start, end, area, width, height);
            let cut = cut_refusal(ffmpeg, src_exists, start, end);
            &&& crop is None <==> cut is None && (area.covers_frame() || (width > 0 && height > 0))
            &&& cut is Some ==> crop == cut
            &&& crop == Some(Refusal::UnknownSize) <==> cut is None && !area.covers_frame() && (width
                <= 0 || height <= 0)
        }),
{
}

/// Two ends of a job are told apart by the user: success names the file behind what the job is
/// called, failure only says what failed, whatever the file.
pub proof fn law_end_lines(job: EditJob, other: EditJob)
    ensures
        (job.work is Cut) == (other.work is Cut) ==> job.end_line(false) == other.end_line(false),
        job.end_line(true).len() == job.label().len() + 5 + job.out@.len(),
        job.end_line(true) != job.end_line(false),
        job.end_line(true).take(job.label().len() as int) == job.label(),
        job.end_line(false).take(job.label().len() as int) == job.label(),
        job.end_line(true).skip(job.end_line(true).len() - job.out@.len()) == job.out@,
        job.work is Cut ==> job.label() == "잘라내기"@,
        job.work is Crop ==> job.label() == "크롭+컷"@,
{
    reveal_strlit(" 완료: ");
    reveal_strlit(" 실패");
    assert(job.end_line(true)[job.label().len() as int + 1] == '완');
    assert(job.end_line(false)[job.label().len() as int + 1] == '실');
    assert(job.end_line(true).take(job.label().len() as int) =~= job.label());
    assert(job.end_line(false).take(job.label().len() as int) =~= job.label());
    assert(job.end_line(true).skip(job.end_line(true).len() - job.out@.len()) =~= job.out@);
}

/// The span of a job that is run is no shorter than the shortest one, and so begins before it
/// ends.
pub proof fn law_spans_run_are_long_enough(
    ffmpeg: Seq<char>,
    src_exists: bool,
    start: Seconds,
    end: Seconds,
)
    requires
        cut_refusal(ffmpeg, src_exists, start, end) is None,
    ensures
        end.micros - start.micros >= MIN_SPAN,
        start.micros < end.micros,
{
}

} // verus!
