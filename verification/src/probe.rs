//! What FFmpeg says of a file that it is asked to open.

use vstd::prelude::*;

use vstd::arithmetic::power::*;

use crate::clock;
use crate::clock::Seconds;
use crate::decimal;
use crate::log;
use crate::number;

verus! {

/// Finds the length of a file.
pub const DURATION_PATTERN: &'static str = r"Duration:\s*(\d{2,}:\d{2}:\d{2}\.\d+)";

/// Finds the width and the height of the picture.
pub const RESOLUTION_PATTERN: &'static str = r"Video:.*?(\d{2,5})x(\d{2,5})";

/// The length and the picture size of a video. A size that is not known is zero.
#[derive(Clone, Copy, Debug, PartialEq, Eq, Structural)]
pub struct VideoInfo {
    pub duration: Seconds,
    pub width: i32,
    pub height: i32,
}

/// Why a file could not be opened.
#[derive(Clone, Copy, Debug, PartialEq, Eq, Structural)]
pub enum ProbeError {
    /// FFmpeg reported no length.
    NoDuration,
}

/// The number that `s` writes, without its fraction; nothing counts zero.
pub open spec fn pixels(s: Option<Seq<char>>) -> int {
    match s {
        Some(t) => clock::clamp32(clock::quotient(number::number_micros(t), 1_000_000)),
        None => 0,
    }
}

/// The number that `s` writes, without its fraction.
fn read_pixels(s: &Option<String>) -> (n: i32)
    ensures
        n == pixels(log::text_of(*s)),
{
    match s {
        Some(t) => {
            let micros: i64 = number::parse_micros(t.as_str());
            let size: i128 = if micros < 0 {
                -(micros as i128)
            } else {
                micros as i128
            };
            let whole: i128 = size / 1_000_000;
            clock::to_i32(
                if micros < 0 {
                    -whole
                } else {
                    whole
                },
            )
        },
        None => 0,
    }
}

/// What the texts found in FFmpeg's report come to. Without a length there is no video; without
/// a picture size the size is zero.
pub open spec fn info_of(
    duration: Option<Seq<char>>,
    width: Option<Seq<char>>,
    height: Option<Seq<char>>,
) -> Result<VideoInfo, ProbeError> {
    match duration {
        Some(d) => Ok(
            VideoInfo {
                duration: Seconds { micros: clock::clock_micros(d) as i64 },
                width: pixels(width) as i32,
                height: pixels(height) as i32,
            },
        ),
        None => Err(ProbeError::NoDuration),
    }
}

/// A run of digits is read as the number of pixels that it stands for.
pub proof fn law_pixels(s: Seq<char>)
    requires
        s.len() > 0,
        decimal::all_digits(s),
        decimal::value(s) <= i32::MAX,
    ensures
        pixels(Some(s)) == decimal::value(s),
{
    number::lemma_whole_number(s);
}

/// Every size that the pattern can find, of up to five digits, is read as what it stands for.
pub proof fn law_five_digits_of_pixels(s: Seq<char>)
    requires
        0 < s.len() <= 5,
        decimal::all_digits(s),
    ensures
        pixels(Some(s)) == decimal::value(s) < 100_000,
{
    decimal::law_value_is_bounded(s);
    lemma_pow1(10);
    lemma_pow_adds(10, 1, 1);
    lemma_pow_adds(10, 2, 2);
    lemma_pow_adds(10, 4, 1);
    lemma_pow_increases(10, s.len(), 5);
    law_pixels(s);
}

/// A size with a fraction loses the fraction, and one that is too large counts as the largest.
pub proof fn law_pixels_lose_fraction(s: Seq<char>)
    requires
        number::number_micros(s) >= 0,
    ensures
        number::number_micros(s) <= i32::MAX * 1_000_000 ==> pixels(Some(s)) * 1_000_000
            <= number::number_micros(s) < (pixels(Some(s)) + 1) * 1_000_000,
        number::number_micros(s) > i32::MAX * 1_000_000 ==> pixels(Some(s)) == i32::MAX,
        pixels(None) == 0,
{
}

/// A report with a length gives a video with that length, whose width is the one text and whose
/// height the other; without a length there is none, and a size that is not there is zero.
pub proof fn law_info(
    reading: Seq<char>,
    width: Seq<char>,
    height: Seq<char>,
    other: Option<Seq<char>>,
)
    requires
        0 < width.len() <= 5,
        0 < height.len() <= 5,
        decimal::all_digits(width),
        decimal::all_digits(height),
    ensures
        info_of(Some(reading), Some(width), Some(height)) matches Ok(i) && i.width == decimal::value(
            width,
        ) && i.height == decimal::value(height) && i.duration.micros == clock::clock_micros(
            reading,
        ),
        info_of(Some(reading), None, None) matches Ok(i) && i.width == 0 && i.height == 0
            && i.duration.micros == clock::clock_micros(reading),
        info_of(None, other, other) is Err,
{
    law_five_digits_of_pixels(width);
    law_five_digits_of_pixels(height);
}

/// What the texts found in FFmpeg's report come to.
pub fn video_info(
    duration: &Option<String>,
    width: &Option<String>,
    height: &Option<String>,
) -> (info: Result<VideoInfo, ProbeError>)
    ensures
        info == info_of(log::text_of(*duration), log::text_of(*width), log::text_of(*height)),
{
    match duration {
        Some(d) => Ok(
            VideoInfo {
                duration: clock::time_str_to_seconds(d.as_str()),
                width: read_pixels(width),
                height: read_pixels(height),
            },
        ),
        None => Err(ProbeError::NoDuration),
    }
}

/// What FFmpeg's report on a file comes to.
pub open spec fn probe_result(report: Seq<char>) -> Result<VideoInfo, ProbeError> {
    let size = log::regex_captures(RESOLUTION_PATTERN@, report);
    info_of(
        log::first_group(DURATION_PATTERN@, report),
        log::group(size, 1),
        log::group(size, 2),
    )
}

/// Reads what FFmpeg printed when it was asked to open a file.
pub fn probe_video(stderr: &[u8]) -> (info: Result<VideoInfo, ProbeError>)
    ensures
        info == probe_result(log::bytes_text(stderr@)),
{
    let report = log::from_utf8_lossy(stderr);
    let duration = log::find(DURATION_PATTERN, report.as_str());
    let size = log::captures(RESOLUTION_PATTERN, report.as_str());
    video_info(&duration, &log::group_text(&size, 1), &log::group_text(&size, 2))
}

/// A report in which the length and the size of a picture are found gives a video of that length
/// and that size, the width before the height; one without a length gives none.
pub proof fn law_report_is_read(
    report: Seq<char>,
    reading: Seq<char>,
    groups: Seq<Option<Seq<char>>>,
    width: Seq<char>,
    height: Seq<char>,
)
    requires
        log::regex_captures(r"Video:.*?(\d{2,5})x(\d{2,5})"@, report) == Some(groups),
        groups.len() == 3,
        groups[1] == Some(width),
        groups[2] == Some(height),
        0 < width.len() <= 5 && decimal::all_digits(width),
        0 < height.len() <= 5 && decimal::all_digits(height),
    ensures
        log::first_group(r"Duration:\s*(\d{2,}:\d{2}:\d{2}\.\d+)"@, report) == Some(reading) ==> (
        probe_result(report) matches Ok(i) && i.width == decimal::value(width) && i.height
            == decimal::value(height) && i.duration.micros == clock::clock_micros(reading)),
        log::first_group(r"Duration:\s*(\d{2,}:\d{2}:\d{2}\.\d+)"@, report) is None
            ==> probe_result(report) is Err,
{
    law_info(reading, width, height, None);
}

impl ProbeError {
    /// What the user is told.
    pub open spec fn spec_message(self) -> Seq<char> {
        match self {
            ProbeError::NoDuration => "Duration 정보를 찾지 못했습니다"@,
        }
    }

    /// What the user is told.
    pub fn message(&self) -> (s: String)
        ensures
            s@ == self.spec_message(),
    {
        match self {
            ProbeError::NoDuration => "Duration 정보를 찾지 못했습니다".to_owned(),
        }
    }
}

} // verus!
