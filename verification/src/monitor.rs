//! What the log of an encoding job has reported so far.

use vstd::prelude::*;

use crate::clock;
use crate::clock::Seconds;
use crate::log;
use crate::log::LineBuffer;
use crate::text;

verus! {

/// Finds the length of the input.
pub const DURATION_PATTERN: &'static str = r"Duration:\s*(\d{2,}:\d{2}:\d{2}\.\d{2})";

/// Finds the position that has been reached.
pub const TIME_PATTERN: &'static str = r"(?:time|out_time)=\s*(\d{2,}:\d{2}:\d{2}\.\d{2})";

/// Finds the bit rate.
pub const BITRATE_PATTERN: &'static str = r"bitrate=\s*(\S+)";

/// Finds the speed.
pub const SPEED_PATTERN: &'static str = r"speed=\s*(\S+)";

/// What one line of the log reports.
#[derive(Debug)]
pub struct Readings {
    pub duration: Option<String>,
    pub bitrate: Option<String>,
    pub speed: Option<String>,
    pub time: Option<String>,
}

/// The texts of what one line of the log reports.
#[verifier::ext_equal]
pub struct ReadingTexts {
    pub duration: Option<Seq<char>>,
    pub bitrate: Option<Seq<char>>,
    pub speed: Option<Seq<char>>,
    pub time: Option<Seq<char>>,
}

impl View for Readings {
    type V = ReadingTexts;

    open spec fn view(&self) -> ReadingTexts {
        ReadingTexts {
            duration: log::text_of(self.duration),
            bitrate: log::text_of(self.bitrate),
            speed: log::text_of(self.speed),
            time: log::text_of(self.time),
        }
    }
}

/// What `line` reports. A line of white space reports nothing.
pub open spec fn line_readings(line: Seq<char>) -> ReadingTexts {
    let l = text::trimmed(line);
    if l.len() == 0 {
        ReadingTexts { duration: None, bitrate: None, speed: None, time: None }
    } else {
        ReadingTexts {
            duration: log::first_group(DURATION_PATTERN@, l),
            bitrate: log::first_group(BITRATE_PATTERN@, l),
            speed: log::first_group(SPEED_PATTERN@, l),
            time: log::first_group(TIME_PATTERN@, l),
        }
    }
}

/// What `line` reports.
pub fn read_line(line: &str) -> (r: Readings)
    ensures
        r@ == line_readings(line@),
{
    let l = text::trim(line);
    if l.as_str().is_empty() {
        return Readings { duration: None, bitrate: None, speed: None, time: None };
    }
    Readings {
        duration: log::find(DURATION_PATTERN, l.as_str()),
        bitrate: log::find(BITRATE_PATTERN, l.as_str()),
        speed: log::find(SPEED_PATTERN, l.as_str()),
        time: log::find(TIME_PATTERN, l.as_str()),
    }
}

/// The state of a job as the log tells it: its length (zero until it is known), the position
/// reached, the bit rate and the speed.
#[verifier::ext_equal]
pub struct JobStatus {
    pub duration: int,
    pub time: int,
    pub bitrate: Seq<char>,
    pub speed: Seq<char>,
}

impl JobStatus {
    /// Before the first line.
    pub open spec fn begun() -> JobStatus {
        JobStatus { duration: 0, time: 0, bitrate: "N/A"@, speed: "N/A"@ }
    }

    /// After a line that reports `r`. The length is taken once; the speed loses the `x` that it
    /// ends with; the rest is replaced by what is newer.
    pub open spec fn after(self, r: ReadingTexts) -> JobStatus {
        JobStatus {
            duration: match r.duration {
                Some(d) if self.duration == 0 => clock::clock_micros(d),
                _ => self.duration,
            },
            time: match r.time {
                Some(t) => clock::clock_micros(t),
                None => self.time,
            },
            bitrate: match r.bitrate {
                Some(b) => b,
                None => self.bitrate,
            },
            speed: match r.speed {
                Some(s) => text::without_trailing(s, 'x'),
                None => self.speed,
            },
        }
    }

    /// After some lines, one after the other.
    pub open spec fn after_lines(self, lines: Seq<Seq<char>>) -> JobStatus
        decreases lines.len(),
    {
        if lines.len() == 0 {
            self
        } else {
            self.after_lines(lines.drop_last()).after(line_readings(lines.last()))
        }
    }
}

/// Whether one of the lines reports a position.
pub open spec fn any_position(lines: Seq<Seq<char>>) -> bool {
    exists|i: int| 0 <= i < lines.len() && (#[trigger] line_readings(lines[i])).time is Some
}

/// Once the length of the input is known, no later line changes it.
pub proof fn law_duration_is_kept(status: JobStatus, lines: Seq<Seq<char>>)
    requires
        status.duration != 0,
    ensures
        status.after_lines(lines).duration == status.duration,
    decreases lines.len(),
{
    if lines.len() > 0 {
        law_duration_is_kept(status, lines.drop_last());
    }
}

/// Lines that arrive in two batches leave the state that they would have left in one.
pub proof fn law_lines_in_batches(status: JobStatus, a: Seq<Seq<char>>, b: Seq<Seq<char>>)
    ensures
        status.after_lines(a + b) == status.after_lines(a).after_lines(b),
    decreases b.len(),
{
    if b.len() == 0 {
        assert(a + b =~= a);
    } else {
        law_lines_in_batches(status, a, b.drop_last());
        assert((a + b).drop_last() =~= a + b.drop_last());
    }
}

/// What a later report gives replaces what an earlier one gave; what it leaves out stays.
pub proof fn law_newer_report_counts(status: JobStatus, a: ReadingTexts, b: ReadingTexts)
    ensures
        b.bitrate matches Some(rate) ==> status.after(a).after(b).bitrate == rate,
        b.bitrate is None ==> status.after(a).after(b).bitrate == status.after(a).bitrate,
        b.speed is Some ==> status.after(a).after(b).speed == status.after(b).speed,
        b.speed is None ==> status.after(a).after(b).speed == status.after(a).speed,
        b.time matches Some(t) ==> status.after(a).after(b).time == clock::clock_micros(t),
        b.time is None ==> status.after(a).after(b).time == status.after(a).time,
{
}

/// A report of the speed is kept without the run of `x` at its end, and loses nothing else.
pub proof fn law_speed_loses_only_its_unit(status: JobStatus, r: ReadingTexts, reported: Seq<char>)
    requires
        r.speed == Some(reported),
    ensures
        ({
            let speed = status.after(r).speed;
            &&& speed.len() <= reported.len()
            &&& reported.take(speed.len() as int) == speed
            &&& forall|i: int| speed.len() <= i < reported.len() ==> #[trigger] reported[i] == 'x'
            &&& speed.len() > 0 ==> speed.last() != 'x'
        }),
{
    text::law_without_trailing(reported, 'x');
}

/// The bit rate after some lines is the one that the last line that reports any gives, whatever
/// was known before.
pub proof fn law_last_bitrate_counts(
    status: JobStatus,
    lines: Seq<Seq<char>>,
    k: int,
    rate: Seq<char>,
)
    requires
        0 <= k < lines.len(),
        line_readings(lines[k]).bitrate == Some(rate),
        forall|i: int| k < i < lines.len() ==> (#[trigger] line_readings(lines[i])).bitrate is None,
    ensures
        status.after_lines(lines).bitrate == rate,
    decreases lines.len(),
{
    if k < lines.len() - 1 {
        assert(line_readings(lines[lines.len() - 1]).bitrate is None);
        let front = lines.drop_last();
        assert forall|i: int| k < i < front.len() implies (#[trigger] line_readings(
            front[i],
        )).bitrate is None by {
            assert(line_readings(lines[i]).bitrate is None);
        }
        law_last_bitrate_counts(status, front, k, rate);
    }
}

/// The speed after some lines is the one that the last line that reports any gives, whatever was
/// known before.
pub proof fn law_last_speed_counts(
    status: JobStatus,
    other: JobStatus,
    lines: Seq<Seq<char>>,
    k: int,
)
    requires
        0 <= k < lines.len(),
        line_readings(lines[k]).speed is Some,
        forall|i: int| k < i < lines.len() ==> (#[trigger] line_readings(lines[i])).speed is None,
    ensures
        status.after_lines(lines).speed == other.after(line_readings(lines[k])).speed,
    decreases lines.len(),
{
    if k < lines.len() - 1 {
        assert(line_readings(lines[lines.len() - 1]).speed is None);
        let front = lines.drop_last();
        assert forall|i: int| k < i < front.len() implies (#[trigger] line_readings(
            front[i],
        )).speed is None by {
            assert(line_readings(lines[i]).speed is None);
        }
        law_last_speed_counts(status, other, front, k);
    }
}

/// The position after some lines is the one that the last line that reports any gives, whatever
/// was known before.
pub proof fn law_last_position_counts(
    status: JobStatus,
    lines: Seq<Seq<char>>,
    k: int,
    reading: Seq<char>,
)
    requires
        0 <= k < lines.len(),
        line_readings(lines[k]).time == Some(reading),
        forall|i: int| k < i < lines.len() ==> (#[trigger] line_readings(lines[i])).time is None,
    ensures
        status.after_lines(lines).time == clock::clock_micros(reading),
    decreases lines.len(),
{
    if k < lines.len() - 1 {
        assert(line_readings(lines[lines.len() - 1]).time is None);
        let front = lines.drop_last();
        assert forall|i: int| k < i < front.len() implies (#[trigger] line_readings(
            front[i],
        )).time is None by {
            assert(line_readings(lines[i]).time is None);
        }
        law_last_position_counts(status, front, k, reading);
    }
}

/// The length of the input is the first one reported that is not zero.
pub proof fn law_first_length_counts(
    status: JobStatus,
    lines: Seq<Seq<char>>,
    k: int,
    reading: Seq<char>,
)
    requires
        status.duration == 0,
        0 <= k < lines.len(),
        line_readings(lines[k]).duration == Some(reading),
        forall|i: int|
            0 <= i < k ==> ((#[trigger] line_readings(lines[i])).duration matches Some(d)
                ==> clock::clock_micros(d) == 0),
    ensures
        status.after_lines(lines.take(k)).duration == 0,
        status.after_lines(lines.take(k + 1)).duration == clock::clock_micros(reading),
        clock::clock_micros(reading) != 0 ==> status.after_lines(lines).duration
            == clock::clock_micros(reading),
{
    let front = lines.take(k);
    assert forall|i: int| 0 <= i < front.len() implies ((#[trigger] line_readings(
        front[i],
    )).duration matches Some(d) ==> clock::clock_micros(d) == 0) by {
        assert(front[i] == lines[i]);
        assert(line_readings(lines[i]) == line_readings(front[i]));
    }
    lemma_no_length_yet(status, front);
    assert(lines.take(k + 1).drop_last() =~= front);
    if clock::clock_micros(reading) != 0 {
        law_duration_is_kept(status.after_lines(lines.take(k + 1)), lines.skip(k + 1));
        law_lines_in_batches(status, lines.take(k + 1), lines.skip(k + 1));
        assert(lines.take(k + 1) + lines.skip(k + 1) =~= lines);
    }
}

proof fn lemma_no_length_yet(status: JobStatus, lines: Seq<Seq<char>>)
    requires
        status.duration == 0,
        forall|i: int|
            0 <= i < lines.len() ==> ((#[trigger] line_readings(lines[i])).duration matches Some(d)
                ==> clock::clock_micros(d) == 0),
    ensures
        status.after_lines(lines).duration == 0,
    decreases lines.len(),
{
    if lines.len() > 0 {
        let front = lines.drop_last();
        assert forall|i: int| 0 <= i < front.len() implies ((#[trigger] line_readings(
            front[i],
        )).duration matches Some(d) ==> clock::clock_micros(d) == 0) by {
            assert(line_readings(lines[i]) == line_readings(front[i]));
        }
        lemma_no_length_yet(status, front);
        assert(line_readings(lines[lines.len() - 1]) == line_readings(lines.last()));
    }
}

/// What no line reports stays as it was.
pub proof fn law_unreported_stays(status: JobStatus, lines: Seq<Seq<char>>)
    ensures
        (forall|i: int| 0 <= i < lines.len() ==> (#[trigger] line_readings(lines[i])).bitrate is None)
            ==> status.after_lines(lines).bitrate == status.bitrate,
        (forall|i: int| 0 <= i < lines.len() ==> (#[trigger] line_readings(lines[i])).speed is None)
            ==> status.after_lines(lines).speed == status.speed,
        (forall|i: int| 0 <= i < lines.len() ==> (#[trigger] line_readings(lines[i])).time is None)
            ==> status.after_lines(lines).time == status.time,
        (forall|i: int|
            0 <= i < lines.len() ==> (#[trigger] line_readings(lines[i])).duration is None)
            ==> status.after_lines(lines).duration == status.duration,
    decreases lines.len(),
{
    if lines.len() > 0 {
        let front = lines.drop_last();
        law_unreported_stays(status, front);
        assert(forall|i: int| 0 <= i < front.len() ==> #[trigger] front[i] == lines[i]);
        assert(lines.last() == lines[lines.len() - 1]);
        if status.after_lines(front).bitrate != status.bitrate {
            let i = choose|i: int|
                0 <= i < front.len() && !((#[trigger] line_readings(front[i])).bitrate is None);
            assert(line_readings(lines[i]).bitrate is Some);
        }
        if status.after_lines(front).speed != status.speed {
            let i = choose|i: int|
                0 <= i < front.len() && !((#[trigger] line_readings(front[i])).speed is None);
            assert(line_readings(lines[i]).speed is Some);
        }
        if status.after_lines(front).time != status.time {
            let i = choose|i: int|
                0 <= i < front.len() && !((#[trigger] line_readings(front[i])).time is None);
            assert(line_readings(lines[i]).time is Some);
        }
        if status.after_lines(front).duration != status.duration {
            let i = choose|i: int|
                0 <= i < front.len() && !((#[trigger] line_readings(front[i])).duration is None);
            assert(line_readings(lines[i]).duration is Some);
        }
    }
}

/// A line of white space reports nothing, and white space round a line does not change what it
/// reports.
pub proof fn law_white_space_reports_nothing(line: Seq<char>)
    ensures
        text::all_white(line) ==> line_readings(line).duration is None && line_readings(
            line,
        ).bitrate is None && line_readings(line).speed is None && line_readings(line).time is None,
        line_readings(text::trimmed(line)) == line_readings(line),
{
    text::law_trimmed(line);
}

/// What a line reports is what FFmpeg writes behind the name of each value.
pub proof fn law_values_follow_their_names(line: Seq<char>)
    requires
        line.len() > 0,
        !text::is_white_space(line[0]),
        !text::is_white_space(line.last()),
    ensures
        line_readings(line).duration == log::first_group(
            r"Duration:\s*(\d{2,}:\d{2}:\d{2}\.\d{2})"@,
            line,
        ),
        line_readings(line).time == log::first_group(
            r"(?:time|out_time)=\s*(\d{2,}:\d{2}:\d{2}\.\d{2})"@,
            line,
        ),
        line_readings(line).bitrate == log::first_group(r"bitrate=\s*(\S+)"@, line),
        line_readings(line).speed == log::first_group(r"speed=\s*(\S+)"@, line),
{
    text::law_trimmed(line);
}

/// Before the first line nothing is known: no length, no position, and neither bit rate nor speed
/// is available.
pub proof fn law_nothing_is_known_at_first()
    ensures
        JobStatus::begun().duration == 0,
        JobStatus::begun().time == 0,
        JobStatus::begun().bitrate == seq!['N', '/', 'A'],
        JobStatus::begun().speed == seq!['N', '/', 'A'],
{
    reveal_strlit("N/A");
    assert("N/A"@ =~= seq!['N', '/', 'A']);
}

/// A batch of lines gives a position if and only if one of its parts does; a single line if and
/// only if it reports one.
pub proof fn law_position_in_batches(a: Seq<Seq<char>>, b: Seq<Seq<char>>, line: Seq<char>)
    ensures
        any_position(a + b) == (any_position(a) || any_position(b)),
        any_position(seq![line]) == (line_readings(line).time is Some),
        !any_position(Seq::<Seq<char>>::empty()),
{
    let all = a + b;
    if any_position(all) {
        let k = choose|k: int| 0 <= k < all.len() && (#[trigger] line_readings(all[k])).time is Some;
        if k < a.len() {
            assert(all[k] == a[k]);
        } else {
            assert(all[k] == b[k - a.len()]);
        }
    }
    if any_position(a) {
        let k = choose|k: int| 0 <= k < a.len() && (#[trigger] line_readings(a[k])).time is Some;
        assert(all[k] == a[k]);
    }
    if any_position(b) {
        let k = choose|k: int| 0 <= k < b.len() && (#[trigger] line_readings(b[k])).time is Some;
        assert(all[a.len() + k] == b[k]);
    }
    assert(seq![line][0] == line);
}

/// It does not matter how reads cut the log, as long as they cut between characters: two pieces
/// leave the state, and what waits, that the whole would have left, and give a position if and
/// only if it would have given one.
pub proof fn law_cuts_do_not_matter(
    status: JobStatus,
    waiting: Seq<char>,
    first: Seq<u8>,
    second: Seq<u8>,
)
    requires
        vstd::utf8::valid_utf8(first),
        vstd::utf8::valid_utf8(second),
    ensures
        ({
            let a = log::bytes_text(first);
            let b = log::bytes_text(second);
            let both = log::bytes_text(first + second);
            let then = log::left_waiting(waiting, a);
            let earlier = log::complete_lines(waiting, a);
            let later = log::complete_lines(then, b);
            let all = log::complete_lines(waiting, both);
            &&& status.after_lines(all) == status.after_lines(earlier).after_lines(later)
            &&& any_position(all) == (any_position(earlier) || any_position(later))
            &&& log::left_waiting(waiting, both) == log::left_waiting(then, b)
        }),
{
    let a = log::bytes_text(first);
    let b = log::bytes_text(second);
    log::lemma_bytes_text_concat(first, second);
    log::law_pieces_do_not_matter(waiting, a, b);
    let earlier = log::complete_lines(waiting, a);
    let later = log::complete_lines(log::left_waiting(waiting, a), b);
    law_lines_in_batches(status, earlier, later);
    law_position_in_batches(earlier, later, Seq::<char>::empty());
}

/// Follows the log of one encoding job.
#[derive(Debug)]
pub struct EncodeMonitor {
    lines: LineBuffer,
    total_duration: Seconds,
    current_time: Seconds,
    bitrate: String,
    speed: String,
}

impl View for EncodeMonitor {
    type V = JobStatus;

    closed spec fn view(&self) -> JobStatus {
        JobStatus {
            duration: self.total_duration.micros as int,
            time: self.current_time.micros as int,
            bitrate: self.bitrate@,
            speed: self.speed@,
        }
    }
}

impl EncodeMonitor {
    /// What of the log waits for the end of its line.
    pub closed spec fn waiting(self) -> Seq<char> {
        self.lines@
    }

    /// Before the first line.
    pub fn new() -> (m: EncodeMonitor)
        ensures
            m@ == JobStatus::begun(),
            m.waiting() == Seq::<char>::empty(),
    {
        EncodeMonitor {
            lines: LineBuffer::new(),
            total_duration: Seconds { micros: 0 },
            current_time: Seconds { micros: 0 },
            bitrate: "N/A".to_owned(),
            speed: "N/A".to_owned(),
        }
    }

    /// The length of the input; zero until it is known.
    pub fn duration(&self) -> (t: Seconds)
        ensures
            t.micros == self@.duration,
    {
        self.total_duration
    }

    /// The position reached.
    pub fn time(&self) -> (t: Seconds)
        ensures
            t.micros == self@.time,
    {
        self.current_time
    }

    /// The bit rate, in FFmpeg's words.
    pub fn bitrate(&self) -> (s: &str)
        ensures
            s@ == self@.bitrate,
    {
        self.bitrate.as_str()
    }

    /// The speed, in multiples of real time.
    pub fn speed(&self) -> (s: &str)
        ensures
            s@ == self@.speed,
    {
        self.speed.as_str()
    }

    /// A line reported `r`. Says whether it gave a position.
    pub fn note(&mut self, r: &Readings) -> (moved: bool)
        ensures
            final(self)@ == old(self)@.after(r@),
            final(self).waiting() == old(self).waiting(),
            moved == (r.time is Some),
    {
        if self.total_duration.micros == 0 {
            match &r.duration {
                Some(d) => {
                    self.total_duration = clock::time_str_to_seconds(d.as_str());
                },
                None => {},
            }
        }
        match &r.bitrate {
            Some(b) => {
                self.bitrate = b.clone();
            },
            None => {},
        }
        match &r.speed {
            Some(s) => {
                self.speed = text::trim_trailing(s.as_str(), 'x');
            },
            None => {},
        }
        match &r.time {
            Some(t) => {
                self.current_time = clock::time_str_to_seconds(t.as_str());
                true
            },
            None => false,
        }
    }

    /// Reads the next piece of the log. Says whether a line of it gave a position.
    pub fn feed(&mut self, piece: &[u8]) -> (moved: bool)
        ensures
            ({
                let lines = log::complete_lines(old(self).waiting(), log::bytes_text(piece@));
                &&& final(self)@ == old(self)@.after_lines(lines)
                &&& moved == any_position(lines)
            }),
            final(self).waiting() == log::left_waiting(
                old(self).waiting(),
                log::bytes_text(piece@),
            ),
    {
        let ghost begun = self@;
        let lines = self.lines.push_bytes(piece);
        let ghost all = text::texts(lines@);
        let ghost rest = self.lines@;
        let mut moved = false;
        let mut i: usize = 0;
        assert(all.take(0) =~= Seq::<Seq<char>>::empty());
        while i < lines.len()
            invariant
                i <= lines@.len(),
                all == text::texts(lines@),
                self.waiting() == rest,
                self@ == begun.after_lines(all.take(i as int)),
                moved == any_position(all.take(i as int)),
            decreases lines@.len() - i,
        {
            let ghost before = all.take(i as int);
            let ghost seen = all.take(i + 1);
            assert(seen.drop_last() =~= before);
            assert(seen.last() == lines@[i as int]@);
            let r = read_line(lines[i].as_str());
            if self.note(&r) {
                moved = true;
                assert(line_readings(seen[i as int]).time is Some);
            }
            proof {
                if any_position(before) {
                    let k = choose|k: int|
                        0 <= k < before.len() && (#[trigger] line_readings(before[k])).time is Some;
                    assert(seen[k] == before[k]);
                }
                if any_position(seen) && !(r.time is Some) {
                    let k = choose|k: int|
                        0 <= k < seen.len() && (#[trigger] line_readings(seen[k])).time is Some;
                    assert(k < i);
                    assert(seen[k] == before[k]);
                }
            }
            i += 1;
        }
        assert(all.take(i as int) =~= all);
        moved
    }
}

} // verus!
