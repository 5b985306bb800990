//! A batch: files encoded one after the other, until the last one is done or the user stops it.

use vstd::prelude::*;

use crate::decimal;
use crate::log;
use crate::monitor;
use crate::monitor::EncodeMonitor;
use crate::reading;

verus! {

/// How far a batch has come: files handed out, and files encoded.
#[verifier::ext_equal]
pub struct BatchState {
    pub total: int,
    pub started: int,
    pub succeeded: int,
}

impl BatchState {
    /// No more files are encoded than were handed out, and no more handed out than there are.
    pub open spec fn wf(self) -> bool {
        0 <= self.succeeded <= self.started <= self.total
    }
}

/// How it went with one file of a batch.
pub enum FileEnd {
    /// The encoder could not be started.
    NotStarted,
    /// The encoder ended, with or without success, while the user had stopped the batch or not.
    Ended { success: bool, stopped: bool },
}

impl BatchState {
    /// One more file is over.
    pub open spec fn after_file(self, end: FileEnd) -> BatchState {
        BatchState {
            started: self.started + 1,
            succeeded: self.succeeded + (if counts(end) {
                1int
            } else {
                0
            }),
            ..self
        }
    }

    /// Files are over, one after the other.
    pub open spec fn after_files(self, ends: Seq<FileEnd>) -> BatchState
        decreases ends.len(),
    {
        if ends.len() == 0 {
            self
        } else {
            self.after_files(ends.drop_last()).after_file(ends.last())
        }
    }
}

/// Whether a file counts as encoded.
pub open spec fn counts(end: FileEnd) -> bool {
    end == (FileEnd::Ended { success: true, stopped: false })
}

/// A batch that has handed out some of its files has counted exactly those whose encoder ended
/// with success before the user stopped it.
pub proof fn law_batch_counts_successes(total: int, ends: Seq<FileEnd>)
    requires
        ends.len() <= total,
    ensures
        ({
            let b = (BatchState { total, started: 0, succeeded: 0 }).after_files(ends);
            &&& b.wf()
            &&& b.total == total
            &&& b.started == ends.len()
            &&& b.succeeded == ends.filter(|e: FileEnd| counts(e)).len()
        }),
    decreases ends.len(),
{
    reveal(Seq::filter);
    if ends.len() > 0 {
        law_batch_counts_successes(total, ends.drop_last());
    }
}

/// A file counts as encoded if and only if its encoder ended with success before the user stopped
/// the batch.
pub proof fn law_what_counts(success: bool, stopped: bool)
    ensures
        counts(FileEnd::Ended { success, stopped }) == (success && !stopped),
        !counts(FileEnd::NotStarted),
{
}

/// Batches in two parts count what both parts count.
pub proof fn law_batch_in_parts(b: BatchState, first: Seq<FileEnd>, second: Seq<FileEnd>)
    ensures
        b.after_files(first + second) == b.after_files(first).after_files(second),
        b.after_files(first).started == b.started + first.len(),
        b.after_files(first).total == b.total,
    decreases second.len(), first.len(),
{
    if second.len() == 0 {
        assert(first + second =~= first);
        if first.len() > 0 {
            law_batch_in_parts(b, first.drop_last(), second);
        }
    } else {
        law_batch_in_parts(b, first, second.drop_last());
        assert((first + second).drop_last() =~= first + second.drop_last());
    }
}

/// The line at the end of a batch that was not stopped shows the files that were encoded with
/// success, and then all files; one that was stopped shows no number.
pub proof fn law_summary_shows_counts(total: nat, ends: Seq<FileEnd>)
    requires
        ends.len() <= total,
    ensures
        ({
            let b = (BatchState { total: total as int, started: 0, succeeded: 0 }).after_files(ends);
            let good = ends.filter(
                |e: FileEnd| e == (FileEnd::Ended { success: true, stopped: false }),
            ).len();
            &&& summary_line(b, false) == "Finished: "@ + decimal::decimal(good) + "/"@
                + decimal::decimal(total) + " Success"@
            &&& summary_line(b, true) == "Task stopped"@
        }),
{
    law_batch_counts_successes(total as int, ends);
    assert((|e: FileEnd| counts(e)) =~= (|e: FileEnd|
        e == (FileEnd::Ended { success: true, stopped: false })));
}

/// A batch in which every file went well says so.
pub proof fn law_all_good(total: int, ends: Seq<FileEnd>)
    requires
        ends.len() == total,
        forall|i: int| 0 <= i < ends.len() ==> counts(#[trigger] ends[i]),
    ensures
        summary_line((BatchState { total, started: 0, succeeded: 0 }).after_files(ends), false)
            == "Finished: "@ + decimal::decimal(total as nat) + "/"@ + decimal::decimal(
            total as nat,
        ) + " Success"@,
{
    law_batch_counts_successes(total, ends);
    lemma_all_counted(ends);
}

proof fn lemma_all_counted(ends: Seq<FileEnd>)
    requires
        forall|i: int| 0 <= i < ends.len() ==> counts(#[trigger] ends[i]),
    ensures
        ends.filter(|e: FileEnd| counts(e)).len() == ends.len(),
    decreases ends.len(),
{
    reveal(Seq::filter);
    if ends.len() > 0 {
        let front = ends.drop_last();
        assert(forall|i: int| 0 <= i < front.len() ==> #[trigger] front[i] == ends[i]);
        lemma_all_counted(front);
        assert(counts(ends[ends.len() - 1]));
    }
}

/// A batch of files.
#[derive(Debug)]
pub struct Batch {
    total: usize,
    started: usize,
    succeeded: usize,
}

impl View for Batch {
    type V = BatchState;

    closed spec fn view(&self) -> BatchState {
        BatchState {
            total: self.total as int,
            started: self.started as int,
            succeeded: self.succeeded as int,
        }
    }
}

/// The line for the file `index` of `total`.
pub open spec fn file_line(index: int, total: int, name: Option<Seq<char>>) -> Seq<char> {
    "["@ + decimal::decimal((index + 1) as nat) + "/"@ + decimal::decimal(total as nat) + "] "@ + (
    match name {
        Some(n) => n,
        None => Seq::<char>::empty(),
    })
}

/// The line for a file counts from one: the number of the file stands between a bracket and a
/// slash, the number of all files between the slash and the other bracket, and the name at the
/// end.
pub proof fn law_file_line_counts_from_one(index: nat, total: nat, name: Seq<char>)
    ensures
        ({
            let line = file_line(index as int, total as int, Some(name));
            let a = decimal::decimal(index + 1).len() as int;
            let b = decimal::decimal(total).len() as int;
            &&& line.len() == a + b + 4 + name.len()
            &&& line[0] == '[' && line[a + 1] == '/'
            &&& line[a + b + 2] == ']' && line[a + b + 3] == ' '
            &&& decimal::value(line.subrange(1, a + 1)) == index + 1
            &&& decimal::value(line.subrange(a + 2, a + b + 2)) == total
            &&& line.skip(a + b + 4) == name
        }),
        file_line(index as int, total as int, None) == file_line(
            index as int,
            total as int,
            Some(Seq::<char>::empty()),
        ),
{
    let line = file_line(index as int, total as int, Some(name));
    let x = decimal::decimal(index + 1);
    let y = decimal::decimal(total);
    let a = x.len() as int;
    let b = y.len() as int;
    reveal_strlit("[");
    reveal_strlit("/");
    reveal_strlit("] ");
    assert(line.subrange(1, a + 1) =~= x);
    assert(line.subrange(a + 2, a + b + 2) =~= y);
    assert(line.skip(a + b + 4) =~= name);
    decimal::lemma_decimal_roundtrip(index + 1);
    decimal::lemma_decimal_roundtrip(total);
}

/// The line for the file `index` of `total`.
pub fn file_text(index: usize, total: usize, name: &Option<String>) -> (s: String)
    requires
        index < total,
    ensures
        s@ == file_line(index as int, total as int, log::text_of(*name)),
{
    let mut s = "[".to_owned();
    decimal::push_decimal(&mut s, index as u64 + 1);
    s.append("/");
    decimal::push_decimal(&mut s, total as u64);
    s.append("] ");
    match name {
        Some(n) => {
            s.append(n.as_str());
        },
        None => {},
    }
    s
}

/// The line for the file at `path`, which is the file `index` of `total`.
pub fn file_label(index: usize, total: usize, path: &str) -> (s: String)
    requires
        index < total,
    ensures
        exists|name: Option<Seq<char>>| #[trigger]
            reading::is_file_name(path@, name) && s@ == file_line(index as int, total as int, name),
{
    let name = reading::file_name(path);
    assert(reading::is_file_name(path@, log::text_of(name)));
    file_text(index, total, &name)
}

/// The line at the end of a batch.
pub open spec fn summary_line(b: BatchState, stopped: bool) -> Seq<char> {
    if stopped {
        "Task stopped"@
    } else {
        "Finished: "@ + decimal::decimal(b.succeeded as nat) + "/"@ + decimal::decimal(
            b.total as nat,
        ) + " Success"@
    }
}

impl Batch {
    /// A batch of `total` files, none of them begun.
    pub fn new(total: usize) -> (b: Batch)
        ensures
            b@ == (BatchState { total: total as int, started: 0, succeeded: 0 }),
            b@.wf(),
    {
        Batch { total, started: 0, succeeded: 0 }
    }

    /// The next file, in the order of the list. There is none after the last one, nor once the
    /// user has stopped the batch.
    pub fn next_file(&mut self, stopped: bool) -> (index: Option<usize>)
        requires
            old(self)@.wf(),
        ensures
            final(self)@.wf(),
            match index {
                Some(i) => !stopped && old(self)@.started < old(self)@.total && i
                    == old(self)@.started && final(self)@ == (BatchState {
                    started: old(self)@.started + 1,
                    ..old(self)@
                }),
                None => (stopped || old(self)@.started == old(self)@.total) && final(self)@
                    == old(self)@,
            },
    {
        if stopped || self.started >= self.total {
            return None;
        }
        let index = self.started;
        self.started = index + 1;
        Some(index)
    }

    /// The encoder of a file that was handed out has ended, with or without success. Says whether
    /// its output has to go: it does if the user has stopped the batch.
    pub fn file_ended(&mut self, success: bool, stopped: bool) -> (discard: bool)
        requires
            old(self)@.wf(),
            old(self)@.succeeded < old(self)@.started,
        ensures
            final(self)@.wf(),
            discard == stopped,
            final(self)@ == (if success && !stopped {
                BatchState { succeeded: old(self)@.succeeded + 1, ..old(self)@ }
            } else {
                old(self)@
            }),
    {
        if success && !stopped {
            self.succeeded = self.succeeded + 1;
        }
        stopped
    }

    /// What the user is told at the end.
    pub fn summary(&self, stopped: bool) -> (s: String)
        ensures
            s@ == summary_line(self@, stopped),
    {
        if stopped {
            return "Task stopped".to_owned();
        }
        let mut s = "Finished: ".to_owned();
        decimal::push_decimal(&mut s, self.succeeded as u64);
        s.append("/");
        decimal::push_decimal(&mut s, self.total as u64);
        s.append(" Success");
        s
    }
}

/// What happens while a file is encoded.
#[derive(Debug)]
pub enum JobEvent {
    /// Some time has passed.
    Tick,
    /// The encoder wrote this to its log. Nothing: the log has ended, or cannot be read.
    Log(Vec<u8>),
}

/// What to do about it.
#[derive(Clone, Copy, Debug, PartialEq, Eq, Structural)]
pub enum JobAction {
    /// Wait for the next event.
    Wait,
    /// Show how far the job has come, then wait for the next event.
    Show,
    /// Kill the encoder, then wait for its end.
    Kill,
    /// Wait for the encoder's end.
    Finish,
}

/// What follows from an event. While the batch runs a tick shows the progress; once the user has
/// stopped it, the next tick kills the encoder. The log is read to its end.
pub open spec fn next_action(event: JobEvent, waiting: Seq<char>, stopped: bool) -> JobAction {
    match event {
        JobEvent::Tick => if stopped {
            JobAction::Kill
        } else {
            JobAction::Show
        },
        JobEvent::Log(piece) => if piece@.len() == 0 {
            JobAction::Finish
        } else if monitor::any_position(
            log::complete_lines(waiting, log::bytes_text(piece@)),
        ) {
            JobAction::Show
        } else {
            JobAction::Wait
        },
    }
}

/// The encoder is killed at a tick of a stopped batch and at nothing else; the job is over when the
/// log ends and not before; and a stop changes nothing about what the log says.
pub proof fn law_what_follows(event: JobEvent, waiting: Seq<char>, stopped: bool)
    ensures
        next_action(event, waiting, stopped) is Kill <==> event is Tick && stopped,
        next_action(event, waiting, stopped) is Finish <==> (event matches JobEvent::Log(piece)
            && piece@.len() == 0),
        event is Tick && !stopped ==> next_action(event, waiting, stopped) is Show,
        event is Log ==> next_action(event, waiting, true) == next_action(event, waiting, false),
{
}

/// A piece of the log that completes a line is shown if and only if that line gives a position.
pub proof fn law_position_is_shown(
    piece: Vec<u8>,
    waiting: Seq<char>,
    rest: Seq<char>,
    stopped: bool,
)
    requires
        piece@.len() > 0,
        log::bytes_text(piece@) == rest.push('\n'),
        log::is_one_line(waiting),
        log::is_one_line(rest),
    ensures
        next_action(JobEvent::Log(piece), waiting, stopped) == (if monitor::line_readings(
            waiting + rest,
        ).time is Some {
            JobAction::Show
        } else {
            JobAction::Wait
        }),
{
    log::law_line_end_completes(waiting, rest);
    monitor::law_position_in_batches(Seq::empty(), Seq::empty(), waiting + rest);
}

/// Takes in an event and says what to do about it.
pub fn step(monitor: &mut EncodeMonitor, event: &JobEvent, stopped: bool) -> (action: JobAction)
    ensures
        action == next_action(*event, old(monitor).waiting(), stopped),
        match *event {
            JobEvent::Log(piece) if piece@.len() > 0 => {
                &&& final(monitor)@ == old(monitor)@.after_lines(
                    log::complete_lines(old(monitor).waiting(), log::bytes_text(piece@)),
                )
                &&& final(monitor).waiting() == log::left_waiting(
                    old(monitor).waiting(),
                    log::bytes_text(piece@),
                )
            },
            _ => *final(monitor) == *old(monitor),
        },
{
    match event {
        JobEvent::Tick => {
            if stopped {
                JobAction::Kill
            } else {
                JobAction::Show
            }
        },
        JobEvent::Log(piece) => {
            if piece.len() == 0 {
                JobAction::Finish
            } else if monitor.feed(piece.as_slice()) {
                JobAction::Show
            } else {
                JobAction::Wait
            }
        },
    }
}

/// Whether a batch can begin, or what the user is told instead.
pub fn start_refused(ffmpeg: &str) -> (status: Option<String>)
    ensures
        match status {
            Some(s) => ffmpeg@.len() == 0 && s@ == "Error: FFmpeg path not set"@,
            None => ffmpeg@.len() > 0,
        },
{
    if ffmpeg.is_empty() {
        Some("Error: FFmpeg path not set".to_owned())
    } else {
        None
    }
}

/// What the user is told when FFmpeg could not be started for a file.
pub fn start_failed_status(reason: &str) -> (s: String)
    ensures
        s@ == "FFmpeg execution failed: "@ + reason@,
{
    let mut s = "FFmpeg execution failed: ".to_owned();
    s.append(reason);
    s
}

} // verus!
