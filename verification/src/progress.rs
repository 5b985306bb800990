//! How far a job has come, and which steps of it are worth showing.

use vstd::prelude::*;

use crate::clock;
use crate::clock::Seconds;
use crate::log;
use crate::log::LineBuffer;
use crate::text;

verus! {

/// Finds the position that FFmpeg has reached in its output.
pub const POSITION_PATTERN: &'static str = r"(?:out_time|time)=\s*(\d{2,}:\d{2}:\d{2}\.\d+)";

/// A share of a whole: `part` out of `whole`.
#[derive(Clone, Copy, Debug, PartialEq, Eq, Structural)]
pub struct Share {
    pub part: i64,
    pub whole: i64,
}

impl Share {
    /// A share lies between nothing and all of a whole that is not empty.
    pub open spec fn wf(self) -> bool {
        0 <= self.part <= self.whole && 0 < self.whole
    }
}

/// `t` held between `lo` and `hi`.
pub open spec fn between(t: int, lo: int, hi: int) -> int {
    if t < lo {
        lo
    } else if t > hi {
        hi
    } else {
        t
    }
}

/// The share of `total` that `t` makes up: nothing before the start, all of it past the end, and
/// nothing of a total that is not positive.
pub open spec fn share(t: int, total: int) -> Share {
    if total > 0 {
        Share { part: between(t, 0, total) as i64, whole: total as i64 }
    } else {
        Share { part: 0, whole: 1 }
    }
}

/// The share of `total` that `t` makes up.
pub fn share_of(t: Seconds, total: Seconds) -> (s: Share)
    ensures
        s == share(t.micros as int, total.micros as int),
        s.wf(),
{
    if total.micros > 0 {
        let part: i64 = if t.micros < 0 {
            0
        } else if t.micros > total.micros {
            total.micros
        } else {
            t.micros
        };
        Share { part, whole: total.micros }
    } else {
        Share { part: 0, whole: 1 }
    }
}

pub open spec fn distance(a: int, b: int) -> int {
    if a < b {
        b - a
    } else {
        a - b
    }
}

/// Whether `now` is worth showing: nothing was shown yet, or the two lie more than a thousandth
/// of the whole apart.
pub open spec fn worth_showing(shown: Option<Share>, now: Share) -> bool {
    match shown {
        None => true,
        Some(s) => distance(s.part as int, now.part as int) * 1000 > now.whole,
    }
}

/// The shares that are shown while a job of length `total` reports the positions `times`, one
/// after the other, after `shown` was shown.
pub open spec fn shares_shown(times: Seq<int>, total: int, shown: Option<Share>) -> Seq<Share>
    decreases times.len(),
{
    if times.len() == 0 {
        Seq::<Share>::empty()
    } else {
        let before = shares_shown(times.drop_last(), total, shown);
        let now = share(times.last(), total);
        if worth_showing(last_shown(before, shown), now) {
            before.push(now)
        } else {
            before
        }
    }
}

/// The last share that is on show.
pub open spec fn last_shown(shares: Seq<Share>, shown: Option<Share>) -> Option<Share> {
    if shares.len() == 0 {
        shown
    } else {
        Some(shares.last())
    }
}

/// The position that a line of the log gives.
pub open spec fn position(line: Seq<char>) -> Option<int> {
    match log::first_group(POSITION_PATTERN@, line) {
        Some(reading) => Some(clock::clock_micros(reading)),
        None => None,
    }
}

/// The positions that the lines give, in their order.
pub open spec fn positions(lines: Seq<Seq<char>>) -> Seq<int>
    decreases lines.len(),
{
    if lines.len() == 0 {
        Seq::<int>::empty()
    } else {
        match position(lines.last()) {
            Some(t) => positions(lines.drop_last()).push(t),
            None => positions(lines.drop_last()),
        }
    }
}

/// A share is the exact ratio of a position to the length of the job; a position outside the job
/// counts as its nearer end, and a job without a length has come nowhere.
pub proof fn law_share_is_the_ratio(t: int, total: int)
    requires
        total <= i64::MAX,
    ensures
        share(t, total).wf(),
        0 <= t <= total && total > 0 ==> share(t, total).part * total == t * share(t, total).whole,
        total > 0 && t <= 0 ==> share(t, total).part == 0,
        total > 0 && t >= total ==> share(t, total).part == share(t, total).whole,
        total <= 0 ==> share(t, total).part == 0,
{
}

/// A single position is shown if and only if nothing is on show, or it lies more than a
/// thousandth of the job from what is on show.
pub proof fn law_single_position(t: int, total: int, shown: Option<Share>)
    requires
        total <= i64::MAX,
    ensures
        shown is None ==> shares_shown(seq![t], total, shown) == seq![share(t, total)],
        shown matches Some(s) ==> {
            let now = share(t, total);
            if (now.part - s.part) * 1000 > now.whole || (s.part - now.part) * 1000 > now.whole {
                shares_shown(seq![t], total, shown) == seq![now]
            } else {
                shares_shown(seq![t], total, shown) == Seq::<Share>::empty()
            }
        },
        shares_shown(Seq::<int>::empty(), total, shown) == Seq::<Share>::empty(),
{
    let times = seq![t];
    assert(times.last() == t);
    assert(times.drop_last() =~= Seq::<int>::empty());
    let now = share(t, total);
    assert(shares_shown(times.drop_last(), total, shown) =~= Seq::<Share>::empty());
    match shown {
        Some(s) => {
            assert(0 <= now.whole);
            assert(last_shown(Seq::<Share>::empty(), shown) == Some(s));
            if worth_showing(shown, now) {
                assert(shares_shown(times, total, shown) =~= seq![now]);
            }
        },
        None => {
            assert(shares_shown(times, total, shown) =~= seq![now]);
        },
    }
}

/// What is on show is never further than a thousandth of the job from the last position reported.
pub proof fn law_show_keeps_up(times: Seq<int>, total: int, shown: Option<Share>)
    requires
        times.len() > 0,
        total <= i64::MAX,
    ensures
        ({
            let now = share(times.last(), total);
            let on_show = last_shown(shares_shown(times, total, shown), shown);
            &&& on_show is Some
            &&& (now.part - on_show->0.part) * 1000 <= now.whole
            &&& (on_show->0.part - now.part) * 1000 <= now.whole
        }),
{
}

/// Every share that is shown is that of a position that was reported.
pub proof fn law_shown_was_reported(times: Seq<int>, total: int, shown: Option<Share>, i: int)
    requires
        0 <= i < shares_shown(times, total, shown).len(),
    ensures
        exists|k: int|
            0 <= k < times.len() && shares_shown(times, total, shown)[i] == share(
                #[trigger] times[k],
                total,
            ),
    decreases times.len(),
{
    let front = times.drop_last();
    let before = shares_shown(front, total, shown);
    if i < before.len() {
        law_shown_was_reported(front, total, shown, i);
        let k = choose|k: int|
            0 <= k < front.len() && before[i] == share(#[trigger] front[k], total);
        assert(times[k] == front[k]);
    } else {
        assert(times[times.len() - 1] == times.last());
    }
}

/// Every share on show is one of the whole job.
pub proof fn law_shares_are_shares(times: Seq<int>, total: int, shown: Option<Share>)
    requires
        total <= i64::MAX,
    ensures
        forall|i: int|
            0 <= i < shares_shown(times, total, shown).len() ==> (#[trigger] shares_shown(
                times,
                total,
                shown,
            )[i]).wf() && shares_shown(times, total, shown)[i].whole == share(0, total).whole,
    decreases times.len(),
{
    if times.len() > 0 {
        law_shares_are_shares(times.drop_last(), total, shown);
        let before = shares_shown(times.drop_last(), total, shown);
        let now = shares_shown(times, total, shown);
        assert forall|i: int| 0 <= i < now.len() implies (#[trigger] now[i]).wf() && now[i].whole
            == share(0, total).whole by {
            if i < before.len() {
                assert(now[i] == before[i]);
            }
        }
    }
}

/// The first position of a job is shown, and each share that follows differs from the one
/// before it by more than a thousandth of the job.
pub proof fn law_shares_are_apart(times: Seq<int>, total: int)
    ensures
        times.len() > 0 ==> shares_shown(times, total, None).len() > 0 && shares_shown(
            times,
            total,
            None,
        )[0] == share(times[0], total),
        forall|i: int|
            #![trigger shares_shown(times, total, None)[i]]
            0 < i < shares_shown(times, total, None).len() ==> distance(
                shares_shown(times, total, None)[i - 1].part as int,
                shares_shown(times, total, None)[i].part as int,
            ) * 1000 > shares_shown(times, total, None)[i].whole,
    decreases times.len(),
{
    if times.len() > 0 {
        let front = times.drop_last();
        law_shares_are_apart(front, total);
        if front.len() > 0 {
            assert(front[0] == times[0]);
        } else {
            assert(shares_shown(front, total, None).len() == 0);
        }
    }
}

/// Positions that arrive in two batches show what they would have shown in one.
pub proof fn law_shares_in_batches(a: Seq<int>, b: Seq<int>, total: int, shown: Option<Share>)
    ensures
        shares_shown(a + b, total, shown) == shares_shown(a, total, shown) + shares_shown(
            b,
            total,
            last_shown(shares_shown(a, total, shown), shown),
        ),
    decreases b.len(),
{
    let first = shares_shown(a, total, shown);
    let then = last_shown(first, shown);
    if b.len() == 0 {
        assert(a + b =~= a);
        assert(first + shares_shown(b, total, then) =~= first);
    } else {
        let front = b.drop_last();
        law_shares_in_batches(a, front, total, shown);
        assert((a + b).drop_last() =~= a + front);
        let tail = shares_shown(front, total, then);
        assert(last_shown(first + tail, shown) == last_shown(tail, then));
        assert(shares_shown(a + b, total, shown) =~= first + shares_shown(b, total, then));
    }
}

/// The position that a line gives is the clock reading that FFmpeg writes behind its name.
pub proof fn law_position_follows_its_name(line: Seq<char>)
    ensures
        log::first_group(r"(?:out_time|time)=\s*(\d{2,}:\d{2}:\d{2}\.\d+)"@, line) matches Some(
            reading,
        ) ==> position(line) == Some(clock::clock_micros(reading)),
        log::first_group(r"(?:out_time|time)=\s*(\d{2,}:\d{2}:\d{2}\.\d+)"@, line) is None
            ==> position(line) is None,
{
}

/// The positions of two batches of lines follow each other, and a single line gives its own.
pub proof fn law_positions_in_batches(a: Seq<Seq<char>>, b: Seq<Seq<char>>, line: Seq<char>)
    ensures
        positions(a + b) == positions(a) + positions(b),
        position(line) matches Some(t) ==> positions(seq![line]) == seq![t],
        position(line) is None ==> positions(seq![line]) == Seq::<int>::empty(),
{
    lemma_positions_concat(a, b);
    let one = seq![line];
    assert(one.last() == line);
    assert(one.drop_last() =~= Seq::<Seq<char>>::empty());
    assert(positions(one.drop_last()) =~= Seq::<int>::empty());
    match position(line) {
        Some(t) => {
            assert(positions(one) =~= seq![t]);
        },
        None => {},
    }
}

proof fn lemma_positions_concat(a: Seq<Seq<char>>, b: Seq<Seq<char>>)
    ensures
        positions(a + b) == positions(a) + positions(b),
    decreases b.len(),
{
    if b.len() == 0 {
        assert(a + b =~= a);
        assert(positions(a) + positions(b) =~= positions(a));
    } else {
        lemma_positions_concat(a, b.drop_last());
        assert((a + b).drop_last() =~= a + b.drop_last());
        assert(positions(a + b) =~= positions(a) + positions(b));
    }
}

/// It does not matter how reads cut the log of a job, as long as they cut between characters: two
/// pieces show the shares that the whole would have shown, and leave waiting what it would have
/// left.
pub proof fn law_cuts_do_not_matter(
    waiting: Seq<char>,
    first: Seq<u8>,
    second: Seq<u8>,
    total: int,
    shown: Option<Share>,
)
    requires
        vstd::utf8::valid_utf8(first),
        vstd::utf8::valid_utf8(second),
    ensures
        ({
            let a = log::bytes_text(first);
            let b = log::bytes_text(second);
            let both = log::bytes_text(first + second);
            let then = log::left_waiting(waiting, a);
            let before = shares_shown(positions(log::complete_lines(waiting, a)), total, shown);
            let after = shares_shown(
                positions(log::complete_lines(then, b)),
                total,
                last_shown(before, shown),
            );
            &&& shares_shown(positions(log::complete_lines(waiting, both)), total, shown) == before
                + after
            &&& last_shown(before + after, shown) == last_shown(after, last_shown(before, shown))
            &&& log::left_waiting(waiting, both) == log::left_waiting(then, b)
        }),
{
    let a = log::bytes_text(first);
    let b = log::bytes_text(second);
    log::lemma_bytes_text_concat(first, second);
    log::law_pieces_do_not_matter(waiting, a, b);
    let earlier = log::complete_lines(waiting, a);
    let later = log::complete_lines(log::left_waiting(waiting, a), b);
    lemma_positions_concat(earlier, later);
    law_shares_in_batches(positions(earlier), positions(later), total, shown);
}

/// The position that a line of the log gives.
fn line_position(line: &str) -> (t: Option<Seconds>)
    ensures
        match t {
            Some(s) => position(line@) == Some(s.micros as int),
            None => position(line@) is None,
        },
{
    match log::find(POSITION_PATTERN, line) {
        Some(reading) => Some(clock::time_str_to_seconds(reading.as_str())),
        None => None,
    }
}

/// Follows the log of one job of known length.
#[derive(Debug)]
pub struct ProgressWatch {
    lines: LineBuffer,
    total: Seconds,
    shown: Option<Share>,
}

impl ProgressWatch {
    /// The length of the job.
    pub closed spec fn total(self) -> int {
        self.total.micros as int
    }

    /// What of the log waits for the end of its line.
    pub closed spec fn waiting(self) -> Seq<char> {
        self.lines@
    }

    /// The share that is on show.
    pub closed spec fn shown(self) -> Option<Share> {
        self.shown
    }

    /// Follows a job of length `total_dur`; nothing is on show yet.
    pub fn new(total_dur: Seconds) -> (w: ProgressWatch)
        ensures
            w.total() == total_dur.micros,
            w.waiting() == Seq::<char>::empty(),
            w.shown() is None,
    {
        ProgressWatch { lines: LineBuffer::new(), total: total_dur, shown: None }
    }

    /// The job has reached `t`. Hands out the share to show, if it is worth showing.
    pub fn note(&mut self, t: Seconds) -> (show: Option<Share>)
        ensures
            final(self).total() == old(self).total(),
            final(self).waiting() == old(self).waiting(),
            match show {
                Some(s) => worth_showing(old(self).shown(), s) && s == share(
                    t.micros as int,
                    old(self).total(),
                ) && final(self).shown() == Some(s),
                None => !worth_showing(
                    old(self).shown(),
                    share(t.micros as int, old(self).total()),
                ) && final(self).shown() == old(self).shown(),
            },
    {
        let now = share_of(t, self.total);
        let worth = match self.shown {
            None => true,
            Some(s) => {
                let a: i128 = s.part as i128;
                let b: i128 = now.part as i128;
                let apart: i128 = if a < b {
                    b - a
                } else {
                    a - b
                };
                apart * 1000 > now.whole as i128
            },
        };
        if worth {
            self.shown = Some(now);
            Some(now)
        } else {
            None
        }
    }

    /// Reads the next piece of the log. Hands out the shares to show, in their order.
    pub fn watch_progress(&mut self, piece: &[u8]) -> (shares: Vec<Share>)
        ensures
            ({
                let lines = log::complete_lines(old(self).waiting(), log::bytes_text(piece@));
                let shown = shares_shown(positions(lines), old(self).total(), old(self).shown());
                &&& shares@ == shown
                &&& final(self).shown() == last_shown(shown, old(self).shown())
            }),
            final(self).total() == old(self).total(),
            final(self).waiting() == log::left_waiting(
                old(self).waiting(),
                log::bytes_text(piece@),
            ),
    {
        let lines = self.lines.push_bytes(piece);
        let ghost all = text::texts(lines@);
        let ghost begun = *self;
        let mut shares: Vec<Share> = Vec::new();
        let mut i: usize = 0;
        assert(all.take(0) =~= Seq::<Seq<char>>::empty());
        while i < lines.len()
            invariant
                i <= lines@.len(),
                all == text::texts(lines@),
                self.total() == begun.total(),
                self.waiting() == begun.waiting(),
                shares@ == shares_shown(
                    positions(all.take(i as int)),
                    begun.total(),
                    begun.shown(),
                ),
                self.shown() == last_shown(shares@, begun.shown()),
            decreases lines@.len() - i,
        {
            let ghost seen = all.take(i + 1);
            assert(seen.drop_last() =~= all.take(i as int));
            assert(seen.last() == lines@[i as int]@);
            match line_position(lines[i].as_str()) {
                Some(t) => {
                    proof {
                        let times = positions(seen);
                        assert(times.drop_last() =~= positions(all.take(i as int)));
                        assert(times.last() == t.micros);
                    }
                    match self.note(t) {
                        Some(s) => shares.push(s),
                        None => {},
                    }
                },
                None => {},
            }
            i += 1;
        }
        assert(all.take(i as int) =~= all);
        shares
    }
}

} // verus!
