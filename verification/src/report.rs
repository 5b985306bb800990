//! What is shown of an encoding job: shares, percentages and estimates.

use vstd::prelude::*;

use crate::clock;
use crate::clock::Seconds;
use crate::decimal;
use crate::monitor::EncodeMonitor;
use crate::monitor::JobStatus;
use crate::progress;
use crate::progress::Share;

verus! {

/// A share of a whole that may be larger than a `Share` can hold.
#[derive(Clone, Copy, Debug, PartialEq, Eq, Structural)]
pub struct WideShare {
    pub part: u128,
    pub whole: u128,
}

impl WideShare {
    /// A share lies between nothing and all of a whole that is not empty.
    pub open spec fn wf(self) -> bool {
        0 <= self.part <= self.whole && 0 < self.whole
    }
}

/// The share of all files that is done: `index` whole files out of `total`, and `file` of the
/// next one.
pub open spec fn overall(file: Share, index: int, total: int) -> (int, int) {
    (index * file.whole + file.part, total * file.whole)
}

/// Whether `part` is more than a hundredth of `whole`.
pub open spec fn past_one_percent(part: int, whole: int) -> bool {
    part * 100 > whole
}

/// The whole time of a job that has taken `elapsed` for `part` of `whole`.
pub open spec fn estimate(elapsed: int, part: int, whole: int) -> int {
    elapsed * whole / part
}

/// `a`, or zero if it is negative.
pub open spec fn at_least_zero(a: int) -> int {
    if a < 0 {
        0
    } else {
        a
    }
}

/// The estimated time for the current file and what remains of it. Until one percent is done,
/// the length of the input and the part of it that is not encoded stand in for them.
pub open spec fn file_estimate(status: JobStatus, elapsed: int) -> (int, int) {
    let share = progress::share(status.time, status.duration);
    if past_one_percent(share.part as int, share.whole as int) {
        let total = estimate(elapsed, share.part as int, share.whole as int);
        (total, at_least_zero(total - elapsed))
    } else {
        (status.duration, at_least_zero(status.duration - status.time))
    }
}

/// The line on the time of the current file.
pub open spec fn time_line(status: JobStatus, elapsed: int) -> Seq<char> {
    if status.duration > 0 {
        let (total, remaining) = file_estimate(status, elapsed);
        clock::hms(elapsed) + " / "@ + clock::hms(total) + " ("@ + clock::hms(remaining)
            + " remaining)"@
    } else {
        clock::hms(elapsed) + " (Analyzing...)"@
    }
}

/// The line on the time of the whole batch, of which `part` of `whole` is done.
pub open spec fn overall_time_line(elapsed: int, part: int, whole: int) -> Seq<char> {
    if past_one_percent(part, whole) {
        let total = estimate(elapsed, part, whole);
        "Started: "@ + clock::hms(elapsed) + " / Est: "@ + clock::hms(total) + " ("@ + clock::hms(
            at_least_zero(total - elapsed),
        ) + " remaining)"@
    } else {
        "Started: "@ + clock::hms(elapsed)
    }
}

/// A share as a percentage with one decimal.
pub open spec fn percent(share: Share) -> Seq<char> {
    let tenths = clock::rounded((share.part * 1000) as nat, share.whole as nat);
    decimal::decimal(tenths / 10) + seq!['.'] + seq![decimal::digit((tenths % 10) as int)]
}

/// The line on the progress of the current file.
pub open spec fn progress_line(status: JobStatus) -> Seq<char> {
    percent(progress::share(status.time, status.duration)) + "% (x"@ + status.speed + ", "@
        + status.bitrate + ")"@
}

/// `a * b / d`, exactly, where the product itself may not fit.
fn mul_div(a: u64, b: u128, d: u128) -> (qr: (u128, u128))
    requires
        b <= d,
        0 < d <= 0x7fff_ffff_ffff_ffff_ffff_ffff_ffff_ffff,
    ensures
        a * b == qr.0 * d + qr.1,
        qr.1 < d,
        qr.0 <= a,
    decreases a,
{
    if a == 0 {
        assert(0 * b == 0);
        assert(0 * d == 0);
        return (0, 0);
    }
    let (q, r) = mul_div(a / 2, b, d);
    let mut q2: u128 = 2 * q;
    let mut r2: u128 = 2 * r;
    let ghost half: int = (a / 2) as int;
    assert((2 * half) * b == 2 * (half * b)) by (nonlinear_arith);
    assert((2 * q) * d == 2 * (q * d)) by (nonlinear_arith);
    assert((2 * half) * b == q2 * d + r2);
    if r2 >= d {
        assert((q2 + 1) * d == q2 * d + d) by (nonlinear_arith);
        q2 = q2 + 1;
        r2 = r2 - d;
    }
    assert((2 * half) * b == q2 * d + r2);
    if a % 2 == 1 {
        assert(a * b == (2 * half) * b + b) by (nonlinear_arith)
            requires
                a == 2 * half + 1,
        ;
        r2 = r2 + b;
        if r2 >= d {
            assert((q2 + 1) * d == q2 * d + d) by (nonlinear_arith);
            q2 = q2 + 1;
            r2 = r2 - d;
        }
    } else {
        assert(a == 2 * half);
    }
    assert(a * b == q2 * d + r2);
    assert(q2 <= a) by (nonlinear_arith)
        requires
            a * b == q2 * d + r2,
            0 <= b <= d,
            0 < d,
            0 <= r2,
            0 <= q2,
            0 <= a,
    ;
    (q2, r2)
}

/// `part * 100 > whole`, without the product.
fn over_one_percent(part: u128, whole: u128) -> (b: bool)
    ensures
        b == past_one_percent(part as int, whole as int),
{
    part > whole / 100
}

proof fn lemma_division(n: int, d: int, q: int, r: int)
    requires
        n == q * d + r,
        0 <= r < d,
    ensures
        n / d == q,
{
    vstd::arithmetic::div_mod::lemma_fundamental_div_mod_converse(n, d, q, r);
}

/// The whole time, in microseconds, of a job of which more than one percent is done.
fn estimated(elapsed: Seconds, part: u128, whole: u128) -> (t: u128)
    requires
        elapsed.micros >= 0,
        part <= whole <= 0x7fff_ffff_ffff_ffff_ffff_ffff_ffff_ffff,
        past_one_percent(part as int, whole as int),
    ensures
        t == estimate(elapsed.micros as int, part as int, whole as int),
        elapsed.micros <= t <= elapsed.micros * 101,
{
    let e: u64 = elapsed.micros as u64;
    let times: u128 = whole / part;
    let over: u128 = whole % part;
    proof {
        vstd::arithmetic::div_mod::lemma_fundamental_div_mod(whole as int, part as int);
        assert(part * times == times * part) by (nonlinear_arith);
        assert(whole == times * part + over);
        assert(times <= 100) by (nonlinear_arith)
            requires
                whole == times * part + over,
                part * 100 > whole,
                0 < part,
                0 <= over,
        ;
        assert(times >= 1) by (nonlinear_arith)
            requires
                whole == times * part + over,
                part <= whole,
                over < part,
        ;
    }
    let (q, r) = mul_div(e, over, part);
    proof {
        assert(e * whole == (e * times + q) * part + r) by (nonlinear_arith)
            requires
                whole == times * part + over,
                e * over == q * part + r,
        ;
        lemma_division(e * whole, part as int, e * times + q, r as int);
        assert(e * times <= e * 100) by (nonlinear_arith)
            requires
                times <= 100,
                e >= 0,
        ;
        assert(e * times >= e) by (nonlinear_arith)
            requires
                times >= 1,
                e >= 0,
        ;
    }
    e as u128 * times + q
}

proof fn lemma_hms_clamped(n: int)
    requires
        n >= 0,
    ensures
        clock::hms(clock::clamp64(n)) == clock::hms(n),
{
}

/// What is shown of the current file and of the batch.
#[derive(Debug)]
pub struct Report {
    /// How much of the current file is done.
    pub file: Share,
    /// How much of the batch is done.
    pub overall: WideShare,
    pub progress_text: String,
    pub time_text: String,
    pub overall_time_text: String,
}

/// `micros`, which is not negative, as hours, minutes and seconds.
fn hms_of(micros: i128) -> (s: String)
    requires
        micros >= 0,
    ensures
        s@ == clock::hms(micros as int),
{
    proof {
        lemma_hms_clamped(micros as int);
    }
    clock::seconds_to_hms(Seconds { micros: clock::to_i64(micros) })
}

/// The line on the time of the current file.
fn time_text(monitor: &EncodeMonitor, share: Share, elapsed: Seconds) -> (s: String)
    requires
        elapsed.micros >= 0,
        share == progress::share(monitor@.time, monitor@.duration),
        share.wf(),
    ensures
        s@ == time_line(monitor@, elapsed.micros as int),
{
    let mut s = clock::seconds_to_hms(elapsed);
    let duration = monitor.duration();
    let time = monitor.time();
    if duration.micros > 0 {
        let part: u128 = share.part as u128;
        let whole: u128 = share.whole as u128;
        let total: i128;
        let left: i128;
        if over_one_percent(part, whole) {
            let t: u128 = estimated(elapsed, part, whole);
            total = t as i128;
            left = total - elapsed.micros as i128;
        } else {
            total = duration.micros as i128;
            let gap: i128 = total - time.micros as i128;
            left =
            if gap < 0 {
                0
            } else {
                gap
            };
        }
        assert(file_estimate(monitor@, elapsed.micros as int) == (total as int, left as int));
        s.append(" / ");
        s.append(hms_of(total).as_str());
        s.append(" (");
        s.append(hms_of(left).as_str());
        s.append(" remaining)");
    } else {
        s.append(" (Analyzing...)");
    }
    s
}

/// The line on the time of the whole batch.
fn overall_time_text(elapsed: Seconds, done: WideShare) -> (s: String)
    requires
        elapsed.micros >= 0,
        done.wf(),
        done.whole <= 0x7fff_ffff_ffff_ffff_ffff_ffff_ffff_ffff,
    ensures
        s@ == overall_time_line(elapsed.micros as int, done.part as int, done.whole as int),
{
    let mut s = "Started: ".to_owned();
    s.append(clock::seconds_to_hms(elapsed).as_str());
    if over_one_percent(done.part, done.whole) {
        let total: i128 = estimated(elapsed, done.part, done.whole) as i128;
        s.append(" / Est: ");
        s.append(hms_of(total).as_str());
        s.append(" (");
        s.append(hms_of(total - elapsed.micros as i128).as_str());
        s.append(" remaining)");
    }
    s
}

/// A share as a percentage with one decimal.
pub fn percent_text(share: Share) -> (s: String)
    requires
        share.wf(),
    ensures
        s@ == percent(share),
{
    let n: u128 = share.part as u128 * 1000;
    let d: u128 = share.whole as u128;
    let q: u128 = n / d;
    let twice: u128 = 2 * (n % d);
    let ghost part = share.part;
    let ghost whole = share.whole;
    proof {
        assert(q <= 1000) by (nonlinear_arith)
            requires
                q == n / d,
                n == part * 1000,
                d == whole,
                0 <= part <= whole,
                0 < whole,
        ;
    }
    let tenths: u64 = if twice < d || (twice == d && q % 2 == 0) {
        q as u64
    } else {
        q as u64 + 1
    };
    let mut s = String::new();
    decimal::push_decimal(&mut s, tenths / 10);
    s.push('.');
    s.push(decimal::digit_char((tenths % 10) as u8));
    assert(s@ =~= percent(share));
    s
}

/// The line on the progress of the current file.
fn progress_text(monitor: &EncodeMonitor, share: Share) -> (s: String)
    requires
        share == progress::share(monitor@.time, monitor@.duration),
        share.wf(),
    ensures
        s@ == progress_line(monitor@),
{
    let mut s = percent_text(share);
    s.append("% (x");
    s.append(monitor.speed());
    s.append(", ");
    s.append(monitor.bitrate());
    s.append(")");
    s
}

/// How much of the batch is done.
fn overall_share(file: Share, index: usize, total_files: usize) -> (s: WideShare)
    requires
        file.wf(),
        index < total_files,
    ensures
        (s.part as int, s.whole as int) == overall(file, index as int, total_files as int),
        s.wf(),
        s.whole <= 0x7fff_ffff_ffff_ffff_ffff_ffff_ffff_ffff,
{
    let whole: u128 = file.whole as u128;
    proof {
        let w = file.whole as int;
        let i = index as int;
        let n = total_files as int;
        assert(i * w + w <= n * w) by (nonlinear_arith)
            requires
                i + 1 <= n,
                0 < w,
        ;
        assert(n * w <= 0xffff_ffff_ffff_ffff * 0x7fff_ffff_ffff_ffff) by (nonlinear_arith)
            requires
                0 <= n <= 0xffff_ffff_ffff_ffff,
                0 < w <= 0x7fff_ffff_ffff_ffff,
        ;
        assert(i * w >= 0) by (nonlinear_arith)
            requires
                i >= 0,
                w > 0,
        ;
        assert(n * w >= w) by (nonlinear_arith)
            requires
                n >= 1,
                w > 0,
        ;
    }
    WideShare {
        part: index as u128 * whole + file.part as u128,
        whole: total_files as u128 * whole,
    }
}

/// What is shown while the file `index` of `total_files` is encoded: it has taken
/// `file_elapsed` so far, and the batch `batch_elapsed`.
pub fn report(
    monitor: &EncodeMonitor,
    file_elapsed: Seconds,
    batch_elapsed: Seconds,
    index: usize,
    total_files: usize,
) -> (r: Report)
    requires
        file_elapsed.micros >= 0,
        batch_elapsed.micros >= 0,
        index < total_files,
    ensures
        r.file == progress::share(monitor@.time, monitor@.duration),
        r.file.wf(),
        (r.overall.part as int, r.overall.whole as int) == overall(
            r.file,
            index as int,
            total_files as int,
        ),
        r.overall.wf(),
        r.progress_text@ == progress_line(monitor@),
        r.time_text@ == time_line(monitor@, file_elapsed.micros as int),
        r.overall_time_text@ == overall_time_line(
            batch_elapsed.micros as int,
            r.overall.part as int,
            r.overall.whole as int,
        ),
{
    let file = progress::share_of(monitor.time(), monitor.duration());
    let all = overall_share(file, index, total_files);
    Report {
        file,
        overall: all,
        progress_text: progress_text(monitor, file),
        time_text: time_text(monitor, file, file_elapsed),
        overall_time_text: overall_time_text(batch_elapsed, all),
    }
}

/// The share of the batch lies between the share of the files before the current one and that
/// of the files up to it; it reaches the latter when the current file is done.
pub proof fn law_overall_in_step(file: Share, index: int, total: int)
    requires
        file.wf(),
        0 <= index < total,
    ensures
        ({
            let (part, whole) = overall(file, index, total);
            &&& index * whole <= part * total
            &&& part * total <= (index + 1) * whole
            &&& file.part == file.whole ==> part * total == (index + 1) * whole
        }),
{
    let w = file.whole as int;
    let p = file.part as int;
    assert(index * (total * w) <= (index * w + p) * total) by (nonlinear_arith)
        requires
            p >= 0,
            total > 0,
    ;
    assert((index * w + p) * total <= (index + 1) * (total * w)) by (nonlinear_arith)
        requires
            p <= w,
            total > 0,
    ;
    assert(p == w ==> (index * w + p) * total == (index + 1) * (total * w)) by (nonlinear_arith);
}

/// While the position moves on, neither the share of the file nor that of the batch falls back.
pub proof fn law_progress_monotone(
    earlier: int,
    later: int,
    duration: int,
    index: int,
    total: int,
)
    requires
        earlier <= later,
        duration <= i64::MAX,
        0 <= index < total,
    ensures
        ({
            let a = progress::share(earlier, duration);
            let b = progress::share(later, duration);
            &&& a.part <= b.part
            &&& a.whole == b.whole
            &&& overall(a, index, total).0 <= overall(b, index, total).0
            &&& overall(a, index, total).1 == overall(b, index, total).1
        }),
{
}

/// An estimate never lies before what has already passed.
pub proof fn law_estimate_covers_elapsed(elapsed: int, part: int, whole: int)
    requires
        elapsed >= 0,
        0 < part <= whole,
    ensures
        estimate(elapsed, part, whole) >= elapsed,
        part == whole ==> estimate(elapsed, part, whole) == elapsed,
{
    assert(elapsed * whole >= elapsed * part) by (nonlinear_arith)
        requires
            elapsed >= 0,
            part <= whole,
    ;
    vstd::arithmetic::div_mod::lemma_div_is_ordered(elapsed * part, elapsed * whole, part);
    vstd::arithmetic::div_mod::lemma_div_by_multiple(elapsed, part);
}

/// The share of the batch is exactly the whole files that are done and the share of the current
/// one, out of all files.
pub proof fn law_overall_is_the_ratio(file: Share, index: int, total: int)
    requires
        file.wf(),
        0 <= index < total,
    ensures
        overall(file, index, total).1 > 0,
        overall(file, index, total).0 * (total * file.whole) == overall(file, index, total).1 * (index
            * file.whole + file.part),
{
    let w = file.whole as int;
    let p = file.part as int;
    assert(total * w > 0) by (nonlinear_arith)
        requires
            total > 0,
            w > 0,
    ;
    assert((index * w + p) * (total * w) == (total * w) * (index * w + p)) by (nonlinear_arith);
}

/// An estimate is to what has passed as the whole is to the part that is done, down to a
/// microsecond.
pub proof fn law_estimate_is_in_proportion(elapsed: int, part: int, whole: int)
    requires
        0 < part,
    ensures
        estimate(elapsed, part, whole) * part <= elapsed * whole,
        elapsed * whole < (estimate(elapsed, part, whole) + 1) * part,
{
    let e = estimate(elapsed, part, whole);
    vstd::arithmetic::div_mod::lemma_fundamental_div_mod(elapsed * whole, part);
    assert(part * e == e * part) by (nonlinear_arith);
    assert((e + 1) * part == e * part + part) by (nonlinear_arith);
}

proof fn lemma_estimate_is_unique(elapsed: int, part: int, whole: int, t: int)
    requires
        0 < part,
        t * part <= elapsed * whole,
        elapsed * whole < (t + 1) * part,
    ensures
        estimate(elapsed, part, whole) == t,
{
    assert((t + 1) * part == t * part + part) by (nonlinear_arith);
    lemma_division(elapsed * whole, part, t, elapsed * whole - t * part);
}

/// The line on a file of which more than a hundredth is encoded: the time that has passed, the
/// time that the whole of it takes at this pace, and the difference of the two.
pub proof fn law_time_line_in_proportion(status: JobStatus, elapsed: int, total: int)
    requires
        elapsed >= 0,
        0 <= status.time <= status.duration <= i64::MAX,
        status.time * 100 > status.duration,
        total * status.time <= elapsed * status.duration,
        elapsed * status.duration < (total + 1) * status.time,
    ensures
        time_line(status, elapsed) == clock::hms(elapsed) + " / "@ + clock::hms(total) + " ("@
            + clock::hms(total - elapsed) + " remaining)"@,
{
    lemma_estimate_is_unique(elapsed, status.time, status.duration, total);
    law_estimate_covers_elapsed(elapsed, status.time, status.duration);
}

/// The line on a file whose end has been passed: nothing remains.
pub proof fn law_time_line_past_the_end(status: JobStatus, elapsed: int)
    requires
        elapsed >= 0,
        0 < status.duration <= i64::MAX,
        status.time >= status.duration,
    ensures
        time_line(status, elapsed) == clock::hms(elapsed) + " / "@ + clock::hms(elapsed) + " ("@
            + clock::hms(0) + " remaining)"@,
{
    law_estimate_covers_elapsed(elapsed, status.duration, status.duration);
}

/// The line on a file of which no more than a hundredth is encoded: the length of the input, and
/// how much of it is left.
pub proof fn law_time_line_at_the_start(status: JobStatus, elapsed: int)
    requires
        0 < status.duration <= i64::MAX,
        status.time * 100 <= status.duration,
    ensures
        time_line(status, elapsed) == clock::hms(elapsed) + " / "@ + clock::hms(status.duration)
            + " ("@ + clock::hms(status.duration - status.time) + " remaining)"@,
{
}

/// The line on a file whose length is not known yet.
pub proof fn law_time_line_without_length(status: JobStatus, elapsed: int)
    requires
        status.duration <= 0,
    ensures
        time_line(status, elapsed) == clock::hms(elapsed) + " (Analyzing...)"@,
{
}

/// The line on the batch: from a hundredth on, the time that the whole of it takes at this pace
/// and what remains of that; before, only the time that has passed.
pub proof fn law_batch_line_in_proportion(elapsed: int, part: int, whole: int, total: int)
    requires
        elapsed >= 0,
        0 <= part <= whole,
        part * 100 > whole ==> total * part <= elapsed * whole && elapsed * whole < (total + 1)
            * part,
    ensures
        part * 100 > whole ==> overall_time_line(elapsed, part, whole) == "Started: "@ + clock::hms(
            elapsed,
        ) + " / Est: "@ + clock::hms(total) + " ("@ + clock::hms(total - elapsed) + " remaining)"@,
        part * 100 <= whole ==> overall_time_line(elapsed, part, whole) == "Started: "@
            + clock::hms(elapsed),
{
    if part * 100 > whole {
        lemma_estimate_is_unique(elapsed, part, whole, total);
        law_estimate_covers_elapsed(elapsed, part, whole);
    }
}

/// A percentage is shown to the nearest tenth: `tenths` is shown where it lies within half a tenth
/// of the share.
pub proof fn law_percent_is_nearest(share: Share, tenths: nat)
    requires
        share.wf(),
        -(share.whole as int) < 2 * (tenths * share.whole - share.part * 1000) < share.whole,
    ensures
        percent(share) == decimal::decimal(tenths / 10) + seq!['.'] + decimal::decimal(tenths % 10),
        share.part == 0 ==> percent(share) == "0.0"@,
        share.part == share.whole ==> percent(share) == "100.0"@,
{
    let n = (share.part * 1000) as nat;
    let d = share.whole as nat;
    let r = clock::rounded(n, d);
    clock::lemma_rounded_close(n, d);
    assert(r == tenths) by (nonlinear_arith)
        requires
            -(d as int) <= 2 * (r * d - n) <= d,
            -(d as int) < 2 * (tenths * d - n) < d,
            d > 0,
    ;
    if share.part == 0 {
        assert(tenths == 0) by (nonlinear_arith)
            requires
                -(d as int) < 2 * (tenths * d - 0) < d,
                d > 0,
                tenths >= 0,
        ;
        reveal_strlit("0.0");
        assert(percent(share) =~= "0.0"@);
    }
    if share.part == share.whole {
        assert(tenths == 1000) by (nonlinear_arith)
            requires
                -(d as int) < 2 * (tenths * d - d * 1000) < d,
                d > 0,
        ;
        reveal_strlit("100.0");
        reveal_with_fuel(decimal::decimal, 4);
        assert(percent(share) =~= "100.0"@);
    }
}

/// The line on the progress of a file shows the share that is encoded as a percentage, then the
/// speed, then the bit rate.
pub proof fn law_progress_line_is_nearest(status: JobStatus, tenths: nat)
    requires
        0 <= status.time <= status.duration <= i64::MAX,
        0 < status.duration,
        -status.duration < 2 * (tenths * status.duration - status.time * 1000) < status.duration,
    ensures
        progress_line(status) == decimal::decimal(tenths / 10) + seq!['.'] + decimal::decimal(
            tenths % 10,
        ) + "% (x"@ + status.speed + ", "@ + status.bitrate + ")"@,
{
    law_percent_is_nearest(progress::share(status.time, status.duration), tenths);
}

} // verus!
