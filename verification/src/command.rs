//! The command lines that FFmpeg is run with.

use vstd::prelude::*;

use crate::clock;
use crate::clock::Seconds;
use crate::decimal;
use crate::text;

verus! {

/// Asks FFmpeg what it knows of a file.
pub open spec fn probe_command(path: Seq<char>) -> Seq<Seq<char>> {
    seq!["-hide_banner"@, "-i"@, path]
}

/// Takes the picture at `t` out of a file, as PNG on standard output.
pub open spec fn frame_command(path: Seq<char>, t: int) -> Seq<Seq<char>> {
    seq![
        "-hide_banner"@,
        "-loglevel"@,
        "error"@,
        "-ss"@,
        clock::three_decimals(t),
        "-i"@,
        path,
        "-frames:v"@,
        "1"@,
        "-an"@,
        "-f"@,
        "image2pipe"@,
        "-vcodec"@,
        "png"@,
        "-y"@,
        "pipe:1"@,
    ]
}

/// Plays the sound of a file from `t` on, and ends with it.
pub open spec fn sound_command(path: Seq<char>, t: int) -> Seq<Seq<char>> {
    seq![
        "-nodisp"@,
        "-autoexit"@,
        "-loglevel"@,
        "quiet"@,
        "-ss"@,
        clock::three_decimals(t),
        "-i"@,
        path,
    ]
}

/// Copies `dur` from `start` on, every stream as it is.
pub open spec fn cut_command(
    src: Seq<char>,
    out: Seq<char>,
    start: int,
    dur: int,
) -> Seq<Seq<char>> {
    seq![
        "-y"@,
        "-hide_banner"@,
        "-ss"@,
        clock::three_decimals(start),
        "-i"@,
        src,
        "-t"@,
        clock::three_decimals(dur),
        "-c"@,
        "copy"@,
        "-avoid_negative_ts"@,
        "make_zero"@,
        "-map"@,
        "0"@,
        "-map_metadata"@,
        "0"@,
        "-progress"@,
        "pipe:2"@,
        out,
    ]
}

/// Encodes `dur` from `start` on through a filter, and copies the sound.
pub open spec fn crop_command(
    src: Seq<char>,
    out: Seq<char>,
    start: int,
    dur: int,
    filter: Seq<char>,
    crf: int,
) -> Seq<Seq<char>> {
    seq![
        "-y"@,
        "-hide_banner"@,
        "-ss"@,
        clock::three_decimals(start),
        "-i"@,
        src,
        "-t"@,
        clock::three_decimals(dur),
        "-vf"@,
        filter,
        "-c:v"@,
        "libx265"@,
        "-crf"@,
        decimal::signed_decimal(crf),
        "-preset"@,
        "medium"@,
        "-c:a"@,
        "copy"@,
        "-map_metadata"@,
        "0"@,
        "-progress"@,
        "pipe:2"@,
        out,
    ]
}

/// Encodes a whole file, and copies the sound.
pub open spec fn encode_command(input: Seq<char>, out: Seq<char>, crf: int) -> Seq<Seq<char>> {
    seq![
        "-y"@,
        "-i"@,
        input,
        "-c:v"@,
        "libx265"@,
        "-crf"@,
        decimal::signed_decimal(crf),
        "-preset"@,
        "medium"@,
        "-c:a"@,
        "copy"@,
        "-progress"@,
        "pipe:2"@,
        out,
    ]
}

/// Appends an argument.
fn arg(list: &mut Vec<String>, s: &str)
    ensures
        text::texts(final(list)@) == text::texts(old(list)@).push(s@),
{
    list.push(s.to_owned());
    assert(text::texts(list@) =~= text::texts(old(list)@).push(s@));
}

/// The arguments that ask FFmpeg what it knows of a file.
pub fn probe_args(path: &str) -> (args: Vec<String>)
    ensures
        text::texts(args@) == probe_command(path@),
{
    let mut args: Vec<String> = Vec::new();
    arg(&mut args, "-hide_banner");
    arg(&mut args, "-i");
    arg(&mut args, path);
    assert(text::texts(args@) =~= probe_command(path@));
    args
}

/// The arguments that take one picture out of a file.
pub fn frame_args(path: &str, t: Seconds) -> (args: Vec<String>)
    ensures
        text::texts(args@) == frame_command(path@, t.micros as int),
{
    let mut args: Vec<String> = Vec::new();
    arg(&mut args, "-hide_banner");
    arg(&mut args, "-loglevel");
    arg(&mut args, "error");
    arg(&mut args, "-ss");
    arg(&mut args, clock::seconds_arg(t).as_str());
    arg(&mut args, "-i");
    arg(&mut args, path);
    arg(&mut args, "-frames:v");
    arg(&mut args, "1");
    arg(&mut args, "-an");
    arg(&mut args, "-f");
    arg(&mut args, "image2pipe");
    arg(&mut args, "-vcodec");
    arg(&mut args, "png");
    arg(&mut args, "-y");
    arg(&mut args, "pipe:1");
    assert(text::texts(args@) =~= frame_command(path@, t.micros as int));
    args
}

/// The arguments that make FFplay play the sound of a file from `t` on, without a window.
pub fn sound_args(path: &str, t: Seconds) -> (args: Vec<String>)
    ensures
        text::texts(args@) == sound_command(path@, t.micros as int),
{
    let mut args: Vec<String> = Vec::new();
    arg(&mut args, "-nodisp");
    arg(&mut args, "-autoexit");
    arg(&mut args, "-loglevel");
    arg(&mut args, "quiet");
    arg(&mut args, "-ss");
    arg(&mut args, clock::seconds_arg(t).as_str());
    arg(&mut args, "-i");
    arg(&mut args, path);
    assert(text::texts(args@) =~= sound_command(path@, t.micros as int));
    args
}

/// The arguments that copy a span of a file.
pub fn cut_args(src: &str, out: &str, start: Seconds, dur: Seconds) -> (args: Vec<String>)
    ensures
        text::texts(args@) == cut_command(src@, out@, start.micros as int, dur.micros as int),
{
    let mut args: Vec<String> = Vec::new();
    arg(&mut args, "-y");
    arg(&mut args, "-hide_banner");
    arg(&mut args, "-ss");
    arg(&mut args, clock::seconds_arg(start).as_str());
    arg(&mut args, "-i");
    arg(&mut args, src);
    arg(&mut args, "-t");
    arg(&mut args, clock::seconds_arg(dur).as_str());
    arg(&mut args, "-c");
    arg(&mut args, "copy");
    arg(&mut args, "-avoid_negative_ts");
    arg(&mut args, "make_zero");
    arg(&mut args, "-map");
    arg(&mut args, "0");
    arg(&mut args, "-map_metadata");
    arg(&mut args, "0");
    arg(&mut args, "-progress");
    arg(&mut args, "pipe:2");
    arg(&mut args, out);
    assert(text::texts(args@) =~= cut_command(src@, out@, start.micros as int, dur.micros as int));
    args
}

/// The arguments that encode a span of a file through a filter.
pub fn crop_args(
    src: &str,
    out: &str,
    start: Seconds,
    dur: Seconds,
    filter: &str,
    crf: i32,
) -> (args: Vec<String>)
    ensures
        text::texts(args@) == crop_command(
            src@,
            out@,
            start.micros as int,
            dur.micros as int,
            filter@,
            crf as int,
        ),
{
    let mut args: Vec<String> = Vec::new();
    arg(&mut args, "-y");
    arg(&mut args, "-hide_banner");
    arg(&mut args, "-ss");
    arg(&mut args, clock::seconds_arg(start).as_str());
    arg(&mut args, "-i");
    arg(&mut args, src);
    arg(&mut args, "-t");
    arg(&mut args, clock::seconds_arg(dur).as_str());
    arg(&mut args, "-vf");
    arg(&mut args, filter);
    arg(&mut args, "-c:v");
    arg(&mut args, "libx265");
    arg(&mut args, "-crf");
    arg(&mut args, decimal::signed_text(crf as i64).as_str());
    arg(&mut args, "-preset");
    arg(&mut args, "medium");
    arg(&mut args, "-c:a");
    arg(&mut args, "copy");
    arg(&mut args, "-map_metadata");
    arg(&mut args, "0");
    arg(&mut args, "-progress");
    arg(&mut args, "pipe:2");
    arg(&mut args, out);
    assert(text::texts(args@) =~= crop_command(
        src@,
        out@,
        start.micros as int,
        dur.micros as int,
        filter@,
        crf as int,
    ));
    args
}

/// The arguments that encode a whole file.
pub fn encode_args(input: &str, out: &str, crf: i32) -> (args: Vec<String>)
    ensures
        text::texts(args@) == encode_command(input@, out@, crf as int),
{
    let mut args: Vec<String> = Vec::new();
    arg(&mut args, "-y");
    arg(&mut args, "-i");
    arg(&mut args, input);
    arg(&mut args, "-c:v");
    arg(&mut args, "libx265");
    arg(&mut args, "-crf");
    arg(&mut args, decimal::signed_text(crf as i64).as_str());
    arg(&mut args, "-preset");
    arg(&mut args, "medium");
    arg(&mut args, "-c:a");
    arg(&mut args, "copy");
    arg(&mut args, "-progress");
    arg(&mut args, "pipe:2");
    arg(&mut args, out);
    assert(text::texts(args@) =~= encode_command(input@, out@, crf as int));
    args
}

/// Whether the arguments give `value` for the option `name`.
pub open spec fn gives(args: Seq<Seq<char>>, name: Seq<char>, value: Seq<char>) -> bool {
    exists|i: int| 0 <= i < args.len() - 1 && #[trigger] args[i] == name && args[i + 1] == value
}

/// A cut copies every stream of the span that it is asked for, without encoding.
pub proof fn law_cut_is_lossless(src: Seq<char>, out: Seq<char>, start: int, dur: int)
    ensures
        gives(cut_command(src, out, start, dur), "-i"@, src),
        gives(cut_command(src, out, start, dur), "-ss"@, clock::three_decimals(start)),
        gives(cut_command(src, out, start, dur), "-t"@, clock::three_decimals(dur)),
        gives(cut_command(src, out, start, dur), "-c"@, "copy"@),
        gives(cut_command(src, out, start, dur), "-map"@, "0"@),
        cut_command(src, out, start, dur).last() == out,
{
    let args = cut_command(src, out, start, dur);
    assert(args[2] == "-ss"@ && args[4] == "-i"@ && args[6] == "-t"@ && args[8] == "-c"@ && args[12]
        == "-map"@);
}

/// A crop passes the span that it is asked for through its filter, encodes it as HEVC with the
/// given quality at the medium preset, and leaves the sound as it is.
pub proof fn law_crop_encodes_hevc(
    src: Seq<char>,
    out: Seq<char>,
    start: int,
    dur: int,
    filter: Seq<char>,
    crf: int,
)
    ensures
        gives(crop_command(src, out, start, dur, filter, crf), "-i"@, src),
        gives(crop_command(src, out, start, dur, filter, crf), "-ss"@, clock::three_decimals(start)),
        gives(crop_command(src, out, start, dur, filter, crf), "-t"@, clock::three_decimals(dur)),
        gives(crop_command(src, out, start, dur, filter, crf), "-vf"@, filter),
        gives(crop_command(src, out, start, dur, filter, crf), "-c:v"@, "libx265"@),
        gives(
            crop_command(src, out, start, dur, filter, crf),
            "-crf"@,
            decimal::signed_decimal(crf),
        ),
        gives(crop_command(src, out, start, dur, filter, crf), "-preset"@, "medium"@),
        gives(crop_command(src, out, start, dur, filter, crf), "-c:a"@, "copy"@),
        crop_command(src, out, start, dur, filter, crf).last() == out,
{
    let args = crop_command(src, out, start, dur, filter, crf);
    assert(args[2] == "-ss"@ && args[4] == "-i"@ && args[6] == "-t"@ && args[8] == "-vf"@);
    assert(args[10] == "-c:v"@ && args[12] == "-crf"@ && args[14] == "-preset"@ && args[16]
        == "-c:a"@);
}

/// A batch job encodes its input as HEVC with the given quality at the medium preset, and leaves
/// the sound as it is.
pub proof fn law_encode_makes_hevc(input: Seq<char>, out: Seq<char>, crf: int)
    ensures
        gives(encode_command(input, out, crf), "-i"@, input),
        gives(encode_command(input, out, crf), "-c:v"@, "libx265"@),
        gives(encode_command(input, out, crf), "-crf"@, decimal::signed_decimal(crf)),
        gives(encode_command(input, out, crf), "-preset"@, "medium"@),
        gives(encode_command(input, out, crf), "-c:a"@, "copy"@),
        encode_command(input, out, crf).last() == out,
{
    let args = encode_command(input, out, crf);
    assert(args[1] == "-i"@ && args[3] == "-c:v"@ && args[5] == "-crf"@ && args[7] == "-preset"@
        && args[9] == "-c:a"@);
}

/// FFmpeg is asked about the file that is given, and about nothing else.
pub proof fn law_probe_asks_of_file(path: Seq<char>)
    ensures
        gives(probe_command(path), "-i"@, path),
        probe_command(path).last() == path,
{
    let args = probe_command(path);
    assert(args[1] == "-i"@ && args[2] == path);
}

/// A picture is one frame of the file at the time that is given, sought before the file is
/// opened, as PNG on standard output.
pub proof fn law_frame_is_one_picture(path: Seq<char>, t: int)
    ensures
        gives(frame_command(path, t), "-i"@, path),
        gives(frame_command(path, t), "-ss"@, clock::three_decimals(t)),
        gives(frame_command(path, t), "-frames:v"@, "1"@),
        gives(frame_command(path, t), "-f"@, "image2pipe"@),
        gives(frame_command(path, t), "-vcodec"@, "png"@),
        frame_command(path, t).last() == "pipe:1"@,
        exists|i: int, j: int|
            0 <= i < j < frame_command(path, t).len() && #[trigger] frame_command(path, t)[i]
                == "-ss"@ && #[trigger] frame_command(path, t)[j] == "-i"@,
{
    let args = frame_command(path, t);
    assert(args[3] == "-ss"@ && args[5] == "-i"@ && args[7] == "-frames:v"@ && args[10] == "-f"@
        && args[12] == "-vcodec"@);
}

/// The sound is that of the file from the time that is given on, and ends with it.
pub proof fn law_sound_begins_at(path: Seq<char>, t: int)
    ensures
        gives(sound_command(path, t), "-i"@, path),
        gives(sound_command(path, t), "-ss"@, clock::three_decimals(t)),
        sound_command(path, t).contains("-autoexit"@),
        sound_command(path, t).contains("-nodisp"@),
{
    let args = sound_command(path, t);
    assert(args[0] == "-nodisp"@ && args[1] == "-autoexit"@ && args[4] == "-ss"@ && args[6]
        == "-i"@);
}

/// Every job overwrites an earlier result, and reports its progress where it is read.
pub proof fn law_jobs_report_progress(
    src: Seq<char>,
    out: Seq<char>,
    start: int,
    dur: int,
    filter: Seq<char>,
    crf: int,
)
    ensures
        gives(cut_command(src, out, start, dur), "-progress"@, "pipe:2"@),
        gives(crop_command(src, out, start, dur, filter, crf), "-progress"@, "pipe:2"@),
        gives(encode_command(src, out, crf), "-progress"@, "pipe:2"@),
        gives(cut_command(src, out, start, dur), "-map_metadata"@, "0"@),
        gives(crop_command(src, out, start, dur, filter, crf), "-map_metadata"@, "0"@),
        cut_command(src, out, start, dur)[0] == "-y"@,
        crop_command(src, out, start, dur, filter, crf)[0] == "-y"@,
        encode_command(src, out, crf)[0] == "-y"@,
{
    let cut = cut_command(src, out, start, dur);
    let crop = crop_command(src, out, start, dur, filter, crf);
    let encode = encode_command(src, out, crf);
    assert(cut[14] == "-map_metadata"@ && cut[16] == "-progress"@);
    assert(crop[18] == "-map_metadata"@ && crop[20] == "-progress"@);
    assert(encode[11] == "-progress"@);
}

/// Two commands of the same kind differ in what they are given alone: the files, the times, the
/// filter and the quality. The rest of their arguments is the same, in the same places.
pub proof fn law_commands_differ_in_what_is_given(
    src: Seq<char>,
    out: Seq<char>,
    start: int,
    dur: int,
    filter: Seq<char>,
    crf: int,
    src2: Seq<char>,
    out2: Seq<char>,
    start2: int,
    dur2: int,
    filter2: Seq<char>,
    crf2: int,
)
    ensures
        same_but_at(probe_command(src), probe_command(src2), set![2int]),
        same_but_at(frame_command(src, start), frame_command(src2, start2), set![4int, 6int]),
        same_but_at(sound_command(src, start), sound_command(src2, start2), set![5int, 7int]),
        same_but_at(
            cut_command(src, out, start, dur),
            cut_command(src2, out2, start2, dur2),
            set![3int, 5int, 7int, 18int],
        ),
        same_but_at(
            crop_command(src, out, start, dur, filter, crf),
            crop_command(src2, out2, start2, dur2, filter2, crf2),
            set![3int, 5int, 7int, 9int, 13int, 22int],
        ),
        same_but_at(
            encode_command(src, out, crf),
            encode_command(src2, out2, crf2),
            set![2int, 6int, 13int],
        ),
{
}

/// Whether two lists of arguments are equally long and differ at these places at most.
pub open spec fn same_but_at(a: Seq<Seq<char>>, b: Seq<Seq<char>>, places: Set<int>) -> bool {
    &&& a.len() == b.len()
    &&& forall|i: int| 0 <= i < a.len() && !places.contains(i) ==> #[trigger] a[i] == b[i]
}

} // verus!
