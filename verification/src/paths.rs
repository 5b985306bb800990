//! File names: which of them are videos.

use vstd::prelude::*;

use crate::log;
use crate::reading;
use crate::text;

verus! {

// ---------------------------------------------------------------------------
// Stem and extension
// ---------------------------------------------------------------------------

/// The last place of `c` in `s`; minus one if there is none.
pub open spec fn last_index(s: Seq<char>, c: char) -> int
    decreases s.len(),
{
    if s.len() == 0 {
        -1
    } else if s.last() == c {
        s.len() - 1
    } else {
        last_index(s.drop_last(), c)
    }
}

pub proof fn lemma_last_index(s: Seq<char>, c: char)
    ensures
        -1 <= last_index(s, c) < s.len(),
        last_index(s, c) >= 0 ==> s[last_index(s, c)] == c,
        forall|i: int| last_index(s, c) < i < s.len() ==> s[i] != c,
    decreases s.len(),
{
    if s.len() > 0 && s.last() != c {
        let front = s.drop_last();
        lemma_last_index(front, c);
        assert forall|i: int| last_index(s, c) < i < s.len() implies s[i] != c by {
            if i < front.len() {
                assert(front[i] == s[i]);
            }
        }
    }
}

/// The part of a file name before its last dot: all of it if it has no dot, or only the one that
/// it begins with.
pub open spec fn stem(name: Seq<char>) -> Seq<char> {
    let dot = last_index(name, '.');
    if dot <= 0 {
        name
    } else {
        name.take(dot)
    }
}

/// The part of a file name behind its last dot, if it has one that it does not begin with.
pub open spec fn extension(name: Seq<char>) -> Option<Seq<char>> {
    let dot = last_index(name, '.');
    if dot <= 0 {
        None
    } else {
        Some(name.skip(dot + 1))
    }
}

/// A name that has an extension is its stem, a dot and the extension.
pub proof fn law_stem_and_extension(name: Seq<char>)
    requires
        extension(name) is Some,
    ensures
        name == stem(name) + seq!['.'] + extension(name)->0,
        stem(name).len() > 0,
        !(extension(name)->0).contains('.'),
{
    lemma_last_index(name, '.');
    let dot = last_index(name, '.');
    let e = name.skip(dot + 1);
    assert(name =~= name.take(dot) + seq!['.'] + e);
    assert forall|i: int| 0 <= i < e.len() implies e[i] != '.' by {
        assert(e[i] == name[dot + 1 + i]);
    }
}

/// The last dot of a name divides it, where something stands before it.
pub proof fn law_last_dot_divides(front: Seq<char>, back: Seq<char>)
    requires
        front.len() > 0,
        !back.contains('.'),
    ensures
        stem(front + seq!['.'] + back) == front,
        extension(front + seq!['.'] + back) == Some(back),
{
    let name = front + seq!['.'] + back;
    let dot = front.len() as int;
    assert(name[dot] == '.');
    assert forall|j: int| dot < j < name.len() implies name[j] != '.' by {
        assert(name[j] == back[j - dot - 1]);
    }
    lemma_last_index_is(name, '.', dot);
    assert(name.take(dot) =~= front);
    assert(name.skip(dot + 1) =~= back);
}

/// A name without a dot, or with none but the one that it begins with, has no extension and is
/// its own stem.
pub proof fn law_no_dot_divides(rest: Seq<char>)
    requires
        !rest.contains('.'),
    ensures
        stem(rest) == rest && extension(rest) is None,
        stem(seq!['.'] + rest) == seq!['.'] + rest && extension(seq!['.'] + rest) is None,
{
    lemma_last_index(rest, '.');
    if last_index(rest, '.') >= 0 {
        assert(rest.contains(rest[last_index(rest, '.')]));
    }
    let hidden = seq!['.'] + rest;
    assert(hidden[0] == '.');
    assert forall|j: int| 0 < j < hidden.len() implies hidden[j] != '.' by {
        assert(hidden[j] == rest[j - 1]);
    }
    lemma_last_index_is(hidden, '.', 0);
}

/// The stem of a file name, and its extension.
pub fn split_name(name: &str) -> (parts: (String, Option<String>))
    ensures
        parts.0@ == stem(name@),
        log::text_of(parts.1) == extension(name@),
{
    let chars = text::chars_of(name);
    let mut end: usize = chars.len();
    assert(chars@.take(end as int) =~= chars@);
    while end > 0 && chars[end - 1] != '.'
        invariant
            end <= chars@.len(),
            last_index(chars@, '.') == last_index(chars@.take(end as int), '.'),
        decreases end,
    {
        assert(chars@.take(end as int).drop_last() =~= chars@.take(end - 1));
        end -= 1;
    }
    if end <= 1 {
        assert(chars@.subrange(0, chars@.len() as int) =~= chars@);
        return (text::string_of(&chars, 0, chars.len()), None);
    }
    assert(last_index(name@, '.') == end - 1);
    let front = text::string_of(&chars, 0, end - 1);
    let back = text::string_of(&chars, end, chars.len());
    assert(front@ =~= name@.take(end - 1));
    assert(back@ =~= name@.skip(end as int));
    (front, Some(back))
}

/// The extensions of video files.
pub open spec fn video_extension(e: Seq<char>) -> bool {
    ||| e == "mp4"@
    ||| e == "mkv"@
    ||| e == "avi"@
    ||| e == "mov"@
    ||| e == "wmv"@
    ||| e == "flv"@
    ||| e == "mpg"@
    ||| e == "mpeg"@
}

/// Whether an extension is that of a video, in capitals or small letters.
pub open spec fn video_letters(e: Seq<char>) -> bool {
    !e.contains('\\') && video_extension(text::small_letters(e))
}

/// Whether a file name has the extension of a video, in capitals or small letters.
pub open spec fn video_name(name: Option<Seq<char>>) -> bool {
    match name {
        Some(n) => match extension(n) {
            Some(e) => video_letters(e),
            None => false,
        },
        None => false,
    }
}

/// A name with something before its last dot is that of a video if and only if what follows the
/// dot is, in small letters, one of eight extensions; capitals do not matter.
pub proof fn law_which_names_are_videos(front: Seq<char>, e: Seq<char>)
    requires
        front.len() > 0,
        !e.contains('.'),
        forall|i: int| 0 <= i < e.len() ==> 'a' <= #[trigger] e[i] <= 'z' || '0' <= e[i] <= '9',
    ensures
        video_name(Some(front + seq!['.'] + e)) <==> {
            ||| e == seq!['m', 'p', '4']
            ||| e == seq!['m', 'k', 'v']
            ||| e == seq!['a', 'v', 'i']
            ||| e == seq!['m', 'o', 'v']
            ||| e == seq!['w', 'm', 'v']
            ||| e == seq!['f', 'l', 'v']
            ||| e == seq!['m', 'p', 'g']
            ||| e == seq!['m', 'p', 'e', 'g']
        },
        forall|f: Seq<char>|
            #![trigger video_letters(f)]
            text::all_ascii(f) && f.map_values(|c: char| text::ascii_small(c)) == e && !f.contains('\\')
                ==> video_letters(f) == video_letters(e),
        !video_name(None),
{
    law_last_dot_divides(front, e);
    reveal_strlit("mp4");
    reveal_strlit("mkv");
    reveal_strlit("avi");
    reveal_strlit("mov");
    reveal_strlit("wmv");
    reveal_strlit("flv");
    reveal_strlit("mpg");
    reveal_strlit("mpeg");
    assert("mp4"@ =~= seq!['m', 'p', '4']);
    assert("mkv"@ =~= seq!['m', 'k', 'v']);
    assert("avi"@ =~= seq!['a', 'v', 'i']);
    assert("mov"@ =~= seq!['m', 'o', 'v']);
    assert("wmv"@ =~= seq!['w', 'm', 'v']);
    assert("flv"@ =~= seq!['f', 'l', 'v']);
    assert("mpg"@ =~= seq!['m', 'p', 'g']);
    assert("mpeg"@ =~= seq!['m', 'p', 'e', 'g']);
    assert(text::all_ascii(e));
    assert(text::small_letters(e) =~= e);
    assert(!e.contains('\\')) by {
        assert forall|i: int| 0 <= i < e.len() implies e[i] != '\\' by {
            assert('a' <= e[i] <= 'z' || '0' <= e[i] <= '9');
        }
    }
}

/// Whether an extension is that of a video.
fn is_video_extension(e: &str) -> (b: bool)
    ensures
        b == video_letters(e@),
{
    let small = text::to_lowercase(e);
    let s = small.as_str();
    proof {
        reveal_strlit("mp4");
        reveal_strlit("mkv");
        reveal_strlit("avi");
        reveal_strlit("mov");
        reveal_strlit("wmv");
        reveal_strlit("flv");
        reveal_strlit("mpg");
        reveal_strlit("mpeg");
    }
    text::same_text(s, "mp4") || text::same_text(s, "mkv") || text::same_text(s, "avi")
        || text::same_text(s, "mov") || text::same_text(s, "wmv") || text::same_text(s, "flv")
        || text::same_text(s, "mpg") || text::same_text(s, "mpeg")
}

/// Whether a file name has the extension of a video.
pub fn is_video_name(name: &Option<String>) -> (b: bool)
    ensures
        b == video_name(log::text_of(*name)),
{
    match name {
        Some(n) => match split_name(n.as_str()).1 {
            Some(e) => is_video_extension(e.as_str()),
            None => false,
        },
        None => false,
    }
}

/// Whether a path leads to something behind its server and its share.
pub open spec fn behind_share(path: Seq<char>) -> bool {
    reading::on_share(path) && reading::share_end(path) <= reading::last_sep(path, true)
}

/// Whether a path ends in a file name with the extension `e`, under both readings.
pub open spec fn has_extension(path: Seq<char>, e: Seq<char>) -> bool {
    let n = reading::file_part(path, true);
    &&& reading::regular(n)
    &&& extension(n) == Some(e)
    &&& reading::two_seps(path) ==> {
        ||| behind_share(path)
        ||| reading::on_literal_drive(path) && !path.contains('/')
    }
    &&& reading::on_drive(path) && reading::last_sep(path, true) < 0 ==> {
        &&& reading::regular(path.skip(2))
        &&& extension(path.skip(2)) is Some
    }
}

/// Whether a path ends in a file name without a dot, under both readings.
pub open spec fn has_no_extension(path: Seq<char>) -> bool {
    let n = reading::file_part(path, true);
    &&& n.len() > 0
    &&& !n.contains('.')
    &&& reading::literal(path) ==> !path.contains('/')
}

/// Whether a path ends in the extension of a video, under both readings.
pub open spec fn surely_video(path: Seq<char>) -> bool {
    exists|e: Seq<char>| #[trigger] has_extension(path, e) && video_letters(e)
}

/// Whether a path ends in another extension, or in none, under both readings.
pub open spec fn surely_no_video(path: Seq<char>) -> bool {
    ||| has_no_extension(path)
    ||| exists|e: Seq<char>| #[trigger] has_extension(path, e) && !video_letters(e)
}

/// The last place of `c` is the one behind which there is no `c`.
proof fn lemma_last_index_is(s: Seq<char>, c: char, i: int)
    requires
        0 <= i < s.len(),
        s[i] == c,
        forall|j: int| i < j < s.len() ==> s[j] != c,
    ensures
        last_index(s, c) == i,
{
    lemma_last_index(s, c);
}

/// What is put before a name that has an extension does not change the extension.
proof fn lemma_extension_of_longer(s: Seq<char>, n: Seq<char>)
    requires
        reading::ends_with(s, n),
        extension(n) is Some,
    ensures
        extension(s) == extension(n),
{
    let more = s.len() - n.len();
    lemma_last_index(n, '.');
    let dot = last_index(n, '.');
    assert(forall|i: int| 0 <= i < n.len() ==> #[trigger] n[i] == s[more + i]);
    assert forall|j: int| more + dot < j < s.len() implies s[j] != '.' by {
        assert(n[j - more] == s[j]);
    }
    lemma_last_index_is(s, '.', more + dot);
    assert(s.skip(more + dot + 1) =~= n.skip(dot + 1));
}

/// Behind its drive or share a path ends as it does with it.
pub proof fn lemma_behind_prefix(path: Seq<char>)
    requires
        reading::prefix_len(path, true) <= reading::last_sep(path, true),
    ensures
        reading::file_part(reading::rest(path, true), true) == reading::file_part(path, true),
{
    let n = reading::prefix_len(path, true);
    let p = reading::rest(path, true);
    reading::lemma_prefix(path, true);
    reading::lemma_last_sep(path, true);
    reading::lemma_last_sep(p, true);
    let k = reading::last_sep(path, true);
    assert(p[k - n] == path[k]);
    assert(forall|i: int| 0 <= i < p.len() ==> #[trigger] p[i] == path[i + n]);
    if reading::last_sep(p, true) > k - n {
        assert(reading::is_sep(path[reading::last_sep(p, true) + n], true));
    }
    assert(reading::file_part(p, true) =~= reading::file_part(path, true));
}

/// A path without a separator behind its drive is its own last component there.
pub proof fn lemma_drive_alone(path: Seq<char>)
    requires
        reading::on_drive(path),
        reading::last_sep(path, true) < 0,
    ensures
        reading::file_part(path.skip(2), true) == path.skip(2),
        reading::file_part(path, true) == path,
        reading::file_part(path, false) == path,
{
    let p = path.skip(2);
    reading::lemma_last_sep(path, true);
    reading::lemma_last_sep(path, false);
    reading::lemma_last_sep(p, true);
    assert(forall|i: int| 0 <= i < p.len() ==> #[trigger] p[i] == path[i + 2]);
    if reading::last_sep(p, true) >= 0 {
        assert(reading::is_sep(path[reading::last_sep(p, true) + 2], true));
    }
    assert(p.skip(0) =~= p);
    assert(path.skip(0) =~= path);
}

/// What the file name of a path can be, where the path ends in a name.
pub proof fn lemma_names(path: Seq<char>, name: Option<Seq<char>>)
    requires
        reading::is_file_name(path, name),
        reading::regular(reading::file_part(path, true)),
        reading::literal(path) ==> !path.contains('/'),
    ensures
        ({
            ||| name == Some(reading::file_part(path, false)) && reading::name_in(path, false, name)
            ||| name == Some(reading::file_part(path, true)) && reading::name_in(path, true, name)
            ||| name is None && reading::two_seps(path) && !behind_share(path)
                && !reading::on_literal_drive(path)
            ||| reading::on_drive(path) && reading::last_sep(path, true) < 0 && name
                == reading::name_of(path.skip(2), true)
        }),
{
    reading::lemma_name_of(path, false);
    reading::lemma_name_of(path, true);
    reading::lemma_prefix(path, true);
    reading::lemma_last_sep(path, true);
    assert(path.skip(0) =~= path);
    if !reading::name_in(path, false, name) && reading::clear(path, true) {
        if reading::prefix_len(path, true) <= reading::last_sep(path, true) {
            lemma_behind_prefix(path);
            reading::lemma_name_of(reading::rest(path, true), true);
        } else if reading::on_share(path) {
            assert(reading::rest(path, true).len() == 0);
            assert(reading::bare(reading::rest(path, true), true).len() == 0);
            assert(name is None);
        }
    }
}

/// The extension of a path that ends in one is the same under both readings.
pub proof fn lemma_extension_is_settled(path: Seq<char>, e: Seq<char>, name: Option<Seq<char>>)
    requires
        has_extension(path, e),
        reading::is_file_name(path, name),
    ensures
        name matches Some(n) && extension(n) == Some(e),
        !e.contains('\\'),
{
    let n = reading::file_part(path, true);
    lemma_names(path, name);
    reading::lemma_file_parts(path);
    reading::lemma_last_sep(path, true);
    lemma_last_index(n, '.');
    lemma_extension_of_longer(reading::file_part(path, false), n);
    assert forall|i: int| 0 <= i < e.len() implies e[i] != '\\' by {
        assert(e[i] == n[last_index(n, '.') + 1 + i]);
        assert(e[i] == path[reading::last_sep(path, true) + 1 + last_index(n, '.') + 1 + i]);
    }
    if reading::on_drive(path) && reading::last_sep(path, true) < 0 {
        let p = path.skip(2);
        lemma_drive_alone(path);
        reading::lemma_name_of(p, true);
        assert(path.skip(path.len() - p.len()) =~= p);
        lemma_extension_of_longer(path, p);
    }
}

/// A path that ends in a name without a dot is no video under either reading.
pub proof fn lemma_no_extension_is_settled(path: Seq<char>, name: Option<Seq<char>>)
    requires
        has_no_extension(path),
        reading::is_file_name(path, name),
    ensures
        !video_name(name),
{
    let n = reading::file_part(path, true);
    let t = reading::file_part(path, false);
    assert(n != seq!['.'] && n != seq!['.', '.']) by {
        assert(seq!['.'][0] == '.' && seq!['.', '.'][0] == '.');
    }
    lemma_names(path, name);
    reading::lemma_file_parts(path);
    reading::lemma_last_sep(path, true);
    lemma_last_index(n, '.');
    lemma_last_index(t, '.');
    let more = t.len() - n.len();
    assert(forall|i: int| 0 <= i < n.len() ==> #[trigger] n[i] == t[more + i]);
    if last_index(t, '.') > 0 {
        let dot = last_index(t, '.');
        if dot >= more {
            assert(n[dot - more] == '.');
        }
        let e = t.skip(dot + 1);
        reading::lemma_last_sep(path, false);
        let k = reading::last_sep(path, true) - reading::last_sep(path, false) - 1;
        assert(more == k + 1);
        assert(t[k] == path[reading::last_sep(path, true)]);
        assert(!reading::is_sep(path[reading::last_sep(path, true)], false));
        assert(e[k - dot - 1] == '\\');
        assert(e.contains('\\'));
    }
    if reading::on_drive(path) && reading::last_sep(path, true) < 0 {
        let p = path.skip(2);
        lemma_drive_alone(path);
        if let Some(m) = reading::name_of(p, true) {
            reading::lemma_bare(p, true);
            let b = reading::bare(p, true);
            reading::lemma_last_sep(b, true);
            lemma_last_index(m, '.');
            if last_index(m, '.') > 0 {
                let at = reading::last_sep(b, true) + 1 + last_index(m, '.');
                assert(b[at] == '.');
                assert(p[at] == '.');
                assert(n[at + 2] == '.');
            }
        }
    }
}

/// What is sure of a path holds whatever its file name turns out to be.
pub proof fn lemma_sure(path: Seq<char>, name: Option<Seq<char>>)
    requires
        reading::is_file_name(path, name),
    ensures
        surely_video(path) ==> video_name(name),
        surely_no_video(path) ==> !video_name(name),
{
    assert forall|e: Seq<char>| #[trigger] has_extension(path, e) implies video_name(name)
        == video_letters(e) by {
        lemma_extension_is_settled(path, e, name);
    }
    if has_no_extension(path) {
        lemma_no_extension_is_settled(path, name);
    }
}

/// Whether the file name of `path` has the extension of a video. What the file name is depends
/// on the platform; the answer does not where the path ends in the same extension, or in none,
/// under both readings.
pub fn is_video_file(path: &str) -> (b: bool)
    ensures
        exists|name: Option<Seq<char>>| #[trigger] reading::is_file_name(path@, name) && b == video_name(name),
        surely_video(path@) ==> b,
        surely_no_video(path@) ==> !b,
{
    let name = reading::file_name(path);
    let b = is_video_name(&name);
    proof {
        assert(reading::is_file_name(path@, log::text_of(name)));
        lemma_sure(path@, log::text_of(name));
    }
    b
}

/// Whether a path is a video depends on its extension alone: two paths whose extensions are the
/// same in small letters are judged alike, whatever their folders and stems, on every platform
/// and each time.
pub proof fn law_extension_decides(
    p: Seq<char>,
    d: Seq<char>,
    p_name: Option<Seq<char>>,
    q: Seq<char>,
    e: Seq<char>,
    q_name: Option<Seq<char>>,
)
    requires
        has_extension(p, d),
        reading::is_file_name(p, p_name),
        has_extension(q, e),
        reading::is_file_name(q, q_name),
        text::small_letters(d) == text::small_letters(e),
    ensures
        video_name(p_name) == video_name(q_name),
{
    lemma_extension_is_settled(p, d, p_name);
    lemma_extension_is_settled(q, e, q_name);
}

} // verus!
