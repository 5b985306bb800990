//! How a path falls apart, which depends on the platform.
//!
//! A slash separates the components of a path everywhere, a backslash only on Windows. What is
//! stated of the calls into `std::path` is therefore that one of the two readings holds. Which
//! one it is can be told from what the first call gives back wherever the two differ; what
//! follows then keeps to the same reading.

use vstd::prelude::*;

use crate::log;
use crate::text;

verus! {

// ---------------------------------------------------------------------------
// The two readings
// ---------------------------------------------------------------------------

/// Whether `c` separates the components of a path, on Windows or elsewhere.
pub open spec fn is_sep(c: char, windows: bool) -> bool {
    c == '/' || (windows && c == '\\')
}

/// The place of the last separator of a path; minus one if there is none.
pub open spec fn last_sep(s: Seq<char>, windows: bool) -> int
    decreases s.len(),
{
    if s.len() == 0 {
        -1
    } else if is_sep(s.last(), windows) {
        s.len() - 1
    } else {
        last_sep(s.drop_last(), windows)
    }
}

/// The place of the first separator of a Windows path at or behind `from`; the length of the path
/// if there is none.
pub open spec fn next_sep(s: Seq<char>, from: int) -> int
    decreases s.len() - from,
{
    if from >= s.len() {
        s.len() as int
    } else if is_sep(s[from], true) {
        from
    } else {
        next_sep(s, from + 1)
    }
}

/// What follows the last separator of a path.
pub open spec fn file_part(path: Seq<char>, windows: bool) -> Seq<char> {
    path.skip(last_sep(path, windows) + 1)
}

/// Whether a component is a name, and neither the current directory nor the one above.
pub open spec fn regular(n: Seq<char>) -> bool {
    n.len() > 0 && n != seq!['.'] && n != seq!['.', '.']
}

/// A path without the separators, and the dots behind a separator, that it ends with.
pub open spec fn bare(path: Seq<char>, windows: bool) -> Seq<char>
    decreases path.len(),
{
    if path.len() > 0 && is_sep(path.last(), windows) {
        bare(path.drop_last(), windows)
    } else if path.len() >= 2 && path.last() == '.' && is_sep(path[path.len() - 2], windows) {
        bare(path.take(path.len() - 2), windows)
    } else {
        path
    }
}

/// The last component of a path that has no prefix, if it is a name.
pub open spec fn name_of(path: Seq<char>, windows: bool) -> Option<Seq<char>> {
    let n = file_part(bare(path, windows), windows);
    if regular(n) {
        Some(n)
    } else {
        None
    }
}

/// What precedes the last component of a path that has no prefix: the separators and dots at its
/// end go, but a root stays.
pub open spec fn folder_of(path: Seq<char>, windows: bool) -> Seq<char> {
    let b = bare(path, windows);
    let front = b.take(last_sep(b, windows) + 1);
    if front.len() > 0 && bare(front, windows).len() == 0 {
        front.take(1)
    } else {
        bare(front, windows)
    }
}

/// Whether a path begins with a drive letter and a colon.
pub open spec fn on_drive(path: Seq<char>) -> bool {
    path.len() >= 2 && path[1] == ':' && ('a' <= path[0] <= 'z' || 'A' <= path[0] <= 'Z')
}

/// Whether a path begins with two separators, as that of a share or a device does on Windows.
pub open spec fn two_seps(path: Seq<char>) -> bool {
    path.len() >= 2 && is_sep(path[0], true) && is_sep(path[1], true)
}

/// Whether a path may be one that Windows takes literally, such as `\\?\C:\v`.
pub open spec fn literal(path: Seq<char>) -> bool {
    two_seps(path) && path.len() > 2 && path[2] == '?'
}

/// Where the server of a share ends.
pub open spec fn server_end(path: Seq<char>) -> int {
    next_sep(path, 2)
}

/// Where a share ends: `\\server\share`.
pub open spec fn share_end(path: Seq<char>) -> int {
    next_sep(path, server_end(path) + 1)
}

/// Whether a path begins with a server and a share.
pub open spec fn on_share(path: Seq<char>) -> bool {
    &&& two_seps(path)
    &&& !literal(path)
    &&& 2 < server_end(path)
    &&& server_end(path) + 1 < share_end(path)
}

/// Whether a path begins with a drive that is taken literally, and something behind it.
pub open spec fn on_literal_drive(path: Seq<char>) -> bool {
    literal(path) && path.len() > 7 && path[3] == '\\' && on_drive(path.skip(4)) && path[6] == '\\'
}

/// How much of a path is a drive or a share, and so no component of it.
pub open spec fn prefix_len(path: Seq<char>, windows: bool) -> int {
    if !windows {
        0
    } else if on_drive(path) {
        2
    } else if on_share(path) {
        share_end(path)
    } else {
        0
    }
}

/// A path behind its drive or its share.
pub open spec fn rest(path: Seq<char>, windows: bool) -> Seq<char> {
    path.skip(prefix_len(path, windows))
}

/// Whether it is stated how a path falls apart, under one reading. It is not of a Windows path
/// that begins with two separators but with no share.
pub open spec fn clear(path: Seq<char>, windows: bool) -> bool {
    windows && two_seps(path) ==> on_share(path)
}

/// The file name of a path, under one reading.
pub open spec fn file_name_of(path: Seq<char>, windows: bool) -> Option<Seq<char>> {
    name_of(rest(path, windows), windows)
}

/// The parent of a path, under one reading. A root, a prefix and an empty path have none.
pub open spec fn parent_of(path: Seq<char>, windows: bool) -> Option<Seq<char>> {
    let r = rest(path, windows);
    if bare(r, windows).len() == 0 {
        None
    } else {
        Some(path.take(prefix_len(path, windows)) + folder_of(r, windows))
    }
}

pub open spec fn ends_with(s: Seq<char>, end: Seq<char>) -> bool {
    end.len() <= s.len() && s.skip(s.len() - end.len()) == end
}

/// A name that is one component of a path under both readings.
pub open spec fn plain_name(n: Seq<char>) -> bool {
    regular(n) && last_sep(n, true) < 0 && !on_drive(n)
}

/// What is known of the file name of a path, under one reading. Of a path that is not clear it
/// is the last component, or none; of a literal one not even that, where it holds a slash or
/// ends in no name.
pub open spec fn name_in(path: Seq<char>, windows: bool, name: Option<Seq<char>>) -> bool {
    if clear(path, windows) {
        name == file_name_of(path, windows)
    } else {
        ||| name == name_of(path, true)
        ||| name is None && !on_literal_drive(path)
        ||| literal(path) && (path.contains('/') || !regular(file_part(path, true)))
    }
}

/// What is known of the file name of a path: one of the two readings.
pub open spec fn is_file_name(path: Seq<char>, name: Option<Seq<char>>) -> bool {
    name_in(path, false, name) || name_in(path, true, name)
}

/// What is known of the parent of a path, under one reading.
pub open spec fn parent_in(path: Seq<char>, windows: bool, parent: Option<Seq<char>>) -> bool {
    &&& clear(path, windows) ==> parent == parent_of(path, windows)
    &&& parent matches Some(p) ==> p.len() <= path.len() && p == path.take(p.len() as int)
}

/// What is known of the parent of a path: one of the two readings.
pub open spec fn is_parent(path: Seq<char>, parent: Option<Seq<char>>) -> bool {
    parent_in(path, false, parent) || parent_in(path, true, parent)
}

/// `name` put behind `dir`, after a separator where one is needed.
pub open spec fn appended(dir: Seq<char>, windows: bool, name: Seq<char>) -> Seq<char> {
    if dir.len() == 0 || is_sep(dir.last(), windows) || (windows && dir.len() == 2 && on_drive(dir)) {
        dir + name
    } else if windows {
        dir.push('\\') + name
    } else {
        dir.push('/') + name
    }
}

/// What is known of a path put behind a directory, under one reading. A path that begins at a
/// drive or a share of its own takes the place of the directory, one that begins at a root the
/// place of all but its drive or share. Of a literal directory, or one that is not clear, it
/// is only known what the result ends with.
pub open spec fn joined_in(
    dir: Seq<char>,
    windows: bool,
    name: Seq<char>,
    path: Seq<char>,
) -> bool {
    if name.len() == 0 {
        true
    } else if !windows {
        path == (if name[0] == '/' {
            name
        } else {
            appended(dir, false, name)
        })
    } else if literal(dir) {
        plain_name(name) ==> ends_with(path, name)
    } else if on_drive(name) || on_share(name) {
        path == name
    } else if is_sep(name[0], true) {
        if two_seps(name) || !clear(dir, true) {
            ends_with(path, name)
        } else {
            path == dir.take(prefix_len(dir, true)) + name
        }
    } else {
        path == appended(dir, true, name)
    }
}

/// What is known of a path put behind a directory: one of the two readings.
pub open spec fn is_joined(dir: Seq<char>, name: Seq<char>, path: Seq<char>) -> bool {
    joined_in(dir, false, name, path) || joined_in(dir, true, name, path)
}

/// What a new file name is put behind: the parent of a path that has a file name, else all of the
/// path.
pub open spec fn base_of(path: Seq<char>, windows: bool) -> Seq<char> {
    match (file_name_of(path, windows), parent_of(path, windows)) {
        (Some(_), Some(p)) => p,
        _ => path,
    }
}

/// What is known of a path whose file name is replaced, under one reading: the new name is put
/// behind the parent, as a join does it. Of a path that is not clear it is only known what the
/// result ends with, and not even that of a literal one.
pub open spec fn renamed_in(
    path: Seq<char>,
    windows: bool,
    name: Seq<char>,
    renamed: Seq<char>,
) -> bool {
    if clear(path, windows) {
        joined_in(base_of(path, windows), windows, name, renamed)
    } else {
        name.len() > 0 && !literal(path) ==> ends_with(renamed, name)
    }
}

/// What is known of a path whose file name is replaced: one of the two readings.
pub open spec fn is_renamed(path: Seq<char>, name: Seq<char>, renamed: Seq<char>) -> bool {
    renamed_in(path, false, name, renamed) || renamed_in(path, true, name, renamed)
}

/// Calls `Path::file_name`. The result is the last component of the path, where this is a name,
/// without the separators and the dots that follow it; on Windows backslashes separate too, and
/// a drive or a share is no component. Which of the two readings it is depends on the platform.
/// Of Windows paths that begin with two separators but with no share less is stated: the result
/// is the last component or none, and of literal ones (those with a question mark behind the
/// separators) nothing where they hold a slash or end in no name.
#[verifier::external_body]
pub(crate) fn file_name(path: &str) -> (name: Option<String>)
    ensures
        is_file_name(path@, log::text_of(name)),
{
    std::path::Path::new(path).file_name().map(|n| n.to_string_lossy().into_owned())
}

/// Calls `Path::parent`. The result is what precedes the last component of the path, without the
/// separators and the dots at its end, but with its drive, its share and its root; a path that
/// is no more than these has none. It is read as on Windows or as elsewhere, which depends on
/// the platform. Of Windows paths that begin with two separators but with no share it is only
/// stated that they begin with the result.
#[verifier::external_body]
pub(crate) fn parent(path: &str) -> (dir: Option<String>)
    ensures
        is_parent(path@, log::text_of(dir)),
{
    std::path::Path::new(path).parent().map(|p| p.to_string_lossy().into_owned())
}

/// Calls `Path::join`. The name is put behind the directory, after the platform's separator where
/// one is needed; a name that begins at a drive or a share takes its place instead, and one
/// that begins at a root the place of all but its drive or share. Backslashes, drives and
/// shares count on Windows only. There, of literal directories it is only stated that a plain
/// name is what the result ends with, and of names that begin with two separators but with no
/// share, and of directories that do so, that the result ends with the name.
#[verifier::external_body]
pub(crate) fn join_path(dir: &str, name: &str) -> (path: String)
    ensures
        is_joined(dir@, name@, path@),
{
    std::path::Path::new(dir).join(name).to_string_lossy().into_owned()
}

/// Calls `Path::with_file_name`. The new name is put behind the parent of the path, or behind the
/// path itself where it has no file name, as a join does it. Of Windows paths that begin with
/// two separators but with no share it is only stated that the result ends with the name, and
/// of literal ones nothing.
#[verifier::external_body]
pub(crate) fn with_file_name(path: &str, name: &str) -> (renamed: String)
    ensures
        is_renamed(path@, name@, renamed@),
{
    std::path::Path::new(path).with_file_name(name).to_string_lossy().into_owned()
}

// ---------------------------------------------------------------------------
// Facts on separators
// ---------------------------------------------------------------------------

pub proof fn lemma_last_sep(s: Seq<char>, windows: bool)
    ensures
        -1 <= last_sep(s, windows) < s.len(),
        last_sep(s, windows) >= 0 ==> is_sep(s[last_sep(s, windows)], windows),
        forall|i: int| last_sep(s, windows) < i < s.len() ==> !is_sep(s[i], windows),
    decreases s.len(),
{
    if s.len() > 0 && !is_sep(s.last(), windows) {
        let front = s.drop_last();
        lemma_last_sep(front, windows);
        assert forall|i: int| last_sep(s, windows) < i < s.len() implies !is_sep(s[i], windows) by {
            if i < front.len() {
                assert(front[i] == s[i]);
            }
        }
    }
}

pub proof fn lemma_next_sep(s: Seq<char>, from: int)
    requires
        0 <= from,
    ensures
        from <= s.len() ==> from <= next_sep(s, from),
        next_sep(s, from) <= s.len(),
        next_sep(s, from) < s.len() ==> is_sep(s[next_sep(s, from)], true),
        forall|i: int| from <= i < next_sep(s, from) ==> !is_sep(s[i], true),
    decreases s.len() - from,
{
    if from < s.len() && !is_sep(s[from], true) {
        lemma_next_sep(s, from + 1);
    }
}

/// A drive or a share is a part of the path that it begins, and a share ends at a separator or
/// at the end of the path.
pub proof fn lemma_prefix(path: Seq<char>, windows: bool)
    ensures
        0 <= prefix_len(path, windows) <= path.len(),
        windows && on_share(path) && share_end(path) < path.len() ==> is_sep(
            path[share_end(path)],
            true,
        ),
        on_drive(path) ==> !two_seps(path),
{
    lemma_next_sep(path, 2);
    if server_end(path) >= 0 {
        lemma_next_sep(path, server_end(path) + 1);
    }
}

pub proof fn lemma_bare(path: Seq<char>, windows: bool)
    ensures
        bare(path, windows).len() <= path.len(),
        bare(path, windows) == path.take(bare(path, windows).len() as int),
    decreases path.len(),
{
    if path.len() > 0 && is_sep(path.last(), windows) {
        let p = path.drop_last();
        lemma_bare(p, windows);
        assert(p.take(bare(p, windows).len() as int) =~= path.take(bare(p, windows).len() as int));
    } else if path.len() >= 2 && path.last() == '.' && is_sep(path[path.len() - 2], windows) {
        let p = path.take(path.len() - 2);
        lemma_bare(p, windows);
        assert(p.take(bare(p, windows).len() as int) =~= path.take(bare(p, windows).len() as int));
    } else {
        assert(path.take(path.len() as int) =~= path);
    }
}

/// The parent of a path is a part of it that it begins with.
pub proof fn lemma_parent_of(path: Seq<char>, windows: bool)
    ensures
        parent_of(path, windows) matches Some(p) ==> p.len() <= path.len() && p == path.take(
            p.len() as int,
        ),
{
    let r = rest(path, windows);
    let n = prefix_len(path, windows);
    lemma_prefix(path, windows);
    lemma_bare(r, windows);
    let b = bare(r, windows);
    lemma_last_sep(b, windows);
    let front = b.take(last_sep(b, windows) + 1);
    lemma_bare(front, windows);
    let f = folder_of(r, windows);
    assert(f.len() <= front.len());
    assert forall|i: int| 0 <= i < f.len() implies f[i] == path[n + i] by {
        assert(front[i] == b[i]);
        assert(b[i] == r[i]);
        assert(f[i] == front[i]);
    }
    assert(path.take(n) + f =~= path.take(n + f.len()));
}

pub proof fn lemma_sum_ends_with(s: Seq<char>, t: Seq<char>)
    ensures
        ends_with(s + t, t),
        ends_with(t, t),
{
    assert((s + t).skip(s.len() as int) =~= t);
    assert(t.skip(0) =~= t);
}

/// What is put behind a directory is what the result ends with.
pub proof fn lemma_joined_ends(dir: Seq<char>, windows: bool, name: Seq<char>, path: Seq<char>)
    requires
        joined_in(dir, windows, name, path),
        name.len() > 0,
        !literal(dir),
    ensures
        ends_with(path, name),
{
    lemma_sum_ends_with(dir, name);
    lemma_sum_ends_with(dir.push('\\'), name);
    lemma_sum_ends_with(dir.push('/'), name);
    lemma_prefix(dir, true);
    lemma_sum_ends_with(dir.take(prefix_len(dir, true)), name);
}

/// What begins a path that is not literal is not literal either.
pub proof fn lemma_beginning_not_literal(path: Seq<char>, p: Seq<char>)
    requires
        p.len() <= path.len(),
        p == path.take(p.len() as int),
        literal(p),
    ensures
        literal(path),
{
    assert(p[0] == path[0] && p[1] == path[1] && p[2] == path[2]);
}

/// What a new file name is put behind begins the path.
pub proof fn lemma_base(path: Seq<char>, windows: bool)
    ensures
        base_of(path, windows).len() <= path.len(),
        base_of(path, windows) == path.take(base_of(path, windows).len() as int),
{
    lemma_parent_of(path, windows);
    assert(path.take(path.len() as int) =~= path);
}

/// A path that ends in a name is bare, and its last component is its file part.
pub proof fn lemma_name_of(path: Seq<char>, windows: bool)
    requires
        regular(file_part(path, true)),
    ensures
        name_of(path, windows) == Some(file_part(path, windows)),
        bare(path, windows) == path,
{
    lemma_file_parts(path);
    lemma_last_sep(path, true);
    let n = file_part(path, true);
    let t = file_part(path, false);
    assert(n.last() == path.last());
    assert(!is_sep(path.last(), windows));
    if path.len() >= 2 && path.last() == '.' && is_sep(path[path.len() - 2], windows) {
        assert(last_sep(path, true) == path.len() - 2);
        assert(n =~= seq!['.']);
    }
    assert(bare(path, windows) == path);
    if t == seq!['.'] {
        assert(n =~= t);
    }
    if t == seq!['.', '.'] {
        assert(n.len() == 1 ==> n =~= seq!['.']);
        assert(n.len() == 2 ==> n =~= t);
    }
}

/// The two file parts of a path: what a backslash does not cut off is at least as long.
pub proof fn lemma_file_parts(path: Seq<char>)
    ensures
        last_sep(path, false) <= last_sep(path, true),
        ends_with(file_part(path, false), file_part(path, true)),
        ends_with(path, file_part(path, false)),
        ends_with(path, file_part(path, true)),
{
    lemma_last_sep(path, false);
    lemma_last_sep(path, true);
    let n = file_part(path, true);
    let t = file_part(path, false);
    assert(t.skip(t.len() - n.len()) =~= n);
    assert(path.skip(path.len() - n.len()) =~= n);
    assert(path.skip(path.len() - t.len()) =~= t);
}

// ---------------------------------------------------------------------------
// Reading a path in one of the two ways
// ---------------------------------------------------------------------------

fn sep(c: char, windows: bool) -> (b: bool)
    ensures
        b == is_sep(c, windows),
{
    c == '/' || (windows && c == '\\')
}

/// The place behind the last separator of `chars[from..to]`, or `from`.
fn after_last_sep(chars: &Vec<char>, from: usize, to: usize, windows: bool) -> (at: usize)
    requires
        from <= to <= chars@.len(),
    ensures
        from <= at <= to,
        at - from == last_sep(chars@.subrange(from as int, to as int), windows) + 1,
{
    let mut at: usize = to;
    while at > from && !sep(chars[at - 1], windows)
        invariant
            from <= at <= to <= chars@.len(),
            last_sep(chars@.subrange(from as int, to as int), windows) == last_sep(
                chars@.subrange(from as int, at as int),
                windows,
            ),
        decreases at,
    {
        let ghost s = chars@.subrange(from as int, at as int);
        assert(s.last() == chars@[at - 1]);
        assert(s.drop_last() =~= chars@.subrange(from as int, at - 1));
        at -= 1;
    }
    assert(at > from ==> chars@.subrange(from as int, at as int).last() == chars@[at - 1]);
    at
}

/// The place of the first separator at or behind `from`, or the end.
fn find_sep(chars: &Vec<char>, from: usize) -> (at: usize)
    ensures
        at == next_sep(chars@, from as int),
{
    if from >= chars.len() {
        return chars.len();
    }
    let mut at: usize = from;
    while at < chars.len() && !sep(chars[at], true)
        invariant
            at <= chars@.len(),
            next_sep(chars@, from as int) == next_sep(chars@, at as int),
        decreases chars@.len() - at,
    {
        at += 1;
    }
    at
}

/// Where `chars[from..to]` ends once it is bare.
fn bare_end(chars: &Vec<char>, from: usize, to: usize, windows: bool) -> (end: usize)
    requires
        from <= to <= chars@.len(),
    ensures
        from <= end <= to,
        bare(chars@.subrange(from as int, to as int), windows) == chars@.subrange(
            from as int,
            end as int,
        ),
{
    let mut end: usize = to;
    loop
        invariant
            from <= end <= to <= chars@.len(),
            bare(chars@.subrange(from as int, to as int), windows) == bare(
                chars@.subrange(from as int, end as int),
                windows,
            ),
        decreases end,
    {
        let ghost s = chars@.subrange(from as int, end as int);
        if end > from && sep(chars[end - 1], windows) {
            assert(s.last() == chars@[end - 1]);
            assert(s.drop_last() =~= chars@.subrange(from as int, end - 1));
            end -= 1;
        } else if end - from >= 2 && chars[end - 1] == '.' && sep(chars[end - 2], windows) {
            assert(s.last() == chars@[end - 1]);
            assert(s[s.len() - 2] == chars@[end - 2]);
            assert(s.take(s.len() - 2) =~= chars@.subrange(from as int, end - 2));
            end -= 2;
        } else {
            assert(end > from ==> s.last() == chars@[end - 1]);
            assert(end - from >= 2 ==> s[s.len() - 2] == chars@[end - 2]);
            return end;
        }
    }
}

fn begins_on_drive(chars: &Vec<char>) -> (b: bool)
    ensures
        b == on_drive(chars@),
{
    chars.len() >= 2 && chars[1] == ':' && (('a' <= chars[0] && chars[0] <= 'z') || ('A' <= chars[0]
        && chars[0] <= 'Z'))
}

fn begins_with_two_seps(chars: &Vec<char>) -> (b: bool)
    ensures
        b == two_seps(chars@),
{
    chars.len() >= 2 && sep(chars[0], true) && sep(chars[1], true)
}

fn begins_literally(chars: &Vec<char>) -> (b: bool)
    ensures
        b == literal(chars@),
{
    begins_with_two_seps(chars) && chars.len() > 2 && chars[2] == '?'
}

/// Where the share ends that a path begins with.
fn find_share(chars: &Vec<char>) -> (end: Option<usize>)
    ensures
        match end {
            Some(e) => on_share(chars@) && e == share_end(chars@),
            None => !on_share(chars@),
        },
{
    if !begins_with_two_seps(chars) || begins_literally(chars) {
        return None;
    }
    let server = find_sep(chars, 2);
    proof {
        lemma_next_sep(chars@, 2);
    }
    if server >= chars.len() {
        return None;
    }
    let end = find_sep(chars, server + 1);
    if 2 < server && server + 1 < end {
        Some(end)
    } else {
        None
    }
}

/// How much of a path is a drive or a share.
fn prefix_end(chars: &Vec<char>, windows: bool) -> (n: usize)
    ensures
        n == prefix_len(chars@, windows),
        n <= chars@.len(),
{
    proof {
        lemma_prefix(chars@, windows);
    }
    if !windows {
        0
    } else if begins_on_drive(chars) {
        2
    } else {
        match find_share(chars) {
            Some(end) => end,
            None => 0,
        }
    }
}

/// Whether it is stated how a Windows path falls apart.
fn is_clear(chars: &Vec<char>) -> (b: bool)
    ensures
        b == clear(chars@, true),
{
    !begins_with_two_seps(chars) || find_share(chars).is_some()
}

/// The file name of a path, under one reading.
fn read_name(path: &str, windows: bool) -> (name: Option<String>)
    ensures
        log::text_of(name) == file_name_of(path@, windows),
{
    let chars = text::chars_of(path);
    let from = prefix_end(&chars, windows);
    let end = bare_end(&chars, from, chars.len(), windows);
    let at = after_last_sep(&chars, from, end, windows);
    let ghost r = rest(path@, windows);
    let ghost b = chars@.subrange(from as int, end as int);
    assert(chars@.subrange(from as int, chars@.len() as int) =~= r);
    let name = text::string_of(&chars, at, end);
    assert(name@ =~= file_part(b, windows));
    let size: usize = end - at;
    if size == 0 || (size == 1 && chars[at] == '.') || (size == 2 && chars[at] == '.' && chars[at
        + 1] == '.') {
        proof {
            if size == 1 {
                assert(name@ =~= seq!['.']);
            } else if size == 2 {
                assert(name@ =~= seq!['.', '.']);
            }
        }
        return None;
    }
    proof {
        assert(size >= 1 ==> name@[0] == chars@[at as int]);
        assert(size >= 2 ==> name@[1] == chars@[at + 1]);
        assert(seq!['.'][0] == '.');
        assert(seq!['.', '.'][0] == '.' && seq!['.', '.'][1] == '.');
    }
    Some(name)
}

/// The parent of a path, under one reading.
fn read_parent(path: &str, windows: bool) -> (parent: Option<String>)
    ensures
        log::text_of(parent) == parent_of(path@, windows),
{
    let chars = text::chars_of(path);
    let from = prefix_end(&chars, windows);
    let end = bare_end(&chars, from, chars.len(), windows);
    let ghost r = rest(path@, windows);
    let ghost b = chars@.subrange(from as int, end as int);
    assert(chars@.subrange(from as int, chars@.len() as int) =~= r);
    if end == from {
        return None;
    }
    let at = after_last_sep(&chars, from, end, windows);
    let ghost front = b.take(last_sep(b, windows) + 1);
    assert(chars@.subrange(from as int, at as int) =~= front);
    let kept = bare_end(&chars, from, at, windows);
    let to: usize = if kept == from && at > from {
        from + 1
    } else {
        kept
    };
    let parent = text::string_of(&chars, 0, to);
    assert(parent@ =~= path@.take(from as int) + folder_of(r, windows));
    Some(parent)
}

fn same_name(a: &Option<String>, b: &Option<String>) -> (same: bool)
    ensures
        same == (log::text_of(*a) == log::text_of(*b)),
{
    match (a, b) {
        (Some(x), Some(y)) => text::same_text(x.as_str(), y.as_str()),
        (None, None) => true,
        _ => false,
    }
}

/// `name` put behind `dir`, after a separator where one is needed.
fn append(dir: &str, windows: bool, name: &str) -> (path: String)
    ensures
        path@ == appended(dir@, windows, name@),
{
    let chars = text::chars_of(dir);
    let mut path = dir.to_owned();
    if chars.len() > 0 && !sep(chars[chars.len() - 1], windows) && !(windows && chars.len() == 2
        && begins_on_drive(&chars)) {
        path.push(
            if windows {
                '\\'
            } else {
                '/'
            },
        );
    }
    path.append(name);
    path
}

// ---------------------------------------------------------------------------
// Keeping to one reading
// ---------------------------------------------------------------------------

/// The readings that fit what is known of the platform; at least one does.
#[derive(Clone, Copy, Debug, PartialEq, Eq, Structural)]
pub struct Readings {
    pub elsewhere: bool,
    pub windows: bool,
}

impl Readings {
    pub open spec fn wf(self) -> bool {
        self.elsewhere || self.windows
    }

    /// Whether one of the readings is `windows`.
    pub open spec fn has(self, windows: bool) -> bool {
        if windows {
            self.windows
        } else {
            self.elsewhere
        }
    }
}

/// The readings under which a path has this file name.
pub(crate) fn readings(path: &str, name: &Option<String>) -> (r: Readings)
    requires
        is_file_name(path@, log::text_of(*name)),
    ensures
        r.wf(),
        forall|windows: bool| #[trigger] r.has(windows) ==> name_in(
            path@,
            windows,
            log::text_of(*name),
        ),
{
    let elsewhere = same_name(name, &read_name(path, false));
    let windows = !elsewhere || same_name(name, &read_name(path, true));
    proof {
        assert(path@.skip(0) =~= path@);
        if clear(path@, true) || !two_seps(path@) {
        } else {
            lemma_prefix(path@, true);
            assert(prefix_len(path@, true) == 0);
        }
    }
    Readings { elsewhere, windows }
}

/// The parent of a path, and the readings among `known` under which it is.
pub(crate) fn parent_by(path: &str, known: Readings) -> (p: (Option<String>, Readings))
    requires
        known.wf(),
    ensures
        p.1.wf(),
        forall|windows: bool| #[trigger] p.1.has(windows) ==> known.has(windows) && parent_in(
            path@,
            windows,
            log::text_of(p.0),
        ),
{
    proof {
        lemma_parent_of(path@, false);
        lemma_parent_of(path@, true);
    }
    if !known.windows {
        return (read_parent(path, false), known);
    }
    let clear = is_clear(&text::chars_of(path));
    if !known.elsewhere && clear {
        return (read_parent(path, true), known);
    }
    let p = parent(path);
    if !known.elsewhere {
        return (p, known);
    }
    let elsewhere = same_name(&p, &read_parent(path, false));
    let windows = !elsewhere || !clear || same_name(&p, &read_parent(path, true));
    (p, Readings { elsewhere, windows })
}

/// Puts `name` behind `dir`, under one of the readings that are `known`. Where both are, the
/// platform does it.
pub(crate) fn join_by(dir: &str, name: &str, known: Readings) -> (path: String)
    requires
        known.wf(),
        name@.len() > 0,
    ensures
        exists|windows: bool| #[trigger]
            known.has(windows) && joined_in(dir@, windows, name@, path@),
{
    let ghost windows: bool = known.windows;
    if known.windows && known.elsewhere {
        let path = join_path(dir, name);
        proof {
            if joined_in(dir@, false, name@, path@) {
                assert(known.has(false));
            } else {
                assert(known.has(true));
            }
        }
        return path;
    }
    assert(known.has(windows));
    let chars = text::chars_of(name);
    if !known.windows {
        return if chars[0] == '/' {
            name.to_owned()
        } else {
            append(dir, false, name)
        };
    }
    let folder = text::chars_of(dir);
    let own = begins_on_drive(&chars) || find_share(&chars).is_some();
    if begins_literally(&folder) {
        let path = join_path(dir, name);
        proof {
            if joined_in(dir@, false, name@, path@) && plain_name(name@) {
                lemma_last_sep(name@, true);
                lemma_sum_ends_with(dir@, name@);
                lemma_sum_ends_with(dir@.push('/'), name@);
            }
        }
        path
    } else if own {
        name.to_owned()
    } else if sep(chars[0], true) {
        if begins_with_two_seps(&chars) || !is_clear(&folder) {
            let path = join_path(dir, name);
            proof {
                if joined_in(dir@, false, name@, path@) {
                    lemma_joined_ends(dir@, false, name@, path@);
                }
            }
            path
        } else {
            let n = prefix_end(&folder, true);
            let mut path = text::string_of(&folder, 0, n);
            path.append(name);
            assert(path@ =~= dir@.take(n as int) + name@);
            path
        }
    } else {
        append(dir, true, name)
    }
}

/// Puts `name` in the place of the file name of a path, under one of the readings that are
/// `known`. Where both are, the platform does it.
pub(crate) fn rename_by(path: &str, name: &str, known: Readings) -> (renamed: String)
    requires
        known.wf(),
        name@.len() > 0,
    ensures
        exists|windows: bool| #[trigger]
            known.has(windows) && renamed_in(path@, windows, name@, renamed@),
{
    let both = known.windows && known.elsewhere;
    if both || (known.windows && !is_clear(&text::chars_of(path))) {
        let renamed = with_file_name(path, name);
        proof {
            if both && renamed_in(path@, false, name@, renamed@) {
                assert(known.has(false));
            } else {
                if renamed_in(path@, false, name@, renamed@) && !literal(path@) {
                    lemma_base(path@, false);
                    if literal(base_of(path@, false)) {
                        lemma_beginning_not_literal(path@, base_of(path@, false));
                    }
                    lemma_joined_ends(base_of(path@, false), false, name@, renamed@);
                }
                assert(known.has(true));
            }
        }
        return renamed;
    }
    let windows = known.windows;
    let base = match (read_name(path, windows), read_parent(path, windows)) {
        (Some(_), Some(p)) => p,
        _ => path.to_owned(),
    };
    let renamed = join_by(base.as_str(), name, known);
    proof {
        let w = choose|w: bool| #[trigger]
            known.has(w) && joined_in(base@, w, name@, renamed@);
        assert(w == windows);
        assert(renamed_in(path@, windows, name@, renamed@));
    }
    renamed
}

} // verus!
