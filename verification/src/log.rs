//! FFmpeg's log: bytes as they arrive, cut into lines, and searched for what they report.

use vstd::prelude::*;

use crate::text;

verus! {

/// What `String::from_utf8_lossy` makes of some bytes.
pub uninterp spec fn utf8_lossy(bytes: Seq<u8>) -> Seq<char>;

/// Calls `String::from_utf8_lossy`. The text is a function of the bytes alone; bytes that are
/// valid UTF-8 give the text that they encode.
#[verifier::external_body]
pub(crate) fn from_utf8_lossy(bytes: &[u8]) -> (s: String)
    ensures
        s@ == utf8_lossy(bytes@),
        vstd::utf8::valid_utf8(bytes@) ==> s@ == vstd::utf8::decode_utf8(bytes@),
{
    String::from_utf8_lossy(bytes).into_owned()
}

/// The text of some bytes: what they encode where they are valid UTF-8, else what is made of them
/// with replacement characters.
pub open spec fn bytes_text(bytes: Seq<u8>) -> Seq<char> {
    if vstd::utf8::valid_utf8(bytes) {
        vstd::utf8::decode_utf8(bytes)
    } else {
        utf8_lossy(bytes)
    }
}

/// The text of two pieces that are valid UTF-8 each is the text of the first and then that of
/// the second.
pub proof fn lemma_bytes_text_concat(a: Seq<u8>, b: Seq<u8>)
    requires
        vstd::utf8::valid_utf8(a),
        vstd::utf8::valid_utf8(b),
    ensures
        bytes_text(a + b) == bytes_text(a) + bytes_text(b),
    decreases a.len(),
{
    vstd::utf8::valid_utf8_concat(a, b);
    if a.len() == 0 {
        assert(a + b =~= b);
        assert(bytes_text(a) =~= Seq::<char>::empty());
        assert(bytes_text(a) + bytes_text(b) =~= bytes_text(b));
    } else {
        let rest = vstd::utf8::pop_first_scalar(a);
        lemma_bytes_text_concat(rest, b);
        vstd::utf8::valid_utf8_concat(rest, b);
        assert(vstd::utf8::pop_first_scalar(a + b) =~= rest + b);
        assert(bytes_text(a + b) =~= bytes_text(a) + bytes_text(b));
    }
}

/// The groups of the leftmost match of a pattern: the whole match, then each group in the order
/// of its opening bracket, `None` for a group that took no part. `None` on the outside: the
/// pattern does not match, or is not one.
pub uninterp spec fn regex_captures(pattern: Seq<char>, haystack: Seq<char>) -> Option<
    Seq<Option<Seq<char>>>,
>;

/// The view of an optional string.
pub open spec fn text_of(s: Option<String>) -> Option<Seq<char>> {
    match s {
        Some(t) => Some(t@),
        None => None,
    }
}

/// The views of the groups of a match.
pub open spec fn groups_of(found: Option<Vec<Option<String>>>) -> Option<Seq<Option<Seq<char>>>> {
    match found {
        Some(groups) => Some(groups@.map_values(|g: Option<String>| text_of(g))),
        None => None,
    }
}

/// Calls `regex::Regex::new` and `Regex::captures`, and copies out every group of the match. The
/// groups are a function of the pattern and the haystack alone. A pattern that `Regex::new`
/// rejects matches nothing.
#[verifier::external_body]
pub(crate) fn captures(pattern: &str, haystack: &str) -> (found: Option<Vec<Option<String>>>)
    ensures
        groups_of(found) == regex_captures(pattern@, haystack@),
{
    let groups = regex::Regex::new(pattern).ok()?.captures(haystack)?;
    Some(groups.iter().map(|g| g.map(|m| m.as_str().to_owned())).collect())
}

/// The text of group `i` of a match.
pub open spec fn group(found: Option<Seq<Option<Seq<char>>>>, i: int) -> Option<Seq<char>> {
    match found {
        Some(groups) if 0 <= i < groups.len() => groups[i],
        _ => None,
    }
}

/// The text of group `i` of a match.
pub fn group_text(found: &Option<Vec<Option<String>>>, i: usize) -> (s: Option<String>)
    ensures
        text_of(s) == group(groups_of(*found), i as int),
{
    match found {
        Some(groups) => {
            if i < groups.len() {
                groups[i].clone()
            } else {
                None
            }
        },
        None => None,
    }
}

/// The text of the first group where `pattern` matches `haystack`.
pub open spec fn first_group(pattern: Seq<char>, haystack: Seq<char>) -> Option<Seq<char>> {
    group(regex_captures(pattern, haystack), 1)
}

/// The text of the first group where `pattern` matches `haystack`.
pub fn find(pattern: &str, haystack: &str) -> (s: Option<String>)
    ensures
        text_of(s) == first_group(pattern@, haystack@),
{
    let found = captures(pattern, haystack);
    group_text(&found, 1)
}

/// Text that has arrived, cut into lines at every line feed and every carriage return. What
/// follows the last of them waits for its end.
#[derive(Debug)]
pub struct LineBuffer {
    waiting: String,
}

impl View for LineBuffer {
    type V = Seq<char>;

    closed spec fn view(&self) -> Seq<char> {
        self.waiting@
    }
}

/// The lines that are complete once `arrived` follows `waiting`.
pub open spec fn complete_lines(waiting: Seq<char>, arrived: Seq<char>) -> Seq<Seq<char>> {
    text::split_either(waiting + arrived, '\n', '\r').drop_last()
}

/// What waits for its end once `arrived` follows `waiting`.
pub open spec fn left_waiting(waiting: Seq<char>, arrived: Seq<char>) -> Seq<char> {
    text::split_either(waiting + arrived, '\n', '\r').last()
}

pub open spec fn is_one_line(s: Seq<char>) -> bool {
    !s.contains('\n') && !s.contains('\r')
}

/// Neither a complete line nor what waits holds a line end.
pub proof fn lemma_lines_are_lines(waiting: Seq<char>, arrived: Seq<char>)
    ensures
        is_one_line(left_waiting(waiting, arrived)),
        forall|i: int|
            0 <= i < complete_lines(waiting, arrived).len() ==> is_one_line(
                #[trigger] complete_lines(waiting, arrived)[i],
            ),
{
    let all = waiting + arrived;
    text::lemma_split_nonempty(all, '\n', '\r');
    text::lemma_split_parts_clean(all, '\n', '\r');
    let parts = text::split_either(all, '\n', '\r');
    assert(forall|i: int|
        0 <= i < complete_lines(waiting, arrived).len() ==> #[trigger] complete_lines(
            waiting,
            arrived,
        )[i] == parts[i]);
    assert(is_one_line(parts[parts.len() - 1]));
}

/// Lines lose nothing of the text but the line ends, and there are as many as there are of those.
pub proof fn law_lines_keep_the_text(waiting: Seq<char>, arrived: Seq<char>)
    ensures
        text::run_together(complete_lines(waiting, arrived)) + left_waiting(waiting, arrived) == (
        waiting + arrived).filter(|c: char| c != '\n' && c != '\r'),
        complete_lines(waiting, arrived).len() == (waiting + arrived).filter(
            |c: char| c == '\n' || c == '\r',
        ).len(),
{
    text::law_split_loses_only_cuts(waiting + arrived, '\n', '\r');
}

/// A line is complete once its end arrives, be it a line feed or a carriage return, and not
/// before.
pub proof fn law_line_end_completes(waiting: Seq<char>, rest: Seq<char>)
    requires
        is_one_line(waiting),
        is_one_line(rest),
    ensures
        complete_lines(waiting, rest) == Seq::<Seq<char>>::empty(),
        left_waiting(waiting, rest) == waiting + rest,
        complete_lines(waiting, rest.push('\n')) == seq![waiting + rest],
        left_waiting(waiting, rest.push('\n')) == Seq::<char>::empty(),
        complete_lines(waiting, rest.push('\r')) == seq![waiting + rest],
        left_waiting(waiting, rest.push('\r')) == Seq::<char>::empty(),
{
    let line = waiting + rest;
    assert forall|i: int| 0 <= i < line.len() implies line[i] != '\n' && line[i] != '\r' by {
        if i < waiting.len() {
            assert(line[i] == waiting[i]);
        } else {
            assert(line[i] == rest[i - waiting.len()]);
        }
    }
    text::lemma_split_clean(line, '\n', '\r');
    let fed = waiting + rest.push('\n');
    let returned = waiting + rest.push('\r');
    assert(fed.drop_last() =~= line);
    assert(returned.drop_last() =~= line);
    assert(text::split_either(fed, '\n', '\r') =~= seq![line, Seq::<char>::empty()]);
    assert(text::split_either(returned, '\n', '\r') =~= seq![line, Seq::<char>::empty()]);
    assert(complete_lines(waiting, rest) =~= Seq::<Seq<char>>::empty());
    assert(complete_lines(waiting, rest.push('\n')) =~= seq![line]);
    assert(complete_lines(waiting, rest.push('\r')) =~= seq![line]);
}

/// What is found is the group behind the whole match, if there is such a group and it took part.
pub proof fn law_first_group(pattern: Seq<char>, haystack: Seq<char>, found: Seq<char>)
    ensures
        first_group(pattern, haystack) == Some(found) <==> (regex_captures(
            pattern,
            haystack,
        ) matches Some(groups) && groups.len() >= 2 && groups[1] == Some(found)),
{
}

/// It does not matter in which pieces a text arrives: two pieces give the lines of the first,
/// then those of the second, and leave waiting what the whole would have left.
pub proof fn law_pieces_do_not_matter(waiting: Seq<char>, first: Seq<char>, second: Seq<char>)
    ensures
        complete_lines(waiting, first + second) == complete_lines(waiting, first)
            + complete_lines(left_waiting(waiting, first), second),
        left_waiting(waiting, first + second) == left_waiting(
            left_waiting(waiting, first),
            second,
        ),
{
    let head = waiting + first;
    let s = text::split_either(head, '\n', '\r');
    let q = text::split_either(second, '\n', '\r');
    let rest = s.last();
    text::lemma_split_nonempty(head, '\n', '\r');
    text::lemma_split_nonempty(second, '\n', '\r');
    lemma_lines_are_lines(waiting, first);
    text::lemma_split_clean(rest, '\n', '\r');
    text::lemma_split_concat(head, second, '\n', '\r');
    text::lemma_split_concat(rest, second, '\n', '\r');
    assert(waiting + (first + second) =~= head + second);
    let all = text::split_either(head + second, '\n', '\r');
    let tail = text::split_either(rest + second, '\n', '\r');
    assert(seq![rest].drop_last() =~= Seq::<Seq<char>>::empty());
    assert(tail =~= seq![rest + q[0]] + q.drop_first());
    assert(all =~= s.drop_last() + tail);
    assert(all.drop_last() =~= s.drop_last() + tail.drop_last());
}

impl LineBuffer {
    /// Nothing has arrived yet.
    pub fn new() -> (b: LineBuffer)
        ensures
            b@ == Seq::<char>::empty(),
    {
        LineBuffer { waiting: String::new() }
    }

    /// Takes in `arrived` and hands out the lines that are now complete.
    pub fn push_text(&mut self, arrived: &str) -> (lines: Vec<String>)
        ensures
            text::texts(lines@) == complete_lines(old(self)@, arrived@),
            final(self)@ == left_waiting(old(self)@, arrived@),
    {
        self.waiting.append(arrived);
        let mut parts = text::split_at_either(self.waiting.as_str(), '\n', '\r');
        let ghost all = text::texts(parts@);
        proof {
            text::lemma_split_nonempty(old(self)@ + arrived@, '\n', '\r');
            assert(all.len() == parts@.len());
        }
        match parts.pop() {
            Some(rest) => {
                assert(rest@ == all.last());
                self.waiting = rest;
            },
            None => {
                self.waiting = String::new();
            },
        }
        assert(text::texts(parts@) =~= all.drop_last());
        parts
    }

    /// Takes in some bytes as text, one piece at a time: bytes that are no UTF-8 become
    /// replacement characters.
    pub fn push_bytes(&mut self, arrived: &[u8]) -> (lines: Vec<String>)
        ensures
            text::texts(lines@) == complete_lines(old(self)@, bytes_text(arrived@)),
            final(self)@ == left_waiting(old(self)@, bytes_text(arrived@)),
    {
        let s = from_utf8_lossy(arrived);
        self.push_text(s.as_str())
    }
}

} // verus!
