//! Text, taken as a sequence of characters: white space, splitting, joining.

use vstd::prelude::*;

verus! {

/// `String::push` appends the given character to the end of the string.
pub assume_specification[ String::push ](s: &mut String, c: char)
    ensures
        final(s)@ == old(s)@.push(c),
;

/// What `str::to_lowercase` makes of a text.
pub uninterp spec fn lowercase(s: Seq<char>) -> Seq<char>;

/// An ASCII capital letter turned small; every other character as it is.
pub open spec fn ascii_small(c: char) -> char {
    if 'A' <= c <= 'Z' {
        (c as u32 + 32) as char
    } else {
        c
    }
}

pub open spec fn is_ascii_char(c: char) -> bool {
    c as u32 <= 127
}

pub open spec fn all_ascii(s: Seq<char>) -> bool {
    forall|i: int| 0 <= i < s.len() ==> is_ascii_char(#[trigger] s[i])
}

/// A text in small letters.
pub open spec fn small_letters(s: Seq<char>) -> Seq<char> {
    if all_ascii(s) {
        s.map_values(|c: char| ascii_small(c))
    } else {
        lowercase(s)
    }
}

/// Calls `str::to_lowercase`. The result is a function of the text alone; a text of ASCII
/// characters only has its capitals turned small and is otherwise unchanged. A backslash, which
/// has no case, stays.
#[verifier::external_body]
pub(crate) fn to_lowercase(s: &str) -> (small: String)
    ensures
        small@ == lowercase(s@),
        all_ascii(s@) ==> small@ == s@.map_values(|c: char| ascii_small(c)),
        s@.contains('\\') ==> small@.contains('\\'),
{
    s.to_lowercase()
}

/// The characters of `s`.
pub fn chars_of(s: &str) -> (chars: Vec<char>)
    ensures
        chars@ == s@,
{
    let mut chars: Vec<char> = Vec::new();
    for c in iter: s.chars()
        invariant
            chars@ == iter.seq().take(iter.index()),
    {
        chars.push(c);
    }
    chars
}

/// The string made of `chars[from..to]`.
pub fn string_of(chars: &Vec<char>, from: usize, to: usize) -> (s: String)
    requires
        from <= to <= chars@.len(),
    ensures
        s@ == chars@.subrange(from as int, to as int),
{
    let mut s = String::new();
    let mut i: usize = from;
    while i < to
        invariant
            from <= i <= to <= chars@.len(),
            s@ == chars@.subrange(from as int, i as int),
        decreases to - i,
    {
        s.push(chars[i]);
        i += 1;
    }
    s
}

/// Whether `a` and `b` hold the same characters.
pub fn same_text(a: &str, b: &str) -> (same: bool)
    ensures
        same == (a@ == b@),
{
    a.to_owned() == b.to_owned()
}

/// The views of a list of strings.
pub open spec fn texts(list: Seq<String>) -> Seq<Seq<char>> {
    list.map_values(|s: String| s@)
}

// ---------------------------------------------------------------------------
// White space
// ---------------------------------------------------------------------------

/// The characters with the Unicode property `White_Space`.
pub open spec fn is_white_space(c: char) -> bool {
    let code = c as u32;
    ||| 0x9 <= code <= 0xd
    ||| code == 0x20
    ||| code == 0x85
    ||| code == 0xa0
    ||| code == 0x1680
    ||| 0x2000 <= code <= 0x200a
    ||| code == 0x2028
    ||| code == 0x2029
    ||| code == 0x202f
    ||| code == 0x205f
    ||| code == 0x3000
}

fn white_space(c: char) -> (b: bool)
    ensures
        b == is_white_space(c),
{
    let code: u32 = c as u32;
    (0x9 <= code && code <= 0xd) || code == 0x20 || code == 0x85 || code == 0xa0 || code == 0x1680
        || (0x2000 <= code && code <= 0x200a) || code == 0x2028 || code == 0x2029 || code == 0x202f
        || code == 0x205f || code == 0x3000
}

/// `s` without the white space it begins with.
pub open spec fn trimmed_start(s: Seq<char>) -> Seq<char>
    decreases s.len(),
{
    if s.len() > 0 && is_white_space(s[0]) {
        trimmed_start(s.drop_first())
    } else {
        s
    }
}

/// `s` without the white space it ends with.
pub open spec fn trimmed_end(s: Seq<char>) -> Seq<char>
    decreases s.len(),
{
    if s.len() > 0 && is_white_space(s.last()) {
        trimmed_end(s.drop_last())
    } else {
        s
    }
}

/// `s` without the white space around it.
pub open spec fn trimmed(s: Seq<char>) -> Seq<char> {
    trimmed_end(trimmed_start(s))
}

/// `s` without the white space around it.
pub fn trim(s: &str) -> (t: String)
    ensures
        t@ == trimmed(s@),
{
    let chars = chars_of(s);
    let mut from: usize = 0;
    assert(chars@.skip(0) == chars@);
    while from < chars.len() && white_space(chars[from])
        invariant
            from <= chars@.len(),
            trimmed_start(chars@) == trimmed_start(chars@.skip(from as int)),
        decreases chars@.len() - from,
    {
        assert(chars@.skip(from as int).drop_first() == chars@.skip(from + 1));
        from += 1;
    }
    let mut to: usize = chars.len();
    let ghost kept = chars@.skip(from as int);
    assert(trimmed_start(chars@) == kept);
    assert(chars@.subrange(from as int, to as int) == kept);
    while from < to && white_space(chars[to - 1])
        invariant
            from <= to <= chars@.len(),
            trimmed_end(kept) == trimmed_end(chars@.subrange(from as int, to as int)),
        decreases to,
    {
        let ghost piece = chars@.subrange(from as int, to as int);
        assert(piece.last() == chars@[to - 1]);
        assert(piece.drop_last() == chars@.subrange(from as int, to - 1));
        to -= 1;
    }
    assert(from < to ==> chars@.subrange(from as int, to as int).last() == chars@[to - 1]);
    string_of(&chars, from, to)
}

/// `s` without the run of `c` that it ends with.
pub open spec fn without_trailing(s: Seq<char>, c: char) -> Seq<char>
    decreases s.len(),
{
    if s.len() > 0 && s.last() == c {
        without_trailing(s.drop_last(), c)
    } else {
        s
    }
}

/// `s` without the run of `c` that it ends with.
pub fn trim_trailing(s: &str, c: char) -> (t: String)
    ensures
        t@ == without_trailing(s@, c),
{
    let chars = chars_of(s);
    let mut to: usize = chars.len();
    assert(chars@.subrange(0, to as int) == chars@);
    while 0 < to && chars[to - 1] == c
        invariant
            to <= chars@.len(),
            without_trailing(s@, c) == without_trailing(chars@.subrange(0, to as int), c),
        decreases to,
    {
        assert(chars@.subrange(0, to as int).drop_last() == chars@.subrange(0, to - 1));
        to -= 1;
    }
    string_of(&chars, 0, to)
}

// ---------------------------------------------------------------------------
// Splitting and joining
// ---------------------------------------------------------------------------

/// `s` cut at every `a` and every `b`. The characters that cut belong to no part; there is
/// always one part more than there are such characters.
pub open spec fn split_either(s: Seq<char>, a: char, b: char) -> Seq<Seq<char>>
    decreases s.len(),
{
    if s.len() == 0 {
        seq![Seq::<char>::empty()]
    } else {
        let before = split_either(s.drop_last(), a, b);
        if s.last() == a || s.last() == b {
            before.push(Seq::<char>::empty())
        } else {
            before.drop_last().push(before.last().push(s.last()))
        }
    }
}

/// `s` cut at every `sep`.
pub open spec fn split(s: Seq<char>, sep: char) -> Seq<Seq<char>> {
    split_either(s, sep, sep)
}

/// The parts, with `sep` between each two neighbours.
pub open spec fn joined(parts: Seq<Seq<char>>, sep: char) -> Seq<char>
    decreases parts.len(),
{
    if parts.len() == 0 {
        Seq::<char>::empty()
    } else if parts.len() == 1 {
        parts[0]
    } else {
        joined(parts.drop_last(), sep).push(sep) + parts.last()
    }
}

/// There is always at least one part.
pub proof fn lemma_split_nonempty(s: Seq<char>, a: char, b: char)
    ensures
        split_either(s, a, b).len() >= 1,
    decreases s.len(),
{
    if s.len() > 0 {
        lemma_split_nonempty(s.drop_last(), a, b);
    }
}

/// No part holds a character that cuts.
pub proof fn lemma_split_parts_clean(s: Seq<char>, a: char, b: char)
    ensures
        forall|i: int|
            0 <= i < split_either(s, a, b).len() ==> !(#[trigger] split_either(
                s,
                a,
                b,
            )[i]).contains(a) && !split_either(s, a, b)[i].contains(b),
    decreases s.len(),
{
    if s.len() > 0 {
        lemma_split_nonempty(s.drop_last(), a, b);
        lemma_split_parts_clean(s.drop_last(), a, b);
        let before = split_either(s.drop_last(), a, b);
        let all = split_either(s, a, b);
        assert forall|i: int| 0 <= i < all.len() implies !(#[trigger] all[i]).contains(a)
            && !all[i].contains(b) by {
            if i < before.len() - 1 {
                assert(all[i] == before[i]);
            } else if !(s.last() == a || s.last() == b) {
                let grown = before.last().push(s.last());
                assert(all[i] == grown);
                assert(!before.last().contains(a) && !before.last().contains(b));
                assert(!grown.contains(a)) by {
                    if grown.contains(a) {
                        let k = choose|k: int| 0 <= k < grown.len() && grown[k] == a;
                        assert(before.last()[k] == a);
                    }
                }
                assert(!grown.contains(b)) by {
                    if grown.contains(b) {
                        let k = choose|k: int| 0 <= k < grown.len() && grown[k] == b;
                        assert(before.last()[k] == b);
                    }
                }
            } else if i == before.len() - 1 {
                assert(all[i] == before[i]);
            }
        }
    }
}

/// Cutting the concatenation of two texts: the last part of the first text grows by what the
/// second one begins with, every other part is a part of one of the two.
pub proof fn lemma_split_concat(s: Seq<char>, t: Seq<char>, a: char, b: char)
    ensures
        split_either(s + t, a, b) == {
            let p = split_either(s, a, b);
            let q = split_either(t, a, b);
            p.drop_last().push(p.last() + q[0]) + q.drop_first()
        },
    decreases t.len(),
{
    let p = split_either(s, a, b);
    lemma_split_nonempty(s, a, b);
    if t.len() == 0 {
        assert(s + t == s);
        let q = split_either(t, a, b);
        assert(p.last() + q[0] == p.last());
        assert(p.drop_last().push(p.last() + q[0]) + q.drop_first() =~= p);
    } else {
        let t0 = t.drop_last();
        lemma_split_concat(s, t0, a, b);
        lemma_split_nonempty(t0, a, b);
        assert((s + t).drop_last() == s + t0);
        let q0 = split_either(t0, a, b);
        let q = split_either(t, a, b);
        let r0 = p.drop_last().push(p.last() + q0[0]) + q0.drop_first();
        let r = p.drop_last().push(p.last() + q[0]) + q.drop_first();
        assert(split_either(s + t0, a, b) == r0);
        if t.last() == a || t.last() == b {
            assert(r0.push(Seq::<char>::empty()) =~= r);
        } else {
            if q0.len() == 1 {
                assert(r0.last() == p.last() + q0[0]);
                assert((p.last() + q0[0]).push(t.last()) =~= p.last() + q[0]);
            } else {
                assert(r0.last() == q0.last());
            }
            assert(r0.drop_last().push(r0.last().push(t.last())) =~= r);
        }
    }
}

/// A text without the characters that cut is its own only part.
pub proof fn lemma_split_clean(s: Seq<char>, a: char, b: char)
    requires
        !s.contains(a),
        !s.contains(b),
    ensures
        split_either(s, a, b) == seq![s],
    decreases s.len(),
{
    if s.len() > 0 {
        let front = s.drop_last();
        assert(forall|k: int| 0 <= k < front.len() ==> #[trigger] front[k] == s[k]);
        assert(!front.contains(a) && !front.contains(b));
        lemma_split_clean(front, a, b);
        assert(s.contains(s.last()));
        assert(front.push(s.last()) == s);
        assert(split_either(s, a, b) =~= seq![s]);
    } else {
        assert(s == Seq::<char>::empty());
    }
}

/// Splitting undoes joining: parts that do not hold the separator come back as they were.
pub proof fn law_split_undoes_join(parts: Seq<Seq<char>>, sep: char)
    requires
        parts.len() > 0,
        forall|i: int| 0 <= i < parts.len() ==> !(#[trigger] parts[i]).contains(sep),
    ensures
        split(joined(parts, sep), sep) == parts,
    decreases parts.len(),
{
    if parts.len() == 1 {
        assert(!parts[0].contains(sep));
        lemma_split_clean(parts[0], sep, sep);
        assert(parts =~= seq![parts[0]]);
    } else {
        let front = parts.drop_last();
        let last = parts.last();
        assert(forall|i: int| 0 <= i < front.len() ==> #[trigger] front[i] == parts[i]);
        law_split_undoes_join(front, sep);
        assert(!parts[parts.len() - 1].contains(sep));
        lemma_split_clean(last, sep, sep);
        let head = joined(front, sep).push(sep);
        assert(head.drop_last() == joined(front, sep));
        assert(split(head, sep) == front.push(Seq::<char>::empty()));
        lemma_split_concat(head, last, sep, sep);
        let p = split(head, sep);
        assert(p.drop_last() =~= front);
        assert(p.last() + last =~= last);
        assert(seq![last].drop_first() =~= Seq::<Seq<char>>::empty());
        assert(p.drop_last().push(p.last() + last) + seq![last].drop_first() =~= parts);
    }
}

/// Joining undoes splitting: the parts of a text with the separator between them are the text.
pub proof fn law_join_undoes_split(s: Seq<char>, sep: char)
    ensures
        joined(split(s, sep), sep) == s,
    decreases s.len(),
{
    if s.len() == 0 {
        assert(split(s, sep) =~= seq![Seq::<char>::empty()]);
        assert(s =~= Seq::<char>::empty());
    } else {
        let front = s.drop_last();
        law_join_undoes_split(front, sep);
        lemma_split_nonempty(front, sep, sep);
        let before = split(front, sep);
        let now = split(s, sep);
        if s.last() == sep {
            assert(now.drop_last() =~= before);
            assert(joined(now, sep) =~= joined(before, sep).push(sep));
        } else {
            assert(now.drop_last() =~= before.drop_last());
            assert(now.last() == before.last().push(s.last()));
            if before.len() == 1 {
                assert(joined(now, sep) =~= before[0].push(s.last()));
            } else {
                assert(joined(now, sep) =~= joined(before, sep).push(s.last()));
            }
        }
        assert(front.push(s.last()) =~= s);
    }
}

/// All of the parts, one behind the other.
pub open spec fn run_together(parts: Seq<Seq<char>>) -> Seq<char>
    decreases parts.len(),
{
    if parts.len() == 0 {
        Seq::<char>::empty()
    } else {
        run_together(parts.drop_last()) + parts.last()
    }
}

/// Splitting loses nothing but the characters that cut, and gives one part more than there are
/// such characters.
pub proof fn law_split_loses_only_cuts(s: Seq<char>, a: char, b: char)
    ensures
        run_together(split_either(s, a, b)) == s.filter(|c: char| c != a && c != b),
        split_either(s, a, b).len() == s.filter(|c: char| c == a || c == b).len() + 1,
    decreases s.len(),
{
    reveal(Seq::filter);
    let now = split_either(s, a, b);
    if s.len() == 0 {
        assert(now.drop_last() =~= Seq::<Seq<char>>::empty());
        assert(run_together(now.drop_last()) == Seq::<char>::empty());
        assert(run_together(now) =~= Seq::<char>::empty());
    } else {
        let front = s.drop_last();
        law_split_loses_only_cuts(front, a, b);
        lemma_split_nonempty(front, a, b);
        let before = split_either(front, a, b);
        if s.last() == a || s.last() == b {
            assert(now.drop_last() =~= before);
            assert(run_together(now) =~= run_together(before));
        } else {
            assert(now.drop_last() =~= before.drop_last());
            assert(run_together(now) =~= run_together(before).push(s.last()));
        }
    }
}

/// The first part that a text without the separator before it splits off is that text.
pub proof fn law_split_at_first(head: Seq<char>, sep: char, rest: Seq<char>)
    requires
        !head.contains(sep),
    ensures
        split(head.push(sep) + rest, sep) == seq![head] + split(rest, sep),
{
    lemma_split_clean(head, sep, sep);
    let h = head.push(sep);
    assert(h.drop_last() =~= head);
    assert(split(h, sep) =~= seq![head, Seq::<char>::empty()]);
    lemma_split_concat(h, rest, sep, sep);
    lemma_split_nonempty(rest, sep, sep);
    let q = split(rest, sep);
    let p = split(h, sep);
    assert(p.last() + q[0] =~= q[0]);
    assert(p.drop_last().push(p.last() + q[0]) + q.drop_first() =~= seq![head] + q);
}

/// Trimming takes away white space alone, from both ends, and all of it that is there.
pub proof fn law_trimmed(s: Seq<char>)
    ensures
        exists|a: Seq<char>, b: Seq<char>|
            s == #[trigger] (a + trimmed(s) + b) && all_white(a) && all_white(b),
        trimmed(s).len() > 0 ==> !is_white_space(trimmed(s)[0]) && !is_white_space(
            trimmed(s).last(),
        ),
        all_white(s) ==> trimmed(s).len() == 0,
        s.len() > 0 && !is_white_space(s[0]) && !is_white_space(s.last()) ==> trimmed(s) == s,
{
    let a = lemma_trimmed_start(s);
    let t = trimmed_start(s);
    let b = lemma_trimmed_end(t);
    let m = trimmed_end(t);
    assert(s =~= a + m + b);
    if m.len() > 0 {
        assert(m[0] == t[0]);
    }
    assert(s == a + trimmed(s) + b);
    if m.len() > 0 {
        assert(s[a.len() as int] == m[0]);
    }
    if s.len() > 0 && !is_white_space(s[0]) && !is_white_space(s.last()) {
        if a.len() > 0 {
            assert(s[0] == a[0]);
        }
        if b.len() > 0 {
            assert(s.last() == b[b.len() - 1]);
        }
        assert(m =~= s);
    }
}

pub open spec fn all_white(s: Seq<char>) -> bool {
    forall|i: int| 0 <= i < s.len() ==> is_white_space(#[trigger] s[i])
}

proof fn lemma_trimmed_start(s: Seq<char>) -> (a: Seq<char>)
    ensures
        s == a + trimmed_start(s),
        all_white(a),
        trimmed_start(s).len() > 0 ==> !is_white_space(trimmed_start(s)[0]),
    decreases s.len(),
{
    if s.len() > 0 && is_white_space(s[0]) {
        let b = lemma_trimmed_start(s.drop_first());
        let a = seq![s[0]] + b;
        let t = trimmed_start(s.drop_first());
        assert(s =~= seq![s[0]] + s.drop_first());
        assert(seq![s[0]] + (b + t) =~= a + t);
        assert forall|i: int| 0 <= i < a.len() implies is_white_space(#[trigger] a[i]) by {
            if i > 0 {
                assert(a[i] == b[i - 1]);
            }
        }
        a
    } else {
        assert(Seq::<char>::empty() + s =~= s);
        Seq::empty()
    }
}

proof fn lemma_trimmed_end(s: Seq<char>) -> (b: Seq<char>)
    ensures
        s == trimmed_end(s) + b,
        all_white(b),
        trimmed_end(s).len() > 0 ==> !is_white_space(trimmed_end(s).last()),
    decreases s.len(),
{
    if s.len() > 0 && is_white_space(s.last()) {
        let a = lemma_trimmed_end(s.drop_last());
        let b = a.push(s.last());
        let t = trimmed_end(s.drop_last());
        assert(s =~= s.drop_last().push(s.last()));
        assert((t + a).push(s.last()) =~= t + b);
        assert forall|i: int| 0 <= i < b.len() implies is_white_space(#[trigger] b[i]) by {
            if i < a.len() {
                assert(b[i] == a[i]);
            }
        }
        b
    } else {
        assert(s + Seq::<char>::empty() =~= s);
        Seq::empty()
    }
}

/// Every ASCII character that leaves a gap is white space, and no other one is: the space, the tab,
/// and the characters that end lines or pages.
pub proof fn law_ascii_white_space(c: char)
    requires
        is_ascii_char(c),
    ensures
        is_white_space(c) <==> (c == ' ' || c == '\t' || c == '\n' || c == '\r' || c as u32 == 11
            || c as u32 == 12),
{
}

/// Beyond ASCII, white space is the next line, the spaces of fixed width, and the separators of
/// lines and paragraphs.
pub proof fn law_other_white_space(c: char)
    requires
        !is_ascii_char(c),
    ensures
        is_white_space(c) <==> (c == '\u{85}' || c == '\u{a0}' || c == '\u{1680}' || '\u{2000}' <= c
            <= '\u{200a}' || c == '\u{2028}' || c == '\u{2029}' || c == '\u{202f}' || c == '\u{205f}'
            || c == '\u{3000}'),
{
}

/// What is taken off the end is a run of the one character, and all of it.
pub proof fn law_without_trailing(s: Seq<char>, c: char)
    ensures
        without_trailing(s, c).len() <= s.len(),
        without_trailing(s, c) == s.take(without_trailing(s, c).len() as int),
        forall|i: int| without_trailing(s, c).len() <= i < s.len() ==> s[i] == c,
        without_trailing(s, c).len() > 0 ==> without_trailing(s, c).last() != c,
    decreases s.len(),
{
    if s.len() > 0 && s.last() == c {
        let front = s.drop_last();
        law_without_trailing(front, c);
        let n = without_trailing(s, c).len() as int;
        assert(front.take(n) =~= s.take(n));
        assert forall|i: int| n <= i < s.len() implies s[i] == c by {
            if i < front.len() {
                assert(front[i] == s[i]);
            }
        }
    } else {
        assert(s.take(s.len() as int) =~= s);
    }
}

/// Each letter of the alphabet has its small letter, and everything else, small letters among it,
/// stays.
pub proof fn law_small_letters(c: char, i: int)
    requires
        0 <= i < 26,
    ensures
        c as u32 == 'A' as u32 + i ==> ascii_small(c) as u32 == 'a' as u32 + i,
        c as u32 == 'a' as u32 + i ==> ascii_small(c) == c,
        !('A' <= c <= 'Z') ==> ascii_small(c) == c,
        ascii_small(ascii_small(c)) == ascii_small(c),
{
}

/// `s` cut at every `a` and every `b`.
pub fn split_at_either(s: &str, a: char, b: char) -> (parts: Vec<String>)
    ensures
        texts(parts@) == split_either(s@, a, b),
{
    let chars = chars_of(s);
    let mut parts: Vec<String> = Vec::new();
    let mut part = String::new();
    let mut i: usize = 0;
    assert(chars@.take(0) == Seq::<char>::empty());
    assert(texts(parts@).push(part@) =~= split_either(chars@.take(0), a, b));
    while i < chars.len()
        invariant
            i <= chars@.len(),
            texts(parts@).push(part@) == split_either(chars@.take(i as int), a, b),
        decreases chars@.len() - i,
    {
        let c = chars[i];
        let ghost before = texts(parts@).push(part@);
        assert(chars@.take(i + 1).drop_last() == chars@.take(i as int));
        assert(before.drop_last() =~= texts(parts@));
        if c == a || c == b {
            parts.push(part);
            part = String::new();
            assert(texts(parts@) =~= before);
        } else {
            part.push(c);
        }
        i += 1;
    }
    let ghost all = texts(parts@).push(part@);
    parts.push(part);
    assert(texts(parts@) =~= all);
    assert(chars@.take(i as int) == s@);
    parts
}

/// `s` cut at every `sep`.
pub fn split_at(s: &str, sep: char) -> (parts: Vec<String>)
    ensures
        texts(parts@) == split(s@, sep),
{
    split_at_either(s, sep, sep)
}

/// The parts, with `sep` between each two neighbours.
pub fn join(parts: &Vec<String>, sep: char) -> (s: String)
    ensures
        s@ == joined(texts(parts@), sep),
{
    let mut s = String::new();
    let mut i: usize = 0;
    while i < parts.len()
        invariant
            i <= parts@.len(),
            s@ == joined(texts(parts@).take(i as int), sep),
        decreases parts@.len() - i,
    {
        let ghost next = texts(parts@).take(i + 1);
        assert(next.drop_last() =~= texts(parts@).take(i as int));
        assert(next.last() == parts@[i as int]@);
        if i > 0 {
            s.push(sep);
        }
        s.append(parts[i].as_str());
        assert(i == 0 ==> s@ =~= parts@[0]@);
        i += 1;
    }
    assert(texts(parts@).take(i as int) =~= texts(parts@));
    s
}

} // verus!
