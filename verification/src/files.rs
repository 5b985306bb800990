//! The list of files, and how files get into it.

use vstd::prelude::*;

use crate::decimal;
use crate::log;
use crate::paths;
use crate::reading;
use crate::text;

verus! {

/// Whether a code unit is the first half of a surrogate pair.
pub open spec fn is_high(u: u16) -> bool {
    0xd800 <= u <= 0xdbff
}

/// Whether a code unit is the second half of a surrogate pair.
pub open spec fn is_low(u: u16) -> bool {
    0xdc00 <= u <= 0xdfff
}

/// The text of some UTF-16 code units: two that form a surrogate pair give one character, one
/// that belongs to no pair the replacement character, any other the character that it stands
/// for.
pub open spec fn utf16_text(units: Seq<u16>) -> Seq<char>
    decreases units.len(),
{
    if units.len() == 0 {
        Seq::<char>::empty()
    } else if units.len() >= 2 && is_high(units[0]) && is_low(units[1]) {
        seq![(0x10000 + (units[0] - 0xd800) * 0x400 + (units[1] - 0xdc00)) as char] + utf16_text(
            units.skip(2),
        )
    } else if is_high(units[0]) || is_low(units[0]) {
        seq!['\u{fffd}'] + utf16_text(units.skip(1))
    } else {
        seq![units[0] as char] + utf16_text(units.skip(1))
    }
}

/// Calls `String::from_utf16_lossy`, which decodes UTF-16 and puts a replacement character for
/// each code unit that is half of no surrogate pair.
#[verifier::external_body]
pub(crate) fn from_utf16_lossy(units: &[u16]) -> (s: String)
    ensures
        s@ == utf16_text(units@),
{
    String::from_utf16_lossy(units)
}

/// The names of dropped files, as the system gives them, one after the other. A name of no
/// length is left out.
pub open spec fn dropped_names(names: Seq<Vec<u16>>) -> Seq<Seq<char>>
    decreases names.len(),
{
    if names.len() == 0 {
        Seq::<Seq<char>>::empty()
    } else if names.last()@.len() == 0 {
        dropped_names(names.drop_last())
    } else {
        dropped_names(names.drop_last()).push(utf16_text(names.last()@))
    }
}

/// Names that are dropped keep their order, and a name of no length gives nothing.
pub proof fn law_dropped_names_in_order(a: Seq<Vec<u16>>, b: Seq<Vec<u16>>, name: Vec<u16>)
    ensures
        dropped_names(a + b) == dropped_names(a) + dropped_names(b),
        name@.len() > 0 ==> dropped_names(seq![name]) == seq![utf16_text(name@)],
        name@.len() == 0 ==> dropped_names(seq![name]) == Seq::<Seq<char>>::empty(),
    decreases b.len(),
{
    if b.len() == 0 {
        assert(a + b =~= a);
        assert(dropped_names(a) + dropped_names(b) =~= dropped_names(a));
    } else {
        law_dropped_names_in_order(a, b.drop_last(), name);
        assert((a + b).drop_last() =~= a + b.drop_last());
        assert(dropped_names(a + b) =~= dropped_names(a) + dropped_names(b));
    }
    let one = seq![name];
    assert(one.last() == name);
    assert(one.drop_last() =~= Seq::<Vec<u16>>::empty());
    assert(dropped_names(one.drop_last()) =~= Seq::<Seq<char>>::empty());
    if name@.len() > 0 {
        assert(dropped_names(one) =~= seq![utf16_text(name@)]);
    }
}

/// The names of dropped files in one text, with a bar between each two.
pub fn join_dropped(names: &Vec<Vec<u16>>) -> (s: Option<String>)
    ensures
        match s {
            Some(t) => dropped_names(names@).len() > 0 && t@ == text::joined(
                dropped_names(names@),
                '|',
            ),
            None => dropped_names(names@).len() == 0,
        },
{
    let mut list: Vec<String> = Vec::new();
    let mut i: usize = 0;
    assert(names@.take(0) =~= Seq::<Vec<u16>>::empty());
    assert(text::texts(list@) =~= dropped_names(names@.take(0)));
    while i < names.len()
        invariant
            i <= names@.len(),
            text::texts(list@) == dropped_names(names@.take(i as int)),
        decreases names@.len() - i,
    {
        let ghost seen = names@.take(i + 1);
        assert(seen.drop_last() =~= names@.take(i as int));
        assert(seen.last() == names@[i as int]);
        if names[i].len() > 0 {
            let ghost before = text::texts(list@);
            list.push(from_utf16_lossy(names[i].as_slice()));
            assert(text::texts(list@) =~= before.push(utf16_text(names@[i as int]@)));
        }
        i += 1;
    }
    assert(names@.take(i as int) =~= names@);
    if list.len() == 0 {
        None
    } else {
        Some(text::join(&list, '|'))
    }
}

/// The names in a text with a bar between each two.
pub fn split_dropped(names: &str) -> (list: Vec<String>)
    ensures
        text::texts(list@) == text::split(names@, '|'),
{
    text::split_at(names, '|')
}

/// What is dropped arrives: names without a bar come out of the text as they went in.
pub proof fn law_dropped_names_arrive(names: Seq<Vec<u16>>)
    requires
        dropped_names(names).len() > 0,
        forall|i: int|
            0 <= i < dropped_names(names).len() ==> !(#[trigger] dropped_names(names)[i]).contains(
                '|',
            ),
    ensures
        text::split(text::joined(dropped_names(names), '|'), '|') == dropped_names(names),
{
    text::law_split_undoes_join(dropped_names(names), '|');
}

/// Something that was dropped: a file, or a directory with what it holds.
#[derive(Debug)]
pub struct DropItem {
    pub path: String,
    /// What a directory holds; `None` for what is no directory.
    pub entries: Option<Vec<String>>,
}

/// The files that something dropped stands for.
pub open spec fn item_files(item: DropItem) -> Seq<Seq<char>> {
    match item.entries {
        Some(e) => text::texts(e@),
        None => seq![item.path@],
    }
}

/// The files that all that was dropped stands for, in its order.
pub open spec fn all_files(items: Seq<DropItem>) -> Seq<Seq<char>>
    decreases items.len(),
{
    if items.len() == 0 {
        Seq::<Seq<char>>::empty()
    } else {
        all_files(items.drop_last()) + item_files(items.last())
    }
}

/// What is dropped keeps its order: a file stands for itself, a directory for what it holds.
pub proof fn law_dropped_files_in_order(a: Seq<DropItem>, b: Seq<DropItem>, item: DropItem)
    ensures
        all_files(a + b) == all_files(a) + all_files(b),
        item.entries is None ==> all_files(seq![item]) == seq![item.path@],
        item.entries matches Some(e) ==> all_files(seq![item]) == text::texts(e@),
    decreases b.len(),
{
    if b.len() == 0 {
        assert(a + b =~= a);
        assert(all_files(a) + all_files(b) =~= all_files(a));
    } else {
        law_dropped_files_in_order(a, b.drop_last(), item);
        assert((a + b).drop_last() =~= a + b.drop_last());
        assert(all_files(a + b) =~= all_files(a) + all_files(b));
    }
    let one = seq![item];
    assert(one.last() == item);
    assert(one.drop_last() =~= Seq::<DropItem>::empty());
    assert(all_files(one.drop_last()) =~= Seq::<Seq<char>>::empty());
    assert(all_files(one) =~= item_files(item));
}

/// Appends copies of `more`.
fn append_copies(list: &mut Vec<String>, more: &Vec<String>)
    ensures
        text::texts(final(list)@) == text::texts(old(list)@) + text::texts(more@),
{
    let mut i: usize = 0;
    assert(text::texts(list@) =~= text::texts(old(list)@) + text::texts(more@).take(0));
    while i < more.len()
        invariant
            i <= more@.len(),
            text::texts(list@) == text::texts(old(list)@) + text::texts(more@).take(i as int),
        decreases more@.len() - i,
    {
        let ghost before = text::texts(list@);
        list.push(more[i].clone());
        assert(text::texts(list@) =~= before.push(more@[i as int]@));
        assert(text::texts(more@).take(i + 1) =~= text::texts(more@).take(i as int).push(
            more@[i as int]@,
        ));
        i += 1;
    }
    assert(text::texts(more@).take(i as int) =~= text::texts(more@));
}

/// The files that all that was dropped stands for, in its order.
pub fn dropped_files(items: &Vec<DropItem>) -> (files: Vec<String>)
    ensures
        text::texts(files@) == all_files(items@),
{
    let mut files: Vec<String> = Vec::new();
    let mut i: usize = 0;
    assert(items@.take(0) =~= Seq::<DropItem>::empty());
    assert(text::texts(files@) =~= all_files(items@.take(0)));
    while i < items.len()
        invariant
            i <= items@.len(),
            text::texts(files@) == all_files(items@.take(i as int)),
        decreases items@.len() - i,
    {
        let ghost seen = items@.take(i + 1);
        assert(seen.drop_last() =~= items@.take(i as int));
        assert(seen.last() == items@[i as int]);
        let ghost before = text::texts(files@);
        match &items[i].entries {
            Some(e) => append_copies(&mut files, e),
            None => {
                files.push(items[i].path.clone());
                assert(text::texts(files@) =~= before + seq![items@[i as int].path@]);
            },
        }
        i += 1;
    }
    assert(items@.take(i as int) =~= items@);
    files
}

/// Whether `video` may be what is found out of `path`: what its file name is depends on the
/// platform.
pub open spec fn judged(path: Seq<char>, video: bool) -> bool {
    exists|name: Option<Seq<char>>| #[trigger]
        reading::is_file_name(path, name) && video == paths::video_name(name)
}

/// Which of the files are videos.
pub open spec fn all_judged(files: Seq<Seq<char>>, videos: Seq<bool>) -> bool {
    &&& videos.len() == files.len()
    &&& forall|i: int| 0 <= i < files.len() ==> judged(#[trigger] files[i], videos[i])
}

/// The files that are marked, in their order.
pub open spec fn marked(files: Seq<Seq<char>>, marks: Seq<bool>) -> Seq<Seq<char>>
    decreases files.len(),
{
    if files.len() == 0 {
        Seq::<Seq<char>>::empty()
    } else if marks[files.len() - 1] {
        marked(files.drop_last(), marks).push(files.last())
    } else {
        marked(files.drop_last(), marks)
    }
}

/// Files that are marked keep their order: those of the first part come before those of the
/// second; a file that is marked is there once, one that is not is not there.
pub proof fn law_marked_in_order(
    a: Seq<Seq<char>>,
    m: Seq<bool>,
    b: Seq<Seq<char>>,
    n: Seq<bool>,
    file: Seq<char>,
)
    requires
        a.len() == m.len(),
        b.len() == n.len(),
    ensures
        marked(a + b, m + n) == marked(a, m) + marked(b, n),
        marked(seq![file], seq![true]) == seq![file],
        marked(seq![file], seq![false]) == Seq::<Seq<char>>::empty(),
    decreases b.len(),
{
    if b.len() == 0 {
        assert(a + b =~= a);
        assert(m + n =~= m);
        assert(marked(a, m) + marked(b, n) =~= marked(a, m));
    } else {
        let front = b.drop_last();
        law_marked_in_order(a, m, front, n.drop_last(), file);
        assert((a + b).drop_last() =~= a + front);
        lemma_marked_prefix(a + front, m + n, m + n.drop_last());
        lemma_marked_prefix(front, n, n.drop_last());
        assert((m + n)[(a + b).len() - 1] == n[b.len() - 1]);
        assert(marked(a + b, m + n) =~= marked(a, m) + marked(b, n));
    }
    let one = seq![file];
    assert(one.last() == file);
    assert(one.drop_last() =~= Seq::<Seq<char>>::empty());
    assert(marked(one.drop_last(), seq![true]) =~= Seq::<Seq<char>>::empty());
    assert(marked(one.drop_last(), seq![false]) =~= Seq::<Seq<char>>::empty());
    assert(marked(one, seq![true]) =~= one);
}

/// Which of the files are videos.
pub fn judge(files: &Vec<String>) -> (videos: Vec<bool>)
    ensures
        all_judged(text::texts(files@), videos@),
{
    let mut videos: Vec<bool> = Vec::new();
    let mut i: usize = 0;
    while i < files.len()
        invariant
            i <= files@.len(),
            videos@.len() == i,
            forall|j: int| 0 <= j < i ==> judged((#[trigger] files@[j])@, videos@[j]),
        decreases files@.len() - i,
    {
        let v = paths::is_video_file(files[i].as_str());
        videos.push(v);
        i += 1;
    }
    assert forall|j: int| 0 <= j < text::texts(files@).len() implies judged(
        #[trigger] text::texts(files@)[j],
        videos@[j],
    ) by {
        assert(judged(files@[j]@, videos@[j]));
    }
    videos
}

/// Adds the files that are marked to the end of the list. Says how many they are.
pub fn add_marked(list: &mut Vec<String>, files: &Vec<String>, marks: &Vec<bool>) -> (added: usize)
    requires
        files@.len() == marks@.len(),
    ensures
        text::texts(final(list)@) == text::texts(old(list)@) + marked(
            text::texts(files@),
            marks@,
        ),
        added == marked(text::texts(files@), marks@).len(),
{
    let mut added: usize = 0;
    let mut i: usize = 0;
    let ghost all = text::texts(files@);
    assert(all.take(0) =~= Seq::<Seq<char>>::empty());
    assert(text::texts(list@) =~= text::texts(old(list)@) + marked(all.take(0), marks@));
    while i < files.len()
        invariant
            i <= files@.len(),
            files@.len() == marks@.len(),
            all == text::texts(files@),
            added <= i,
            added == marked(all.take(i as int), marks@).len(),
            text::texts(list@) == text::texts(old(list)@) + marked(all.take(i as int), marks@),
        decreases files@.len() - i,
    {
        let ghost seen = all.take(i + 1);
        assert(seen.drop_last() =~= all.take(i as int));
        assert(seen.last() == files@[i as int]@);
        if marks[i] {
            let ghost before = text::texts(list@);
            list.push(files[i].clone());
            added += 1;
            assert(text::texts(list@) =~= before.push(files@[i as int]@));
            assert(text::texts(list@) =~= text::texts(old(list)@) + marked(seen, marks@));
        }
        i += 1;
    }
    assert(all.take(i as int) =~= all);
    added
}

/// What the user is told, and where the first new file stands in the list.
#[derive(Debug)]
pub struct Added {
    pub first: Option<usize>,
    pub status: String,
}

/// `{n}{rest}`
pub open spec fn count_line(n: int, rest: Seq<char>) -> Seq<char> {
    decimal::decimal(n as nat) + rest
}

fn count_text(n: usize, rest: &str) -> (s: String)
    ensures
        s@ == count_line(n as int, rest@),
{
    let mut s = String::new();
    decimal::push_decimal(&mut s, n as u64);
    s.append(rest);
    assert(s@ =~= count_line(n as int, rest@));
    s
}

/// Whether the list has grown by the videos among `files`, and `added` says so.
pub open spec fn grown(
    before: Seq<Seq<char>>,
    files: Seq<Seq<char>>,
    after: Seq<Seq<char>>,
    added: Added,
    rest: Seq<char>,
) -> bool {
    exists|videos: Seq<bool>| #[trigger]
        all_judged(files, videos) && after == before + marked(files, videos) && added.status@
            == count_line(marked(files, videos).len() as int, rest) && added.first == (if marked(
            files,
            videos,
        ).len() > 0 {
            Some(before.len() as usize)
        } else {
            None
        })
}

/// A list grows at its end alone. The user is told by how many files, and the first of them is
/// the one behind those that were there.
pub proof fn law_list_grows_at_its_end(
    before: Seq<Seq<char>>,
    files: Seq<Seq<char>>,
    after: Seq<Seq<char>>,
    added: Added,
    rest: Seq<char>,
)
    requires
        grown(before, files, after, added, rest),
        before.len() <= usize::MAX,
    ensures
        before.len() <= after.len() <= before.len() + files.len(),
        after.take(before.len() as int) == before,
        forall|i: int| before.len() <= i < after.len() ==> files.contains(#[trigger] after[i]),
        added.first matches Some(i) ==> i == before.len() && i < after.len(),
        added.first is None <==> after.len() == before.len(),
        added.status@ == decimal::decimal((after.len() - before.len()) as nat) + rest,
{
    let videos = choose|videos: Seq<bool>| #[trigger]
        all_judged(files, videos) && after == before + marked(files, videos) && added.status@
            == count_line(marked(files, videos).len() as int, rest) && added.first == (if marked(
            files,
            videos,
        ).len() > 0 {
            Some(before.len() as usize)
        } else {
            None
        });
    lemma_marked_are_files(files, videos);
    let more = marked(files, videos);
    assert(after.take(before.len() as int) =~= before);
    assert forall|i: int| before.len() <= i < after.len() implies files.contains(
        #[trigger] after[i],
    ) by {
        assert(after[i] == more[i - before.len()]);
    }
}

proof fn lemma_marked_are_files(files: Seq<Seq<char>>, marks: Seq<bool>)
    ensures
        marked(files, marks).len() <= files.len(),
        forall|i: int|
            0 <= i < marked(files, marks).len() ==> files.contains(#[trigger] marked(files, marks)[i]),
    decreases files.len(),
{
    if files.len() > 0 {
        let front = files.drop_last();
        lemma_marked_are_files(front, marks);
        let now = marked(files, marks);
        assert forall|i: int| 0 <= i < now.len() implies files.contains(#[trigger] now[i]) by {
            if i < marked(front, marks).len() {
                assert(front.contains(marked(front, marks)[i]));
                let k = choose|k: int| 0 <= k < front.len() && front[k] == now[i];
                assert(files[k] == now[i]);
            } else {
                assert(files[files.len() - 1] == now[i]);
            }
        }
    }
}

/// Adds the videos among `files`.
fn add_videos(list: &mut Vec<String>, files: &Vec<String>, rest: &str) -> (added: Added)
    ensures
        grown(
            text::texts(old(list)@),
            text::texts(files@),
            text::texts(final(list)@),
            added,
            rest@,
        ),
{
    let place = list.len();
    let videos = judge(files);
    let n = add_marked(list, files, &videos);
    assert(all_judged(text::texts(files@), videos@));
    Added {
        first: if n > 0 {
            Some(place)
        } else {
            None
        },
        status: count_text(n, rest),
    }
}

/// Adds what a directory holds of videos to the list.
pub fn add_folder(list: &mut Vec<String>, entries: &Vec<String>) -> (added: Added)
    ensures
        grown(
            text::texts(old(list)@),
            text::texts(entries@),
            text::texts(final(list)@),
            added,
            " files added from folder"@,
        ),
{
    add_videos(list, entries, " files added from folder")
}

/// Adds the videos among what was dropped to the list.
pub fn add_dropped(list: &mut Vec<String>, items: &Vec<DropItem>) -> (added: Added)
    ensures
        grown(
            text::texts(old(list)@),
            all_files(items@),
            text::texts(final(list)@),
            added,
            " items added"@,
        ),
{
    let files = dropped_files(items);
    add_videos(list, &files, " items added")
}

/// Adds files that were picked one by one to the list, whatever they are. Says what the user is
/// told: how long the list is now.
pub fn add_picked(list: &mut Vec<String>, files: &Vec<String>) -> (status: String)
    ensures
        text::texts(final(list)@) == text::texts(old(list)@) + text::texts(files@),
        status@ == count_line(final(list)@.len() as int, " files added"@),
{
    append_copies(list, files);
    count_text(list.len(), " files added")
}

/// Empties the list. Says what the user is told.
pub fn clear(list: &mut Vec<String>) -> (status: String)
    ensures
        final(list)@.len() == 0,
        status@ == "List cleared"@,
{
    list.clear();
    "List cleared".to_owned()
}

/// Only files that may be taken for videos get into the list from a directory or a drop. Every
/// file that ends in the extension of a video, on whatever platform, does; none that ends in
/// another extension, or in none, does.
pub proof fn law_only_videos_are_marked(files: Seq<Seq<char>>, videos: Seq<bool>)
    requires
        all_judged(files, videos),
    ensures
        forall|i: int|
            0 <= i < marked(files, videos).len() ==> judged(#[trigger] marked(files, videos)[i], true),
        forall|i: int|
            0 <= i < files.len() && paths::surely_video(#[trigger] files[i]) ==> marked(
                files,
                videos,
            ).contains(files[i]),
        forall|i: int|
            0 <= i < marked(files, videos).len() ==> !paths::surely_no_video(
                #[trigger] marked(files, videos)[i],
            ),
    decreases files.len(),
{
    if files.len() > 0 {
        let front = files.drop_last();
        let n = files.len() - 1;
        assert(forall|i: int| 0 <= i < front.len() ==> #[trigger] front[i] == files[i]);
        lemma_marked_prefix(front, videos, videos.drop_last());
        assert(all_judged(front, videos.drop_last()));
        law_only_videos_are_marked(front, videos.drop_last());
        let before = marked(front, videos);
        let now = marked(files, videos);
        assert(judged(files[n], videos[n]));
        let name = choose|name: Option<Seq<char>>| #[trigger]
            reading::is_file_name(files[n], name) && videos[n] == paths::video_name(name);
        paths::lemma_sure(files[n], name);
        assert forall|i: int| 0 <= i < now.len() implies judged(#[trigger] now[i], true)
            && !paths::surely_no_video(now[i]) by {
            if i < before.len() {
                assert(now[i] == before[i]);
            }
        }
        assert forall|i: int|
            0 <= i < files.len() && paths::surely_video(#[trigger] files[i]) implies now.contains(
            files[i],
        ) by {
            if i < n {
                assert(front[i] == files[i]);
                assert(before.contains(front[i]));
                let k = choose|k: int| 0 <= k < before.len() && before[k] == front[i];
                assert(now[k] == files[i]);
            } else {
                assert(videos[n]);
                assert(now[now.len() - 1] == files[n]);
            }
        }
    }
}

proof fn lemma_marked_prefix(files: Seq<Seq<char>>, a: Seq<bool>, b: Seq<bool>)
    requires
        files.len() <= a.len(),
        files.len() <= b.len(),
        forall|i: int| 0 <= i < files.len() ==> a[i] == b[i],
    ensures
        marked(files, a) == marked(files, b),
    decreases files.len(),
{
    if files.len() > 0 {
        lemma_marked_prefix(files.drop_last(), a, b);
    }
}

// ---------------------------------------------------------------------------
// Opening a video
// ---------------------------------------------------------------------------

/// The video to open: the selected one of the list, else the one that was opened last.
pub open spec fn chosen(list: Seq<Seq<char>>, selected: int, current: Seq<char>) -> Option<
    Seq<char>,
> {
    if 0 <= selected < list.len() {
        Some(list[selected])
    } else if current.len() > 0 {
        Some(current)
    } else {
        None
    }
}

/// A selected file of the list is opened whatever was opened last; without one, what was opened
/// last is opened again, whatever the list holds.
pub proof fn law_selection_comes_first(
    list: Seq<Seq<char>>,
    other: Seq<Seq<char>>,
    selected: int,
    current: Seq<char>,
)
    ensures
        0 <= selected < list.len() ==> chosen(list, selected, current) == Some(list[selected]),
        !(0 <= selected < list.len()) && !(0 <= selected < other.len()) ==> chosen(
            list,
            selected,
            current,
        ) == chosen(other, selected, current),
        !(0 <= selected < list.len()) && current.len() > 0 ==> chosen(list, selected, current)
            == Some(current),
        chosen(list, selected, current) is None <==> !(0 <= selected < list.len()) && current.len()
            == 0,
{
}

/// The video to open.
pub fn choose_video(list: &Vec<String>, selected: i32, current: &str) -> (path: Option<String>)
    ensures
        log::text_of(path) == chosen(text::texts(list@), selected as int, current@),
{
    if selected >= 0 && (selected as usize) < list.len() {
        Some(list[selected as usize].clone())
    } else if !current.is_empty() {
        Some(current.to_owned())
    } else {
        None
    }
}

/// What is to be done about a video that the user wants to open.
#[derive(Clone, Copy, Debug, PartialEq, Eq, Structural)]
pub enum OpenAction {
    /// Nothing: it is not known where FFmpeg is.
    NeedFfmpeg,
    /// Nothing: there is no such video.
    NoVideo,
    /// Open it.
    Open,
}

impl OpenAction {
    /// What the user is told.
    pub open spec fn spec_status(self) -> Seq<char> {
        match self {
            OpenAction::NeedFfmpeg => "먼저 FFmpeg 경로를 설정하세요."@,
            OpenAction::NoVideo =>
                "선택된 비디오가 없습니다. 파일을 추가하거나 '파일 선택'을 누르세요."@,
            OpenAction::Open => "비디오 정보를 읽는 중..."@,
        }
    }

    /// What the user is told.
    pub fn status(&self) -> (s: String)
        ensures
            s@ == self.spec_status(),
    {
        match self {
            OpenAction::NeedFfmpeg => "먼저 FFmpeg 경로를 설정하세요.".to_owned(),
            OpenAction::NoVideo =>
                "선택된 비디오가 없습니다. 파일을 추가하거나 '파일 선택'을 누르세요.".to_owned(),
            OpenAction::Open => "비디오 정보를 읽는 중...".to_owned(),
        }
    }
}

/// What is to be done about a video that the user wants to open; `there` says whether there is
/// such a video.
pub fn open_video(ffmpeg: &str, there: bool) -> (action: OpenAction)
    ensures
        action == (if ffmpeg@.len() == 0 {
            OpenAction::NeedFfmpeg
        } else if there {
            OpenAction::Open
        } else {
            OpenAction::NoVideo
        }),
{
    if ffmpeg.is_empty() {
        OpenAction::NeedFfmpeg
    } else if there {
        OpenAction::Open
    } else {
        OpenAction::NoVideo
    }
}

} // verus!
