//! Where the result of a job goes.

use vstd::prelude::*;

use crate::log;
use crate::paths;
use crate::reading;

verus! {

/// The stem of a file name, or `other` where there is none.
pub open spec fn stem_or(name: Option<Seq<char>>, other: Seq<char>) -> Seq<char> {
    match name {
        Some(n) => paths::stem(n),
        None => other,
    }
}

/// The extension of a file name, or `other` where there is none.
pub open spec fn extension_or(name: Option<Seq<char>>, other: Seq<char>) -> Seq<char> {
    match name {
        Some(n) => match paths::extension(n) {
            Some(e) => e,
            None => other,
        },
        None => other,
    }
}

/// `{name}{suffix}.mp4`
pub open spec fn encoded_name(name: Option<Seq<char>>, suffix: Seq<char>) -> Seq<char> {
    stem_or(name, Seq::<char>::empty()) + suffix + ".mp4"@
}

/// `{name}_cut.{ext}`
pub open spec fn cut_name(name: Option<Seq<char>>) -> Seq<char> {
    stem_or(name, "output"@) + "_cut."@ + extension_or(name, "mp4"@)
}

/// `{name}_crop.mp4`
pub open spec fn crop_name(name: Option<Seq<char>>) -> Seq<char> {
    stem_or(name, "output"@) + "_crop.mp4"@
}

/// The directory for an encoded file: the one that was chosen, else that of the input, else the
/// current one.
pub open spec fn output_dir(out_folder: Seq<char>, parent: Option<Seq<char>>) -> Seq<char> {
    if out_folder.len() > 0 {
        out_folder
    } else {
        match parent {
            Some(p) => p,
            None => "."@,
        }
    }
}

/// What a result is called: a cut keeps stem and extension and puts `_cut` between them, a crop
/// and an encoded file keep the stem and become MP4. The names fall apart again in the same way.
pub proof fn law_result_names(front: Seq<char>, ext: Seq<char>, suffix: Seq<char>)
    requires
        front.len() > 0,
        !ext.contains('.'),
    ensures
        ({
            let name = Some(front + seq!['.'] + ext);
            &&& cut_name(name) == front + "_cut"@ + seq!['.'] + ext
            &&& crop_name(name) == front + "_crop"@ + ".mp4"@
            &&& encoded_name(name, suffix) == front + suffix + ".mp4"@
            &&& paths::stem(cut_name(name)) == front + "_cut"@
            &&& paths::extension(cut_name(name)) == Some(ext)
            &&& paths::stem(crop_name(name)) == front + "_crop"@
            &&& paths::extension(crop_name(name)) == Some("mp4"@)
            &&& paths::stem(encoded_name(name, suffix)) == front + suffix
            &&& paths::extension(encoded_name(name, suffix)) == Some("mp4"@)
        }),
{
    let name = Some(front + seq!['.'] + ext);
    paths::law_last_dot_divides(front, ext);
    lemma_literals();
    assert(cut_name(name) =~= front + "_cut"@ + seq!['.'] + ext);
    assert(crop_name(name) =~= front + "_crop"@ + seq!['.'] + "mp4"@);
    assert(crop_name(name) =~= front + "_crop"@ + ".mp4"@);
    assert(encoded_name(name, suffix) =~= front + suffix + seq!['.'] + "mp4"@);
    paths::law_last_dot_divides(front + "_cut"@, ext);
    paths::law_last_dot_divides(front + "_crop"@, "mp4"@);
    paths::law_last_dot_divides(front + suffix, "mp4"@);
}

proof fn lemma_literals()
    ensures
        "_cut."@ == "_cut"@ + seq!['.'],
        "_crop.mp4"@ == "_crop"@ + seq!['.'] + "mp4"@,
        ".mp4"@ == seq!['.'] + "mp4"@,
        !"mp4"@.contains('.'),
{
    reveal_strlit("mp4");
    reveal_strlit(".mp4");
    reveal_strlit("_cut");
    reveal_strlit("_cut.");
    reveal_strlit("_crop");
    reveal_strlit("_crop.mp4");
    assert("_cut."@ =~= "_cut"@ + seq!['.']);
    assert("_crop.mp4"@ =~= "_crop"@ + seq!['.'] + "mp4"@);
    assert(".mp4"@ =~= seq!['.'] + "mp4"@);
}

/// What a result of a file without an extension is called, and one of no file at all.
pub proof fn law_result_names_without_extension(n: Seq<char>, suffix: Seq<char>)
    requires
        !n.contains('.'),
    ensures
        cut_name(Some(n)) == n + "_cut.mp4"@,
        crop_name(Some(n)) == n + "_crop.mp4"@,
        encoded_name(Some(n), suffix) == n + suffix + ".mp4"@,
        cut_name(None) == "output_cut.mp4"@,
        crop_name(None) == "output_crop.mp4"@,
        encoded_name(None, suffix) == suffix + ".mp4"@,
{
    paths::law_no_dot_divides(n);
    lemma_literals();
    reveal_strlit("mp4");
    reveal_strlit("_cut.");
    reveal_strlit("_cut.mp4");
    reveal_strlit("output");
    reveal_strlit("output_cut.mp4");
    reveal_strlit("_crop.mp4");
    reveal_strlit("output_crop.mp4");
    assert(cut_name(Some(n)) =~= n + "_cut.mp4"@);
    assert(cut_name(None) =~= "output_cut.mp4"@);
    assert(crop_name(None) =~= "output_crop.mp4"@);
    assert(encoded_name(None, suffix) =~= suffix + ".mp4"@);
}

/// A folder that was chosen is taken whatever the input lies in; only without one does that
/// matter.
pub proof fn law_chosen_folder_wins(
    folder: Seq<char>,
    parent: Option<Seq<char>>,
    other: Option<Seq<char>>,
)
    ensures
        folder.len() > 0 ==> output_dir(folder, parent) == folder,
        folder.len() > 0 ==> output_dir(folder, parent) == output_dir(folder, other),
        parent matches Some(p) ==> output_dir(Seq::<char>::empty(), parent) == p,
        output_dir(Seq::<char>::empty(), None) == "."@,
{
}

/// The stem and the extension of a file name, with what stands in for them.
fn name_parts(name: &Option<String>, no_stem: &str, no_extension: &str) -> (p: (String, String))
    ensures
        p.0@ == stem_or(log::text_of(*name), no_stem@),
        p.1@ == extension_or(log::text_of(*name), no_extension@),
{
    match name {
        Some(n) => {
            let (stem, extension) = paths::split_name(n.as_str());
            match extension {
                Some(e) => (stem, e),
                None => (stem, no_extension.to_owned()),
            }
        },
        None => (no_stem.to_owned(), no_extension.to_owned()),
    }
}

/// `{name}{suffix}.mp4`
pub fn encoded_file_name(name: &Option<String>, suffix: &str) -> (s: String)
    ensures
        s@ == encoded_name(log::text_of(*name), suffix@),
{
    let mut s = name_parts(name, "", "").0;
    proof {
        reveal_strlit("");
        assert(""@ =~= Seq::<char>::empty());
    }
    s.append(suffix);
    s.append(".mp4");
    s
}

/// `{name}_cut.{ext}`
pub fn cut_file_name(name: &Option<String>) -> (s: String)
    ensures
        s@ == cut_name(log::text_of(*name)),
{
    let (mut s, extension) = name_parts(name, "output", "mp4");
    s.append("_cut.");
    s.append(extension.as_str());
    s
}

/// `{name}_crop.mp4`
pub fn crop_file_name(name: &Option<String>) -> (s: String)
    ensures
        s@ == crop_name(log::text_of(*name)),
{
    let mut s = name_parts(name, "output", "mp4").0;
    s.append("_crop.mp4");
    s
}

/// Whether `output` is where `input` is encoded to. Its file name, its parent and the join are
/// read in the same way.
pub open spec fn encodes_to(
    input: Seq<char>,
    out_folder: Seq<char>,
    suffix: Seq<char>,
    output: Seq<char>,
) -> bool {
    exists|windows: bool, name: Option<Seq<char>>, parent: Option<Seq<char>>|
        #![trigger reading::name_in(input, windows, name), reading::parent_in(input, windows, parent)]
        reading::name_in(input, windows, name) && reading::parent_in(input, windows, parent)
            && reading::joined_in(
            output_dir(out_folder, parent),
            windows,
            encoded_name(name, suffix),
            output,
        )
}

/// Where `input` is encoded to.
pub fn encode_output(input: &str, out_folder: &str, suffix: &str) -> (output: String)
    ensures
        encodes_to(input@, out_folder@, suffix@, output@),
        ordinary(input@) && !reading::literal(out_folder@) && harmless(suffix@) && suffix@.len() > 0
            ==> output@ != input@,
{
    let name = reading::file_name(input);
    let known = reading::readings(input, &name);
    let file = encoded_file_name(&name, suffix);
    let (parent, known) = reading::parent_by(input, known);
    let dir = if out_folder.is_empty() {
        match &parent {
            Some(p) => p.as_str(),
            None => ".",
        }
    } else {
        out_folder
    };
    proof {
        lemma_result_exists(log::text_of(name), suffix@);
    }
    let output = reading::join_by(dir, file.as_str(), known);
    proof {
        let windows = choose|windows: bool| #[trigger]
            known.has(windows) && reading::joined_in(dir@, windows, file@, output@);
        assert(reading::name_in(input@, windows, log::text_of(name)));
        assert(reading::parent_in(input@, windows, log::text_of(parent)));
        assert(encodes_to(input@, out_folder@, suffix@, output@));
        if ordinary(input@) && !reading::literal(out_folder@) && harmless(suffix@) && suffix@.len()
            > 0 {
            law_input_is_not_overwritten(input@, out_folder@, suffix@, output@);
        }
    }
    output
}

/// Whether `output` is where a cut of `src` goes. Its file name and its directory are read in the
/// same way.
pub open spec fn cuts_to(src: Seq<char>, output: Seq<char>) -> bool {
    exists|windows: bool, name: Option<Seq<char>>| #[trigger]
        reading::name_in(src, windows, name) && reading::renamed_in(
            src,
            windows,
            cut_name(name),
            output,
        )
}

/// Whether `output` is where a crop of `src` goes. Its file name and its directory are read in
/// the same way.
pub open spec fn crops_to(src: Seq<char>, output: Seq<char>) -> bool {
    exists|windows: bool, name: Option<Seq<char>>| #[trigger]
        reading::name_in(src, windows, name) && reading::renamed_in(
            src,
            windows,
            crop_name(name),
            output,
        )
}

/// Where a cut of `src` goes.
pub fn cut_output(src: &str) -> (output: String)
    ensures
        cuts_to(src@, output@),
        ordinary(src@) ==> output@ != src@,
{
    let name = reading::file_name(src);
    let known = reading::readings(src, &name);
    let file = cut_file_name(&name);
    proof {
        lemma_result_exists(log::text_of(name), Seq::<char>::empty());
    }
    let output = reading::rename_by(src, file.as_str(), known);
    proof {
        let windows = choose|windows: bool| #[trigger]
            known.has(windows) && reading::renamed_in(src@, windows, file@, output@);
        assert(reading::name_in(src@, windows, log::text_of(name)));
        if ordinary(src@) {
            lemma_cut_elsewhere(src@, output@);
        }
    }
    output
}

/// Where a crop of `src` goes.
pub fn crop_output(src: &str) -> (output: String)
    ensures
        crops_to(src@, output@),
        ordinary(src@) ==> output@ != src@,
{
    let name = reading::file_name(src);
    let known = reading::readings(src, &name);
    let file = crop_file_name(&name);
    proof {
        lemma_result_exists(log::text_of(name), Seq::<char>::empty());
    }
    let output = reading::rename_by(src, file.as_str(), known);
    proof {
        let windows = choose|windows: bool| #[trigger]
            known.has(windows) && reading::renamed_in(src@, windows, file@, output@);
        assert(reading::name_in(src@, windows, log::text_of(name)));
        if ordinary(src@) {
            lemma_crop_elsewhere(src@, output@);
        }
    }
    output
}

// ---------------------------------------------------------------------------
// A result is never its source
// ---------------------------------------------------------------------------

/// A path that does not begin with two separators, or else leads to something behind a share.
pub open spec fn ordinary(path: Seq<char>) -> bool {
    reading::two_seps(path) ==> paths::behind_share(path)
}

/// No separator and no colon.
pub open spec fn harmless(s: Seq<char>) -> bool {
    !s.contains('/') && !s.contains('\\') && !s.contains(':')
}

pub open spec fn without_sep(s: Seq<char>, windows: bool) -> bool {
    forall|i: int| 0 <= i < s.len() ==> !reading::is_sep(#[trigger] s[i], windows)
}

proof fn lemma_without_sep_sum(s: Seq<char>, t: Seq<char>, windows: bool)
    requires
        without_sep(s, windows),
        without_sep(t, windows),
    ensures
        without_sep(s + t, windows),
{
    assert forall|i: int| 0 <= i < (s + t).len() implies !reading::is_sep(
        #[trigger] (s + t)[i],
        windows,
    ) by {
        if i >= s.len() {
            assert((s + t)[i] == t[i - s.len()]);
        } else {
            assert((s + t)[i] == s[i]);
        }
    }
}

proof fn lemma_harmless(s: Seq<char>, windows: bool)
    requires
        harmless(s),
    ensures
        without_sep(s, windows),
{
    assert forall|i: int| 0 <= i < s.len() implies !reading::is_sep(#[trigger] s[i], windows) by {
        assert(s.contains(s[i]));
    }
}

proof fn lemma_name_without_sep(path: Seq<char>, windows: bool)
    requires
        reading::name_of(path, windows) is Some,
    ensures
        without_sep(reading::name_of(path, windows)->0, windows),
{
    let b = reading::bare(path, windows);
    let n = reading::file_part(b, windows);
    reading::lemma_last_sep(b, windows);
    assert forall|i: int| 0 <= i < n.len() implies !reading::is_sep(#[trigger] n[i], windows) by {
        assert(n[i] == b[reading::last_sep(b, windows) + 1 + i]);
    }
}

/// The names of results hold no separator that the name of the source does not hold.
proof fn lemma_results_without_sep(n: Seq<char>, suffix: Seq<char>, windows: bool)
    requires
        without_sep(n, windows),
        harmless(suffix),
    ensures
        without_sep(cut_name(Some(n)), windows),
        without_sep(crop_name(Some(n)), windows),
        without_sep(encoded_name(Some(n), suffix), windows),
{
    let s = paths::stem(n);
    let e = extension_or(Some(n), "mp4"@);
    paths::lemma_last_index(n, '.');
    reveal_strlit("mp4");
    reveal_strlit(".mp4");
    reveal_strlit("_cut.");
    reveal_strlit("_crop.mp4");
    let dot = paths::last_index(n, '.');
    assert(forall|i: int| 0 <= i < s.len() ==> #[trigger] s[i] == n[i]);
    assert forall|i: int| 0 <= i < e.len() implies !reading::is_sep(#[trigger] e[i], windows) by {
        if dot > 0 {
            assert(e[i] == n[dot + 1 + i]);
        }
    }
    lemma_harmless(suffix, windows);
    lemma_without_sep_sum(s, "_cut."@, windows);
    lemma_without_sep_sum(s + "_cut."@, e, windows);
    lemma_without_sep_sum(s, "_crop.mp4"@, windows);
    lemma_without_sep_sum(s, suffix, windows);
    lemma_without_sep_sum(s + suffix, ".mp4"@, windows);
}

/// `s` ends in `.mp4`.
pub open spec fn ends_in_mp4(s: Seq<char>) -> bool {
    &&& s.len() >= 4
    &&& s[s.len() - 4] == '.'
    &&& s[s.len() - 3] == 'm'
    &&& s[s.len() - 2] == 'p'
    &&& s[s.len() - 1] == '4'
}

/// How long the names of results are where they end as the name of the source does.
proof fn lemma_result_lengths(n: Seq<char>, suffix: Seq<char>)
    requires
        n.len() > 0,
    ensures
        cut_name(Some(n)).len() >= n.len() + 4,
        crop_name(Some(n)).len() >= 10,
        encoded_name(Some(n), suffix).len() >= 5 + suffix.len(),
        ends_in_mp4(crop_name(Some(n))),
        ends_in_mp4(encoded_name(Some(n), suffix)),
        ends_in_mp4(n) ==> crop_name(Some(n)).len() >= n.len() + 5,
        ends_in_mp4(n) ==> encoded_name(Some(n), suffix).len() >= n.len() + suffix.len(),
        ends_in_mp4(n) && n.len() > 4 ==> paths::stem(n) == n.take(n.len() - 4),
        ends_in_mp4(n) && n.len() == 4 ==> paths::stem(n) == n,
{
    paths::lemma_last_index(n, '.');
    reveal_strlit("mp4");
    reveal_strlit(".mp4");
    reveal_strlit("_cut.");
    reveal_strlit("_crop.mp4");
    let s = paths::stem(n);
    assert(s.len() > 0);
    let crop = crop_name(Some(n));
    assert(forall|i: int| 0 <= i < 9 ==> crop[s.len() + i] == "_crop.mp4"@[i]);
    let encoded = encoded_name(Some(n), suffix);
    let more = s.len() + suffix.len();
    assert(encoded.len() == more + 4);
    assert(forall|i: int| 0 <= i < 4 ==> encoded[more + i] == ".mp4"@[i]);
    if ends_in_mp4(n) {
        paths::lemma_last_index(n, '.');
        assert(paths::last_index(n, '.') == n.len() - 4);
    }
}

proof fn lemma_suffix_char(s: Seq<char>, end: Seq<char>, i: int)
    requires
        reading::ends_with(s, end),
        0 <= i < end.len(),
    ensures
        end[i] == s[s.len() - end.len() + i],
{
    assert(s.skip(s.len() - end.len())[i] == end[i]);
}

proof fn lemma_common_end(s: Seq<char>, long: Seq<char>, short: Seq<char>)
    requires
        reading::ends_with(s, long),
        reading::ends_with(s, short),
        short.len() <= long.len(),
    ensures
        reading::ends_with(long, short),
{
    assert forall|i: int| 0 <= i < short.len() implies long[long.len() - short.len() + i]
        == short[i] by {
        lemma_suffix_char(s, long, long.len() - short.len() + i);
        lemma_suffix_char(s, short, i);
    }
    assert(long.skip(long.len() - short.len()) =~= short);
}

/// No name ends in the name of a result that is made from it.
proof fn lemma_name_not_its_result(n: Seq<char>, suffix: Seq<char>)
    requires
        n.len() > 0,
        suffix.len() > 0,
    ensures
        !reading::ends_with(n, cut_name(Some(n))),
        !reading::ends_with(n, crop_name(Some(n))),
        !reading::ends_with(n, encoded_name(Some(n), suffix)),
{
    lemma_result_lengths(n, suffix);
    let crop = crop_name(Some(n));
    let encoded = encoded_name(Some(n), suffix);
    if reading::ends_with(n, crop) {
        lemma_suffix_char(n, crop, crop.len() - 4);
        lemma_suffix_char(n, crop, crop.len() - 3);
        lemma_suffix_char(n, crop, crop.len() - 2);
        lemma_suffix_char(n, crop, crop.len() - 1);
    }
    if reading::ends_with(n, encoded) {
        lemma_suffix_char(n, encoded, encoded.len() - 4);
        lemma_suffix_char(n, encoded, encoded.len() - 3);
        lemma_suffix_char(n, encoded, encoded.len() - 2);
        lemma_suffix_char(n, encoded, encoded.len() - 1);
    }
}

/// A path does not end in a file that holds no separator, unless its name does.
proof fn lemma_path_end(path: Seq<char>, windows: bool, file: Seq<char>)
    requires
        file.len() >= 2,
        without_sep(file, windows),
        reading::ends_with(path, file),
        reading::name_of(path, windows) is Some,
    ensures
        reading::ends_with(reading::name_of(path, windows)->0, file),
{
    let last = file.len() - 1;
    lemma_suffix_char(path, file, last);
    lemma_suffix_char(path, file, last - 1);
    assert(!reading::is_sep(file[last], windows));
    assert(!reading::is_sep(file[last - 1], windows));
    assert(reading::bare(path, windows) == path);
    let n = reading::file_part(path, windows);
    let k = reading::last_sep(path, windows);
    reading::lemma_last_sep(path, windows);
    assert(path.skip(path.len() - n.len()) =~= n);
    if file.len() > n.len() {
        let i = k - (path.len() - file.len());
        lemma_suffix_char(path, file, i);
        assert(reading::is_sep(file[i], windows));
    } else {
        lemma_common_end(path, n, file);
    }
}

/// A path that ends as a file name does has one.
proof fn lemma_ends_in_a_name(path: Seq<char>, windows: bool)
    requires
        path.len() > 0,
        path.last() == '4',
    ensures
        reading::name_of(path, windows) is Some,
{
    reading::lemma_last_sep(path, windows);
    let n = reading::file_part(path, windows);
    assert(reading::bare(path, windows) == path);
    assert(n.last() == '4');
    assert(seq!['.'].last() == '.' && seq!['.', '.'].last() == '.');
}

/// A text that ends as it would with something put before it shares the characters of both ends.
proof fn lemma_shifted(front: Seq<char>, stem: Seq<char>, suffix: Seq<char>, c: char)
    requires
        front + stem == stem + suffix,
        front.contains(c),
    ensures
        suffix.contains(c),
{
    vstd::seq_lib::lemma_multiset_commutative(front, stem);
    vstd::seq_lib::lemma_multiset_commutative(stem, suffix);
    front.to_multiset_ensures();
    suffix.to_multiset_ensures();
    assert(front.to_multiset().count(c) > 0);
    assert((front + stem).to_multiset().count(c) == front.to_multiset().count(c)
        + stem.to_multiset().count(c));
    assert((stem + suffix).to_multiset().count(c) == stem.to_multiset().count(c)
        + suffix.to_multiset().count(c));
}

/// The three results of a source: a cut, a crop and an encoded file.
pub open spec fn is_result(file: Seq<char>, name: Option<Seq<char>>, suffix: Seq<char>) -> bool {
    file == cut_name(name) || file == crop_name(name) || file == encoded_name(name, suffix)
}

proof fn lemma_result_of_nothing(file: Seq<char>, suffix: Seq<char>)
    requires
        is_result(file, None, suffix),
    ensures
        file.len() >= 4,
        file.last() == '4',
{
    reveal_strlit("mp4");
    reveal_strlit(".mp4");
    reveal_strlit("_cut.");
    reveal_strlit("_crop.mp4");
    reveal_strlit("output");
}

/// No path ends in the name of a result that is made from its own file name.
proof fn lemma_path_not_its_result(
    path: Seq<char>,
    windows: bool,
    name: Option<Seq<char>>,
    suffix: Seq<char>,
    file: Seq<char>,
)
    requires
        ordinary(path),
        reading::name_in(path, windows, name),
        harmless(suffix),
        suffix.len() > 0,
        is_result(file, name, suffix),
    ensures
        !reading::ends_with(path, file),
{
    let p = reading::rest(path, windows);
    lemma_reading_not_its_result(p, windows, name, suffix, file);
    if reading::ends_with(path, file) {
        if windows && reading::on_drive(path) {
            lemma_behind_drive_not_its_result(path, name, suffix, file);
        } else if windows && reading::on_share(path) {
            lemma_behind_share_not_its_result(path, name, suffix, file);
        } else {
            assert(p =~= path);
        }
    }
}

proof fn lemma_behind_share_not_its_result(
    path: Seq<char>,
    name: Option<Seq<char>>,
    suffix: Seq<char>,
    file: Seq<char>,
)
    requires
        reading::on_share(path),
        paths::behind_share(path),
        name == reading::file_name_of(path, true),
        !reading::ends_with(reading::rest(path, true), file),
        harmless(suffix),
        is_result(file, name, suffix),
    ensures
        !reading::ends_with(path, file),
{
    let p = reading::rest(path, true);
    let end = reading::share_end(path);
    reading::lemma_prefix(path, true);
    reading::lemma_last_sep(path, true);
    if reading::on_drive(path) {
        assert(false);
    }
    if reading::ends_with(path, file) {
        assert(path.skip(path.len() - p.len()) =~= p);
        if file.len() <= p.len() {
            lemma_common_end(path, p, file);
        }
        match name {
            Some(n) => {
                lemma_name_without_sep(p, true);
                lemma_results_without_sep(n, suffix, true);
                lemma_suffix_char(path, file, end - (path.len() - file.len()));
            },
            None => {
                lemma_result_of_nothing(file, suffix);
                lemma_suffix_char(path, file, file.len() - 1);
                assert(p.last() == path.last());
                lemma_ends_in_a_name(p, true);
            },
        }
    }
}

proof fn lemma_reading_not_its_result(
    path: Seq<char>,
    windows: bool,
    name: Option<Seq<char>>,
    suffix: Seq<char>,
    file: Seq<char>,
)
    requires
        name == reading::name_of(path, windows),
        harmless(suffix),
        suffix.len() > 0,
        is_result(file, name, suffix),
    ensures
        !reading::ends_with(path, file),
{
    if reading::ends_with(path, file) {
        match name {
            Some(n) => {
                lemma_name_without_sep(path, windows);
                lemma_results_without_sep(n, suffix, windows);
                lemma_result_lengths(n, suffix);
                lemma_path_end(path, windows, file);
                lemma_name_not_its_result(n, suffix);
            },
            None => {
                lemma_result_of_nothing(file, suffix);
                lemma_suffix_char(path, file, file.len() - 1);
                lemma_ends_in_a_name(path, windows);
            },
        }
    }
}

proof fn lemma_behind_drive_not_its_result(
    path: Seq<char>,
    name: Option<Seq<char>>,
    suffix: Seq<char>,
    file: Seq<char>,
)
    requires
        reading::on_drive(path),
        name == reading::name_of(path.skip(2), true),
        !reading::ends_with(path.skip(2), file),
        harmless(suffix),
        suffix.len() > 0,
        is_result(file, name, suffix),
    ensures
        !reading::ends_with(path, file),
{
    let p = path.skip(2);
    if reading::ends_with(path, file) {
        assert(path.skip(path.len() - p.len()) =~= p);
        if file.len() <= p.len() {
            lemma_common_end(path, p, file);
        }
        lemma_common_end(path, file, p);
        match name {
            Some(n) => {
                lemma_name_without_sep(p, true);
                lemma_results_without_sep(n, suffix, true);
                lemma_result_lengths(n, suffix);
                assert forall|i: int| 0 <= i < p.len() implies !reading::is_sep(p[i], true) by {
                    lemma_suffix_char(file, p, i);
                }
                reading::lemma_last_sep(p, true);
                assert(reading::bare(p, true) == p);
                assert(n =~= p);
                if file == encoded_name(name, suffix) || file == crop_name(name) {
                    if n.len() >= 4 {
                        lemma_suffix_char(file, n, n.len() - 4);
                        lemma_suffix_char(file, n, n.len() - 3);
                        lemma_suffix_char(file, n, n.len() - 2);
                        lemma_suffix_char(file, n, n.len() - 1);
                        assert(ends_in_mp4(n));
                    }
                }
                if file == encoded_name(name, suffix) {
                    assert(n.len() > 4);
                    let stem = paths::stem(n);
                    let front = file.take(file.len() - n.len());
                    reveal_strlit(".mp4");
                    assert(file.len() == stem.len() + suffix.len() + 4);
                    assert forall|i: int| 0 <= i < file.len() - 4 implies (front + stem)[i]
                        == file[i] by {
                        if i >= front.len() {
                            lemma_suffix_char(file, n, i - front.len());
                        }
                    }
                    assert(front + stem =~= stem + suffix);
                    lemma_suffix_char(path, file, front.len() - 1);
                    assert(front[front.len() - 1] == ':');
                    lemma_shifted(front, stem, suffix, ':');
                }
            },
            None => {
                lemma_result_of_nothing(file, suffix);
                lemma_suffix_char(path, file, file.len() - 1);
                assert(p.len() > 0);
                assert(p.last() == path.last());
                lemma_ends_in_a_name(p, true);
            },
        }
    }
}

/// What a new name is put behind in an ordinary path is not taken literally, so the result ends
/// in the name.
proof fn lemma_renamed_ends(src: Seq<char>, windows: bool, file: Seq<char>, out: Seq<char>)
    requires
        ordinary(src),
        file.len() > 0,
        reading::renamed_in(src, windows, file, out),
    ensures
        reading::ends_with(out, file),
{
    let base = reading::base_of(src, windows);
    reading::lemma_base(src, windows);
    if reading::literal(base) {
        reading::lemma_beginning_not_literal(src, base);
    }
    reading::lemma_joined_ends(base, windows, file, out);
}

proof fn lemma_cut_elsewhere(src: Seq<char>, cut: Seq<char>)
    requires
        ordinary(src),
        cuts_to(src, cut),
    ensures
        cut != src,
{
    let suffix = seq!['_'];
    let (windows, name) = choose|windows: bool, name: Option<Seq<char>>| #[trigger]
        reading::name_in(src, windows, name) && reading::renamed_in(
            src,
            windows,
            cut_name(name),
            cut,
        );
    lemma_result_exists(name, suffix);
    lemma_renamed_ends(src, windows, cut_name(name), cut);
    lemma_path_not_its_result(src, windows, name, suffix, cut_name(name));
}

proof fn lemma_crop_elsewhere(src: Seq<char>, crop: Seq<char>)
    requires
        ordinary(src),
        crops_to(src, crop),
    ensures
        crop != src,
{
    let suffix = seq!['_'];
    let (windows, name) = choose|windows: bool, name: Option<Seq<char>>| #[trigger]
        reading::name_in(src, windows, name) && reading::renamed_in(
            src,
            windows,
            crop_name(name),
            crop,
        );
    lemma_result_exists(name, suffix);
    lemma_renamed_ends(src, windows, crop_name(name), crop);
    lemma_path_not_its_result(src, windows, name, suffix, crop_name(name));
}

/// A cut or a crop of a source is never the source itself.
pub proof fn law_source_is_not_overwritten(src: Seq<char>, cut: Seq<char>, crop: Seq<char>)
    requires
        ordinary(src),
        cuts_to(src, cut),
        crops_to(src, crop),
    ensures
        cut != src,
        crop != src,
{
    lemma_cut_elsewhere(src, cut);
    lemma_crop_elsewhere(src, crop);
}

proof fn lemma_result_exists(name: Option<Seq<char>>, suffix: Seq<char>)
    ensures
        cut_name(name).len() > 0,
        crop_name(name).len() > 0,
        encoded_name(name, suffix).len() > 0,
{
    reveal_strlit("_cut.");
    reveal_strlit("_crop.mp4");
    reveal_strlit(".mp4");
}

/// An encoded file is never its input, unless the suffix is empty.
pub proof fn law_input_is_not_overwritten(
    input: Seq<char>,
    out_folder: Seq<char>,
    suffix: Seq<char>,
    output: Seq<char>,
)
    requires
        ordinary(input),
        !reading::literal(out_folder),
        harmless(suffix),
        suffix.len() > 0,
        encodes_to(input, out_folder, suffix, output),
    ensures
        output != input,
{
    let (windows, name, parent) = choose|
        windows: bool,
        name: Option<Seq<char>>,
        parent: Option<Seq<char>>,
    |
        #![trigger reading::name_in(input, windows, name), reading::parent_in(input, windows, parent)]
        reading::name_in(input, windows, name) && reading::parent_in(input, windows, parent)
            && reading::joined_in(
            output_dir(out_folder, parent),
            windows,
            encoded_name(name, suffix),
            output,
        );
    let dir = output_dir(out_folder, parent);
    lemma_result_exists(name, suffix);
    reveal_strlit(".");
    if reading::literal(dir) {
        reading::lemma_beginning_not_literal(input, dir);
    }
    reading::lemma_joined_ends(dir, windows, encoded_name(name, suffix), output);
    lemma_path_not_its_result(input, windows, name, suffix, encoded_name(name, suffix));
}

// ---------------------------------------------------------------------------
// A result has the name and the place that it should have
// ---------------------------------------------------------------------------

/// Whether the directory of a path ends in its separator alone, under one reading: not in two of
/// them, nor in a dot between two.
pub open spec fn tidy(path: Seq<char>, windows: bool) -> bool {
    let sep = reading::last_sep(path, windows);
    &&& sep >= 1 ==> !reading::is_sep(path[sep - 1], windows)
    &&& sep >= 2 ==> !(path[sep - 1] == '.' && reading::is_sep(path[sep - 2], windows))
}

/// A path that ends in a file name, behind a tidy directory, under both readings.
pub open spec fn well_spelled(path: Seq<char>) -> bool {
    &&& ordinary(path)
    &&& tidy(path, false)
    &&& tidy(path, true)
    &&& reading::regular(reading::file_part(path, true))
    &&& reading::file_name_of(path, true) matches Some(n) && !reading::on_drive(n)
}

/// Whether `out` is `file` in the place of `name`, with which `path` ends. Where a slash stands
/// before the name, Windows puts a backslash.
pub open spec fn beside(
    path: Seq<char>,
    name: Seq<char>,
    file: Seq<char>,
    out: Seq<char>,
) -> bool {
    let dir = path.take(path.len() - name.len());
    &&& reading::ends_with(path, name)
    &&& out == dir + file || (dir.len() > 0 && dir.last() == '/' && out == dir.drop_last().push(
        '\\',
    ) + file)
}

/// What a result is named begins as the name of its source does.
proof fn lemma_result_begins(n: Seq<char>, suffix: Seq<char>, file: Seq<char>)
    requires
        n.len() > 0,
        harmless(suffix),
        is_result(file, Some(n), suffix),
    ensures
        file.len() > 0,
        file[0] == n[0],
        reading::on_drive(file) ==> reading::on_drive(n),
{
    paths::lemma_last_index(n, '.');
    reveal_strlit(".mp4");
    reveal_strlit("_cut.");
    reveal_strlit("_crop.mp4");
    let stem = paths::stem(n);
    assert(stem.len() > 0);
    assert(file[0] == stem[0]);
    if stem.len() >= 2 {
        assert(file[1] == stem[1]);
    } else if suffix.len() > 0 {
        assert(suffix.contains(suffix[0]));
    }
}

/// The file name of a well-spelled path is what the path ends with, and its parent is what
/// precedes it.
proof fn lemma_well_spelled(path: Seq<char>, windows: bool)
    requires
        well_spelled(path),
    ensures
        reading::file_name_of(path, windows) matches Some(n) && {
            let dir = path.take(path.len() - n.len());
            &&& n.len() > 0
            &&& reading::ends_with(path, n)
            &&& !reading::is_sep(n[0], windows)
            &&& reading::parent_of(path, windows) matches Some(p) && {
                ||| p == dir && (dir.len() == 0 || reading::is_sep(dir.last(), windows) || (windows
                    && dir.len() == 2 && reading::on_drive(dir)))
                ||| dir.len() > 0 && reading::is_sep(dir.last(), windows) && p == dir.drop_last()
                    && p.len() > 0 && !reading::is_sep(p.last(), windows) && !(windows && p.len()
                    == 2 && reading::on_drive(p))
            }
        },
{
    let k = reading::last_sep(path, windows);
    let start = reading::prefix_len(path, windows);
    let r = reading::rest(path, windows);
    reading::lemma_prefix(path, windows);
    reading::lemma_last_sep(path, windows);
    reading::lemma_last_sep(r, windows);
    reading::lemma_file_parts(path);
    assert(forall|i: int| 0 <= i < r.len() ==> #[trigger] r[i] == path[i + start]);
    if windows {
        if start <= k {
            paths::lemma_behind_prefix(path);
            reading::lemma_name_of(r, true);
        } else if reading::on_drive(path) {
            paths::lemma_drive_alone(path);
            lemma_alone_is_bare(r);
        } else {
            assert(r =~= path);
            reading::lemma_name_of(path, true);
        }
    } else {
        assert(r =~= path);
        reading::lemma_name_of(path, false);
    }
    let at = reading::last_sep(r, windows);
    let n = reading::file_part(r, windows);
    assert(reading::bare(r, windows) == r);
    assert(path.skip(path.len() - n.len()) =~= n);
    assert(n[0] == r[at + 1]);
    let dir = path.take(path.len() - n.len());
    let front = r.take(at + 1);
    if at >= 0 {
        assert(at + start == k);
        assert(front.last() == r[at]);
        assert(front.drop_last() =~= r.take(at));
        if at == 0 {
            assert(reading::bare(front.drop_last(), windows).len() == 0);
            assert(front.take(1) =~= front);
            assert(path.take(start) + front =~= dir);
        } else {
            let shorter = r.take(at);
            assert(shorter.last() == path[k - 1]);
            assert(at >= 2 ==> shorter[at - 2] == path[k - 2]);
            assert(reading::bare(shorter, windows) == shorter);
            assert(path.take(start) + shorter =~= dir.drop_last());
            let p = path.take(start) + shorter;
            assert(p.last() == path[k - 1]);
            if windows && p.len() == 2 && reading::on_drive(p) {
                assert(path[0] == p[0] && path[1] == p[1]);
            }
        }
    } else {
        assert(front.len() == 0);
        assert(reading::bare(front, windows) == front);
        assert(path.take(start) + front =~= dir);
        if windows && reading::on_drive(path) {
            assert(dir[0] == path[0] && dir[1] == path[1]);
        }
    }
}

/// A path without separators is bare.
proof fn lemma_alone_is_bare(path: Seq<char>)
    requires
        reading::last_sep(path, true) < 0,
    ensures
        reading::bare(path, true) == path,
{
    reading::lemma_last_sep(path, true);
}

/// Where a result is put in the place of its source, under one reading.
proof fn lemma_beside(
    path: Seq<char>,
    windows: bool,
    suffix: Seq<char>,
    file: Seq<char>,
    out: Seq<char>,
)
    requires
        well_spelled(path),
        harmless(suffix),
        is_result(file, reading::file_name_of(path, windows), suffix),
        reading::joined_in(reading::parent_of(path, windows)->0, windows, file, out),
    ensures
        beside(path, reading::file_name_of(path, windows)->0, file, out),
{
    lemma_well_spelled(path, windows);
    let n = reading::file_name_of(path, windows)->0;
    let p = reading::parent_of(path, windows)->0;
    lemma_result_begins(n, suffix, file);
    reading::lemma_parent_of(path, windows);
    if reading::literal(p) {
        reading::lemma_beginning_not_literal(path, p);
    }
    let dir = path.take(path.len() - n.len());
    if dir.len() > 0 {
        assert(dir.drop_last().push(dir.last()) =~= dir);
    }
    if windows && reading::on_share(file) {
        assert(reading::is_sep(file[0], true));
    }
}

/// A path that has a file name under both readings, which does not look like a drive.
pub open spec fn has_name(path: Seq<char>) -> bool {
    &&& ordinary(path)
    &&& reading::file_name_of(path, false) is Some
    &&& reading::file_name_of(path, true) matches Some(n) && !reading::on_drive(n)
}

/// Whether `out` is `file` in the directory of `path`, whose file name is `name`, under one
/// reading. Where the directory is tidy, this means that `file` stands in the place of `name`.
pub open spec fn placed(
    path: Seq<char>,
    windows: bool,
    name: Seq<char>,
    file: Seq<char>,
    out: Seq<char>,
) -> bool {
    &&& reading::file_name_of(path, windows) == Some(name)
    &&& reading::parent_of(path, windows) matches Some(dir) && out == reading::appended(
        dir,
        windows,
        file,
    )
    &&& well_spelled(path) ==> beside(path, name, file, out)
}

/// Where a result goes that is put behind the parent of its source.
proof fn lemma_placed(
    path: Seq<char>,
    windows: bool,
    suffix: Seq<char>,
    file: Seq<char>,
    out: Seq<char>,
)
    requires
        has_name(path),
        harmless(suffix),
        is_result(file, reading::file_name_of(path, windows), suffix),
        reading::parent_of(path, windows) matches Some(p) ==> reading::joined_in(
            p,
            windows,
            file,
            out,
        ),
    ensures
        placed(path, windows, reading::file_name_of(path, windows)->0, file, out),
{
    let n = reading::file_name_of(path, windows)->0;
    let r = reading::rest(path, windows);
    let b = reading::bare(r, windows);
    reading::lemma_last_sep(b, windows);
    assert(b.len() > 0);
    let p = reading::parent_of(path, windows)->0;
    lemma_name_without_sep(r, windows);
    lemma_result_begins(n, suffix, file);
    assert(!reading::is_sep(n[0], windows));
    reading::lemma_parent_of(path, windows);
    if reading::literal(p) {
        reading::lemma_beginning_not_literal(path, p);
    }
    if windows && reading::on_share(file) {
        assert(reading::is_sep(file[0], true));
    }
    if well_spelled(path) {
        lemma_beside(path, windows, suffix, file, out);
    }
}

/// A cut is named `{name}_cut.{ext}` and a crop `{name}_crop.mp4`, and both stand in the
/// directory of the source. Where the name begins, and with it the directory ends, depends on
/// the platform.
pub proof fn law_results_stay_beside_source(src: Seq<char>, cut: Seq<char>, crop: Seq<char>)
    requires
        has_name(src),
        cuts_to(src, cut),
        crops_to(src, crop),
    ensures
        exists|windows: bool, n: Seq<char>| #[trigger]
            placed(src, windows, n, cut_name(Some(n)), cut),
        exists|windows: bool, n: Seq<char>| #[trigger]
            placed(src, windows, n, crop_name(Some(n)), crop),
{
    let suffix = seq!['_'];
    let (v, a) = choose|windows: bool, name: Option<Seq<char>>| #[trigger]
        reading::name_in(src, windows, name) && reading::renamed_in(
            src,
            windows,
            cut_name(name),
            cut,
        );
    lemma_placed(src, v, suffix, cut_name(a), cut);
    assert(placed(src, v, a->0, cut_name(Some(a->0)), cut));
    let (w, b) = choose|windows: bool, name: Option<Seq<char>>| #[trigger]
        reading::name_in(src, windows, name) && reading::renamed_in(
            src,
            windows,
            crop_name(name),
            crop,
        );
    lemma_placed(src, w, suffix, crop_name(b), crop);
    assert(placed(src, w, b->0, crop_name(Some(b->0)), crop));
}

/// An encoded file is named `{name}{suffix}.mp4`. It stands in the folder that was chosen, or
/// else in the directory of the input. Where the name begins, and which separator is put,
/// depends on the platform.
pub proof fn law_encode_output(
    input: Seq<char>,
    out_folder: Seq<char>,
    suffix: Seq<char>,
    output: Seq<char>,
)
    requires
        has_name(input),
        !reading::literal(out_folder),
        harmless(suffix),
        encodes_to(input, out_folder, suffix, output),
    ensures
        exists|windows: bool|
            #[trigger] reading::file_name_of(input, windows) matches Some(n) && {
                let file = encoded_name(Some(n), suffix);
                if out_folder.len() > 0 {
                    output == reading::appended(out_folder, windows, file)
                } else {
                    placed(input, windows, n, file, output)
                }
            },
{
    let (windows, name, parent) = choose|
        windows: bool,
        name: Option<Seq<char>>,
        parent: Option<Seq<char>>,
    |
        #![trigger reading::name_in(input, windows, name), reading::parent_in(input, windows, parent)]
        reading::name_in(input, windows, name) && reading::parent_in(input, windows, parent)
            && reading::joined_in(
            output_dir(out_folder, parent),
            windows,
            encoded_name(name, suffix),
            output,
        );
    assert(reading::file_name_of(input, windows) == name);
    let n = name->0;
    let file = encoded_name(name, suffix);
    lemma_name_without_sep(reading::rest(input, windows), windows);
    lemma_result_begins(n, suffix, file);
    assert(!reading::is_sep(n[0], windows));
    if out_folder.len() > 0 {
        if windows && reading::on_share(file) {
            assert(reading::is_sep(file[0], true));
        }
    } else {
        lemma_placed(input, windows, suffix, file, output);
    }
}

} // verus!
