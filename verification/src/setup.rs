//! Where the tools are found, and what the options are to begin with.

use vstd::prelude::*;

use crate::log;
use crate::reading;

verus! {

/// A tool in the directory of the program comes before one that the system knows of.
pub open spec fn preferred(beside: Option<Seq<char>>, on_path: Option<Seq<char>>) -> Option<
    Seq<char>,
> {
    match beside {
        Some(p) => Some(p),
        None => on_path,
    }
}

/// A tool beside the program is taken whatever the system knows of; only without one does it
/// matter what that is.
pub proof fn law_nearer_tool_wins(
    near: Seq<char>,
    on_path: Option<Seq<char>>,
    other: Option<Seq<char>>,
)
    ensures
        preferred(Some(near), on_path) == Some(near),
        preferred(Some(near), on_path) == preferred(Some(near), other),
        preferred(None, on_path) == on_path,
{
}

/// Where FFmpeg is; empty if it is nowhere. `beside` is where it lies next to the program, and
/// `on_path` where the system's search path has it.
pub fn find_ffmpeg(beside: Option<String>, on_path: Option<String>) -> (path: String)
    ensures
        path@ == (match preferred(log::text_of(beside), log::text_of(on_path)) {
            Some(p) => p,
            None => Seq::<char>::empty(),
        }),
{
    match beside {
        Some(p) => p,
        None => match on_path {
            Some(p) => p,
            None => String::new(),
        },
    }
}

/// Where a tool of this name is looked for first: beside FFmpeg.
pub fn tool_beside(ffmpeg: &str, name: &str) -> (path: String)
    ensures
        reading::is_renamed(ffmpeg@, name@, path@),
{
    reading::with_file_name(ffmpeg, name)
}

/// Where FFplay is, which the preview needs for its sound; without it the preview is silent.
/// `beside` is where it lies next to FFmpeg, and `on_path` where the system's search path has it.
pub fn find_ffplay(beside: Option<String>, on_path: Option<String>) -> (path: Option<String>)
    ensures
        log::text_of(path) == preferred(log::text_of(beside), log::text_of(on_path)),
{
    match beside {
        Some(p) => Some(p),
        None => on_path,
    }
}

/// The options of a batch.
#[derive(Debug)]
pub struct EncodeOptions {
    /// What is put behind the name of an encoded file.
    pub suffix: String,
    /// The quality: the lower, the better.
    pub crf: i32,
    /// Where encoded files go; beside their inputs if it is empty.
    pub folder: String,
}

impl EncodeOptions {
    /// The options to begin with.
    pub fn reset() -> (o: EncodeOptions)
        ensures
            o.suffix@ == "_h265"@,
            o.crf == 19,
            o.folder@ == Seq::<char>::empty(),
    {
        EncodeOptions { suffix: "_h265".to_owned(), crf: 19, folder: String::new() }
    }
}

} // verus!
