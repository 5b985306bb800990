//! Preview pictures: which of them are asked for, and how they are decoded.

use vstd::prelude::*;

use crate::clock::Seconds;

verus! {

/// What the requester knows: whether a picture is being taken, and the time for which the next
/// one is wanted.
#[verifier::ext_equal]
pub struct Requests {
    pub busy: bool,
    pub pending: Option<Seconds>,
}

impl Requests {
    /// A picture is waited for only while another one is being taken.
    pub open spec fn wf(self) -> bool {
        self.pending is Some ==> self.busy
    }

    /// The picture at `t` has been asked for.
    pub open spec fn after_request(self, t: Seconds) -> Requests {
        if self.busy {
            Requests { pending: Some(t), ..self }
        } else {
            Requests { busy: true, ..self }
        }
    }

    /// Pictures have been asked for, one after the other.
    pub open spec fn after_requests(self, times: Seq<Seconds>) -> Requests
        decreases times.len(),
    {
        if times.len() == 0 {
            self
        } else {
            self.after_requests(times.drop_last()).after_request(times.last())
        }
    }

    /// The picture that was being taken is there.
    pub open spec fn after_done(self) -> Requests {
        Requests { busy: self.pending is Some, pending: None }
    }
}

/// Takes one picture at a time. What is asked for meanwhile waits, and only the newest of it.
#[derive(Debug)]
pub struct FrameRequester {
    busy: bool,
    pending: Option<Seconds>,
}

impl View for FrameRequester {
    type V = Requests;

    closed spec fn view(&self) -> Requests {
        Requests { busy: self.busy, pending: self.pending }
    }
}

impl FrameRequester {
    /// Nothing has been asked for.
    pub fn new() -> (r: FrameRequester)
        ensures
            r@ == (Requests { busy: false, pending: None }),
            r@.wf(),
    {
        FrameRequester { busy: false, pending: None }
    }

    /// Asks for the picture at `t`. Hands out the time whose picture is to be taken now, if none
    /// is being taken.
    pub fn request(&mut self, t: Seconds) -> (now: Option<Seconds>)
        ensures
            final(self)@ == old(self)@.after_request(t),
            now == (if old(self)@.busy {
                None
            } else {
                Some(t)
            }),
    {
        if self.busy {
            self.pending = Some(t);
            None
        } else {
            self.busy = true;
            Some(t)
        }
    }

    /// The picture that was being taken is there, or could not be had. Hands out the time whose
    /// picture is to be taken next.
    pub fn done(&mut self) -> (next: Option<Seconds>)
        ensures
            final(self)@ == old(self)@.after_done(),
            next == old(self)@.pending,
    {
        let next = self.pending;
        self.pending = None;
        self.busy = next.is_some();
        next
    }
}

/// A picture waits only while another one is being taken: every step keeps this.
pub proof fn law_requests_stay_wf(r: Requests, t: Seconds)
    requires
        r.wf(),
    ensures
        r.after_request(t).wf(),
        r.after_done().wf(),
{
}

/// Of all that is asked for while a picture is being taken, the newest is taken next, and it is
/// the only one that is.
pub proof fn law_newest_request_wins(r: Requests, times: Seq<Seconds>)
    requires
        r.busy,
    ensures
        r.after_requests(times).busy,
        r.after_requests(times).pending == (if times.len() > 0 {
            Some(times.last())
        } else {
            r.pending
        }),
    decreases times.len(),
{
    if times.len() > 0 {
        law_newest_request_wins(r, times.drop_last());
    }
}

/// A request at rest is served at once, and leaves nothing to wait; what waits is never lost.
pub proof fn law_request_is_served(r: Requests, t: Seconds)
    requires
        r.wf(),
    ensures
        !r.busy ==> r.after_request(t) == (Requests { busy: true, pending: None }),
        r.busy ==> r.after_request(t).after_done() == (Requests { busy: true, pending: None }),
{
}

/// Once a picture is there and nothing newer was asked for, the next request is served at once.
pub proof fn law_requester_comes_to_rest(r: Requests)
    ensures
        r.pending is None ==> !r.after_done().busy,
        r.after_done().pending is None,
        !r.after_done().after_done().busy,
{
}

/// Why there is no picture.
#[derive(Debug)]
pub enum FrameError {
    /// FFmpeg gave none.
    NoPicture,
    /// What FFmpeg gave could not be decoded, for this reason.
    Decode(String),
}

impl FrameError {
    /// Why there is no picture, in words.
    pub open spec fn reason(self) -> Seq<char> {
        match self {
            FrameError::NoPicture =>
                "프레임 추출 실패 (시간이 영상 끝을 벗어났을 수 있습니다)"@,
            FrameError::Decode(text) => text@,
        }
    }

    /// What the user is told.
    pub fn status(&self) -> (s: String)
        ensures
            s@ == "프레임 추출 실패: "@ + self.reason(),
    {
        frame_failed_status(
            match self {
                FrameError::NoPicture =>
                    "프레임 추출 실패 (시간이 영상 끝을 벗어났을 수 있습니다)",
                FrameError::Decode(text) => text.as_str(),
            },
        )
    }
}

/// What the user is told when there is no picture, for whatever reason.
pub fn frame_failed_status(reason: &str) -> (s: String)
    ensures
        s@ == "프레임 추출 실패: "@ + reason@,
{
    let mut s = "프레임 추출 실패: ".to_owned();
    s.append(reason);
    s
}

/// The picture that FFmpeg wrote to its standard output, if it wrote one.
pub fn extract_frame(stdout: Vec<u8>) -> (png: Result<Vec<u8>, FrameError>)
    ensures
        match png {
            Ok(bytes) => stdout@.len() > 0 && bytes@ == stdout@,
            Err(e) => stdout@.len() == 0 && e is NoPicture,
        },
{
    if stdout.len() == 0 {
        Err(FrameError::NoPicture)
    } else {
        Ok(stdout)
    }
}

/// What the image decoder makes of some bytes: the pixels, the width and the height, or why there
/// are none.
pub uninterp spec fn decoded_image(bytes: Seq<u8>) -> Result<(Seq<u8>, u32, u32), Seq<char>>;

/// Calls `image::load_from_memory` and `DynamicImage::to_rgba8`, and turns the error into its text.
/// The result is a function of the bytes alone; a picture has four bytes for each pixel.
#[verifier::external_body]
pub(crate) fn load_rgba(bytes: &[u8]) -> (image: Result<(Vec<u8>, u32, u32), String>)
    ensures
        match image {
            Ok((pixels, w, h)) => decoded_image(bytes@) == Ok::<(Seq<u8>, u32, u32), Seq<char>>(
                (pixels@, w, h),
            ) && pixels@.len() == 4 * w * h,
            Err(text) => decoded_image(bytes@) == Err::<(Seq<u8>, u32, u32), Seq<char>>(text@),
        },
{
    match image::load_from_memory(bytes) {
        Ok(image) => {
            let rgba = image.to_rgba8();
            let (w, h) = (rgba.width(), rgba.height());
            Ok((rgba.into_raw(), w, h))
        },
        Err(e) => Err(e.to_string()),
    }
}

/// Decodes a picture: its pixels in RGBA order, its width and its height.
pub fn decode_png_rgba(png: &[u8]) -> (image: Result<(Vec<u8>, u32, u32), FrameError>)
    ensures
        match (image, decoded_image(png@)) {
            (Ok((pixels, w, h)), Ok(d)) => (pixels@, w, h) == d && pixels@.len() == 4 * w * h,
            (Err(FrameError::Decode(text)), Err(d)) => text@ == d,
            _ => false,
        },
{
    match load_rgba(png) {
        Ok(image) => Ok(image),
        Err(text) => Err(FrameError::Decode(text)),
    }
}

} // verus!
