//! The part of the picture that a crop keeps.

use vstd::prelude::*;

use crate::clock;
use crate::decimal;
use crate::progress;
use crate::text;

verus! {

/// What one stands for in a fraction.
pub const ONE: i64 = 1_000_000_000;

/// From this width or height on, a crop counts as reaching across the picture.
pub const NEARLY_ALL: i64 = 980_000_000;

/// Up to this distance, a crop counts as beginning at the edge of the picture.
pub const NEARLY_NOTHING: i64 = 20_000_000;

/// A part of the picture, each number a fraction of the picture's width or height in billionths.
#[derive(Clone, Copy, Debug, PartialEq, Eq, Structural)]
pub struct CropArea {
    pub x: i64,
    pub y: i64,
    pub w: i64,
    pub h: i64,
}

/// A part of the picture in pixels.
#[derive(Clone, Copy, Debug, PartialEq, Eq, Structural)]
pub struct PixelRect {
    pub w: i32,
    pub h: i32,
    pub x: i32,
    pub y: i32,
}

impl CropArea {
    /// The whole picture.
    pub open spec fn everything() -> CropArea {
        CropArea { x: 0, y: 0, w: ONE, h: ONE }
    }

    /// Whether the area is the whole picture, or as good as that.
    pub open spec fn covers_frame(self) -> bool {
        &&& self.w >= NEARLY_ALL
        &&& self.h >= NEARLY_ALL
        &&& self.x <= NEARLY_NOTHING
        &&& self.y <= NEARLY_NOTHING
    }

    /// The whole picture.
    pub fn whole() -> (a: CropArea)
        ensures
            a == CropArea::everything(),
    {
        CropArea { x: 0, y: 0, w: ONE, h: ONE }
    }

    /// Whether the area is the whole picture, or as good as that.
    pub fn full_frame(&self) -> (b: bool)
        ensures
            b == self.covers_frame(),
    {
        self.w >= NEARLY_ALL && self.h >= NEARLY_ALL && self.x <= NEARLY_NOTHING && self.y
            <= NEARLY_NOTHING
    }
}

/// `n / d` rounded to the nearest whole number, a tie away from zero.
pub open spec fn round_away(n: int, d: int) -> int {
    if n >= 0 {
        (2 * n + d) / (2 * d)
    } else {
        -((2 * (-n) + d) / (2 * d))
    }
}

/// `fraction` of `size`, in whole pixels.
pub open spec fn scaled(fraction: int, size: int) -> int {
    clock::clamp32(round_away(fraction * size, ONE as int))
}

/// `fraction` of `size`, in whole pixels.
pub fn scale(fraction: i64, size: i32) -> (pixels: i32)
    ensures
        pixels == scaled(fraction as int, size as int),
{
    proof {
        let f = fraction as int;
        let s = size as int;
        assert(-0x8000_0000_0000_0000 * 0x8000_0000 <= f * s <= 0x8000_0000_0000_0000 * 0x8000_0000)
            by (nonlinear_arith)
            requires
                -0x8000_0000_0000_0000 <= f <= 0x8000_0000_0000_0000,
                -0x8000_0000 <= s <= 0x8000_0000,
        ;
    }
    let n: i128 = fraction as i128 * size as i128;
    let d: i128 = ONE as i128;
    if n >= 0 {
        clock::to_i32((2 * n + d) / (2 * d))
    } else {
        clock::to_i32(-((2 * (-n) + d) / (2 * d)))
    }
}

/// The largest even number up to `n`.
pub open spec fn even_down(n: int) -> int {
    n - n % 2
}

/// The width or height that is kept, out of `full` pixels: even, at least two, at most `full`.
pub open spec fn kept_size(fraction: int, full: int) -> int {
    even_down(progress::between(scaled(fraction, full), 2, full))
}

/// Where what is kept begins: even, and such that all of `size` lies in the picture.
pub open spec fn kept_place(fraction: int, full: int, size: int) -> int {
    even_down(progress::between(scaled(fraction, full), 0, full - size))
}

/// The pixels that a crop of a picture of `width` times `height` keeps.
pub open spec fn kept(area: CropArea, width: int, height: int) -> PixelRect {
    let w = kept_size(area.w as int, width);
    let h = kept_size(area.h as int, height);
    PixelRect {
        w: w as i32,
        h: h as i32,
        x: kept_place(area.x as int, width, w) as i32,
        y: kept_place(area.y as int, height, h) as i32,
    }
}

/// `n` held between `lo` and `hi`.
fn clamp(n: i32, lo: i32, hi: i32) -> (m: i32)
    requires
        lo <= hi,
    ensures
        m == progress::between(n as int, lo as int, hi as int),
{
    if n < lo {
        lo
    } else if n > hi {
        hi
    } else {
        n
    }
}

/// The pixels that a crop of a picture of `width` times `height` keeps.
pub fn crop_rect(area: CropArea, width: i32, height: i32) -> (r: PixelRect)
    requires
        width >= 2,
        height >= 2,
    ensures
        r == kept(area, width as int, height as int),
        2 <= r.w && 2 <= r.h && 0 <= r.x && 0 <= r.y,
        r.x + r.w <= width && r.y + r.h <= height,
{
    let mut w: i32 = clamp(scale(area.w, width), 2, width);
    let mut h: i32 = clamp(scale(area.h, height), 2, height);
    w = w - w % 2;
    h = h - h % 2;
    let mut x: i32 = clamp(scale(area.x, width), 0, width - w);
    let mut y: i32 = clamp(scale(area.y, height), 0, height - h);
    x = x - x % 2;
    y = y - y % 2;
    PixelRect { w, h, x, y }
}

/// What a crop keeps lies in the picture, is not empty, and begins and ends at even places, as
/// the encoder needs it.
pub proof fn law_crop_fits(area: CropArea, width: int, height: int)
    requires
        2 <= width <= i32::MAX,
        2 <= height <= i32::MAX,
    ensures
        ({
            let r = kept(area, width, height);
            &&& 2 <= r.w
            &&& 2 <= r.h
            &&& 0 <= r.x
            &&& 0 <= r.y
            &&& r.x + r.w <= width
            &&& r.y + r.h <= height
            &&& r.w % 2 == 0 && r.h % 2 == 0 && r.x % 2 == 0 && r.y % 2 == 0
        }),
{
}

/// The whole of a picture with even sides is kept whole.
pub proof fn law_everything_is_kept(width: int, height: int)
    requires
        2 <= width <= i32::MAX,
        2 <= height <= i32::MAX,
        width % 2 == 0,
        height % 2 == 0,
    ensures
        kept(CropArea::everything(), width, height) == (PixelRect {
            w: width as i32,
            h: height as i32,
            x: 0,
            y: 0,
        }),
        CropArea::everything().covers_frame(),
{
    assert(scaled(ONE as int, width) == width);
    assert(scaled(ONE as int, height) == height);
    assert(scaled(0, width) == 0) by {
        assert(0 * width == 0);
    }
    assert(scaled(0, height) == 0) by {
        assert(0 * height == 0);
    }
}

/// A fraction of a size is shown as the nearest whole number of pixels.
pub proof fn law_scaled_is_nearest(fraction: int, size: int)
    requires
        i32::MIN * 1_000_000_000 <= fraction * size <= i32::MAX * 1_000_000_000,
    ensures
        -500_000_000 <= scaled(fraction, size) * 1_000_000_000 - fraction * size <= 500_000_000,
{
    lemma_rounded(fraction * size);
}

proof fn lemma_rounded(n: int)
    ensures
        -500_000_000 <= round_away(n, ONE as int) * 1_000_000_000 - n <= 500_000_000,
        n >= 0 ==> round_away(n, ONE as int) == (2 * n + 1_000_000_000) / 2_000_000_000,
        n < 0 ==> round_away(n, ONE as int) == -((1_000_000_000 - 2 * n) / 2_000_000_000),
{
    let d = ONE as int;
    assert(2 * d == 2_000_000_000);
}

/// A fraction that lies half-way between two pixels counts as the one further from zero, and one
/// that no picture can hold as the outermost pixel.
pub proof fn law_scaled_at_its_limits(fraction: int, size: int, k: int)
    ensures
        0 <= k < i32::MAX && 2 * (fraction * size) == (2 * k + 1) * 1_000_000_000 ==> scaled(
            fraction,
            size,
        ) == k + 1,
        0 <= k < i32::MAX && -2 * (fraction * size) == (2 * k + 1) * 1_000_000_000 ==> scaled(
            fraction,
            size,
        ) == -k - 1,
        fraction * size >= i32::MAX * 1_000_000_000 ==> scaled(fraction, size) == i32::MAX,
        fraction * size <= i32::MIN * 1_000_000_000 ==> scaled(fraction, size) == i32::MIN,
{
    lemma_rounded(fraction * size);
}

/// What a crop keeps follows the area that was drawn, each side its own fraction: where the area
/// lies in the picture, the kept place and size are at most two pixels from it. An area that is
/// narrower than two pixels has to be widened, and its place may be off by three.
pub proof fn law_crop_follows_area(area: CropArea, width: int, height: int)
    requires
        2 <= width <= i32::MAX,
        2 <= height <= i32::MAX,
        0 <= area.x && 0 <= area.w && area.x + area.w <= 1_000_000_000,
        0 <= area.y && 0 <= area.h && area.y + area.h <= 1_000_000_000,
    ensures
        ({
            let r = kept(area, width, height);
            let one: int = 1_000_000_000;
            &&& -2 * one <= r.w * one - area.w * width <= 2 * one
            &&& -2 * one <= r.h * one - area.h * height <= 2 * one
            &&& -3 * one <= r.x * one - area.x * width <= one
            &&& -3 * one <= r.y * one - area.y * height <= one
            &&& area.w * width >= 2 * one ==> -2 * one < r.x * one - area.x * width
            &&& area.h * height >= 2 * one ==> -2 * one < r.y * one - area.y * height
        }),
{
    lemma_side_follows(area.x as int, area.w as int, width);
    lemma_side_follows(area.y as int, area.h as int, height);
}

proof fn lemma_side_follows(place: int, size: int, full: int)
    requires
        2 <= full <= i32::MAX,
        0 <= place,
        0 <= size,
        place + size <= ONE,
    ensures
        ({
            let s = kept_size(size, full);
            let p = kept_place(place, full, s);
            &&& 2 <= s <= full
            &&& 0 <= p <= full - s
            &&& -2 * ONE <= s * ONE - size * full <= 2 * ONE
            &&& -3 * ONE <= p * ONE - place * full <= ONE
            &&& size * full >= 2 * ONE ==> -2 * ONE < p * ONE - place * full
        }),
{
    assert(0 <= size * full) by (nonlinear_arith)
        requires
            0 <= size,
            0 <= full,
    ;
    assert(0 <= place * full) by (nonlinear_arith)
        requires
            0 <= place,
            0 <= full,
    ;
    assert(place * full + size * full <= ONE * full) by (nonlinear_arith)
        requires
            place + size <= ONE,
            0 <= full,
    ;
    law_scaled_is_nearest(size, full);
    law_scaled_is_nearest(place, full);
}

/// The horizontal part of what is kept does not depend on the vertical part of the area, nor the
/// other way round.
pub proof fn law_sides_are_apart(a: CropArea, b: CropArea, width: int, height: int, other: int)
    ensures
        a.x == b.x && a.w == b.w ==> kept(a, width, height).x == kept(b, width, other).x && kept(
            a,
            width,
            height,
        ).w == kept(b, width, other).w,
        a.y == b.y && a.h == b.h ==> kept(a, width, height).y == kept(b, other, height).y && kept(
            a,
            width,
            height,
        ).h == kept(b, other, height).h,
{
}

/// An area that is drawn further right or down is not kept further left or up, and one that is
/// drawn larger is not kept smaller.
pub proof fn law_crop_moves_with_area(a: CropArea, b: CropArea, width: int, height: int)
    requires
        2 <= width <= i32::MAX,
        2 <= height <= i32::MAX,
    ensures
        a.w <= b.w ==> kept(a, width, height).w <= kept(b, width, height).w,
        a.h <= b.h ==> kept(a, width, height).h <= kept(b, width, height).h,
        a.w == b.w && a.x <= b.x ==> kept(a, width, height).x <= kept(b, width, height).x,
        a.h == b.h && a.y <= b.y ==> kept(a, width, height).y <= kept(b, width, height).y,
        a.x <= 0 ==> kept(a, width, height).x == 0,
        a.y <= 0 ==> kept(a, width, height).y == 0,
{
    lemma_scaled_in_order(a.w as int, b.w as int, width);
    lemma_scaled_in_order(a.h as int, b.h as int, height);
    lemma_scaled_in_order(a.x as int, b.x as int, width);
    lemma_scaled_in_order(a.y as int, b.y as int, height);
    lemma_scaled_in_order(a.x as int, 0, width);
    lemma_scaled_in_order(a.y as int, 0, height);
    assert(0 * width == 0 && 0 * height == 0);
    lemma_rounded(0);
}

/// An area that reaches past the picture is cut off at its edges: what is wider keeps all but at
/// most one pixel, what is empty keeps two, and what begins past the end is kept at the end.
pub proof fn law_crop_past_the_edges(area: CropArea, width: int, height: int)
    requires
        2 <= width <= i32::MAX,
        2 <= height <= i32::MAX,
    ensures
        ({
            let r = kept(area, width, height);
            &&& area.w >= 1_000_000_000 ==> r.w >= width - 1
            &&& area.h >= 1_000_000_000 ==> r.h >= height - 1
            &&& area.w <= 0 ==> r.w == 2
            &&& area.h <= 0 ==> r.h == 2
            &&& area.x >= 1_000_000_000 ==> r.x + r.w >= width - 1
            &&& area.y >= 1_000_000_000 ==> r.y + r.h >= height - 1
        }),
{
    lemma_scaled_in_order(ONE as int, area.w as int, width);
    lemma_scaled_in_order(ONE as int, area.h as int, height);
    lemma_scaled_in_order(ONE as int, area.x as int, width);
    lemma_scaled_in_order(ONE as int, area.y as int, height);
    lemma_scaled_in_order(area.w as int, 0, width);
    lemma_scaled_in_order(area.h as int, 0, height);
    lemma_rounded(ONE * width);
    lemma_rounded(ONE * height);
    assert(scaled(ONE as int, width) == width);
    assert(scaled(ONE as int, height) == height);
    assert(0 * width == 0 && 0 * height == 0);
    lemma_rounded(0);
}

proof fn lemma_scaled_in_order(a: int, b: int, size: int)
    requires
        0 <= size,
    ensures
        a <= b ==> scaled(a, size) <= scaled(b, size),
{
    if a <= b {
        assert(a * size <= b * size) by (nonlinear_arith)
            requires
                a <= b,
                0 <= size,
        ;
        lemma_rounded(a * size);
        lemma_rounded(b * size);
    }
}

/// An area counts as the whole frame if and only if it is at least 98 of 100 wide and high, and
/// begins within 2 of 100 of the left and upper edges.
pub proof fn law_whole_frame(area: CropArea)
    ensures
        area.covers_frame() <==> {
            &&& area.w * 100 >= 98 * 1_000_000_000
            &&& area.h * 100 >= 98 * 1_000_000_000
            &&& area.x * 100 <= 2 * 1_000_000_000
            &&& area.y * 100 <= 2 * 1_000_000_000
        },
{
}

/// The filter gives FFmpeg the width, the height and the place of what is kept, in this order,
/// with colons between them.
pub proof fn law_filter_reads_back(r: PixelRect)
    requires
        0 <= r.w && 0 <= r.h && 0 <= r.x && 0 <= r.y,
    ensures
        filter(r).take(5) == "crop="@,
        ({
            let parts = text::split(filter(r).skip(5), ':');
            &&& parts.len() == 4
            &&& forall|i: int| 0 <= i < 4 ==> decimal::all_digits(#[trigger] parts[i])
            &&& decimal::value(parts[0]) == r.w
            &&& decimal::value(parts[1]) == r.h
            &&& decimal::value(parts[2]) == r.x
            &&& decimal::value(parts[3]) == r.y
        }),
{
    reveal_strlit("crop=");
    reveal_strlit(":");
    let w = decimal::signed_decimal(r.w as int);
    let h = decimal::signed_decimal(r.h as int);
    let x = decimal::signed_decimal(r.x as int);
    let y = decimal::signed_decimal(r.y as int);
    decimal::law_sign(r.w as int);
    decimal::law_sign(r.h as int);
    decimal::law_sign(r.x as int);
    decimal::law_sign(r.y as int);
    lemma_no_colon(w);
    lemma_no_colon(h);
    lemma_no_colon(x);
    lemma_no_colon(y);
    assert(filter(r).take(5) =~= "crop="@);
    assert(":"@ =~= seq![':']);
    let rest = filter(r).skip(5);
    assert(rest =~= w.push(':') + (h.push(':') + (x.push(':') + y)));
    text::law_split_at_first(w, ':', h.push(':') + (x.push(':') + y));
    text::law_split_at_first(h, ':', x.push(':') + y);
    text::law_split_at_first(x, ':', y);
    text::lemma_split_clean(y, ':', ':');
    assert(text::split(rest, ':') =~= seq![w, h, x, y]);
}

proof fn lemma_no_colon(s: Seq<char>)
    requires
        decimal::all_digits(s),
    ensures
        !s.contains(':'),
{
    assert forall|i: int| 0 <= i < s.len() implies s[i] != ':' by {
        assert(decimal::is_digit(s[i]));
    }
}

/// FFmpeg's filter that keeps `r`.
pub open spec fn filter(r: PixelRect) -> Seq<char> {
    "crop="@ + decimal::signed_decimal(r.w as int) + ":"@ + decimal::signed_decimal(r.h as int)
        + ":"@ + decimal::signed_decimal(r.x as int) + ":"@ + decimal::signed_decimal(r.y as int)
}

/// FFmpeg's filter that keeps `r`.
pub fn crop_filter(r: PixelRect) -> (s: String)
    ensures
        s@ == filter(r),
{
    let mut s = "crop=".to_owned();
    decimal::push_signed(&mut s, r.w as i64);
    s.append(":");
    decimal::push_signed(&mut s, r.h as i64);
    s.append(":");
    decimal::push_signed(&mut s, r.x as i64);
    s.append(":");
    decimal::push_signed(&mut s, r.y as i64);
    s
}

/// `{width}x{height}`
pub open spec fn size_text(width: int, height: int) -> Seq<char> {
    decimal::signed_decimal(width) + "x"@ + decimal::signed_decimal(height)
}

/// The width and the height of a picture read back out of its size, in this order.
pub proof fn law_size_reads_back(width: nat, height: nat)
    ensures
        ({
            let parts = text::split(size_text(width as int, height as int), 'x');
            &&& parts.len() == 2
            &&& decimal::all_digits(parts[0]) && decimal::value(parts[0]) == width
            &&& decimal::all_digits(parts[1]) && decimal::value(parts[1]) == height
        }),
{
    reveal_strlit("x");
    let w = decimal::decimal(width);
    let h = decimal::decimal(height);
    decimal::lemma_decimal_roundtrip(width);
    decimal::lemma_decimal_roundtrip(height);
    assert(size_text(width as int, height as int) =~= w.push('x') + h);
    assert forall|i: int| 0 <= i < w.len() implies w[i] != 'x' by {
        assert(decimal::is_digit(w[i]));
    }
    assert forall|i: int| 0 <= i < h.len() implies h[i] != 'x' by {
        assert(decimal::is_digit(h[i]));
    }
    text::law_split_at_first(w, 'x', h);
    text::lemma_split_clean(h, 'x', 'x');
    assert(text::split(size_text(width as int, height as int), 'x') =~= seq![w, h]);
}

/// Appends `{width}x{height}`.
pub fn push_size(out: &mut String, width: i32, height: i32)
    ensures
        final(out)@ == old(out)@ + size_text(width as int, height as int),
{
    decimal::push_signed(out, width as i64);
    out.append("x");
    decimal::push_signed(out, height as i64);
    assert(out@ =~= old(out)@ + size_text(width as int, height as int));
}

/// What the user is told of an area as it is drawn.
pub open spec fn area_line(area: CropArea, width: int, height: int) -> Seq<char> {
    let w = scaled(area.w as int, width);
    let h = scaled(area.h as int, height);
    "크롭: x="@ + decimal::signed_decimal(scaled(area.x as int, width)) + " y="@
        + decimal::signed_decimal(scaled(area.y as int, height)) + " 크기="@ + size_text(
        if w < 0 {
            0
        } else {
            w
        },
        if h < 0 {
            0
        } else {
            h
        },
    ) + " (전체 "@ + size_text(width, height) + ")"@
}

/// The line on an area shows the pixels that are nearest to its fractions, each in its own place,
/// and the size of the picture.
pub proof fn law_area_line_shows_nearest(
    area: CropArea,
    width: int,
    height: int,
    x: int,
    y: int,
    w: int,
    h: int,
)
    requires
        0 <= width <= i32::MAX,
        0 <= height <= i32::MAX,
        0 <= area.x <= 1_000_000_000 && 0 <= area.w <= 1_000_000_000,
        0 <= area.y <= 1_000_000_000 && 0 <= area.h <= 1_000_000_000,
        -500_000_000 < x * 1_000_000_000 - area.x * width < 500_000_000,
        -500_000_000 < y * 1_000_000_000 - area.y * height < 500_000_000,
        -500_000_000 < w * 1_000_000_000 - area.w * width < 500_000_000,
        -500_000_000 < h * 1_000_000_000 - area.h * height < 500_000_000,
    ensures
        area_line(area, width, height) == "크롭: x="@ + decimal::decimal(x as nat) + " y="@
            + decimal::decimal(y as nat) + " 크기="@ + decimal::decimal(w as nat) + "x"@
            + decimal::decimal(h as nat) + " (전체 "@ + decimal::decimal(width as nat) + "x"@
            + decimal::decimal(height as nat) + ")"@,
{
    lemma_nearest_is_unique(area.x as int, width, x);
    lemma_nearest_is_unique(area.y as int, height, y);
    lemma_nearest_is_unique(area.w as int, width, w);
    lemma_nearest_is_unique(area.h as int, height, h);
    assert(area_line(area, width, height) =~= "크롭: x="@ + decimal::decimal(x as nat) + " y="@
        + decimal::decimal(y as nat) + " 크기="@ + decimal::decimal(w as nat) + "x"@
        + decimal::decimal(h as nat) + " (전체 "@ + decimal::decimal(width as nat) + "x"@
        + decimal::decimal(height as nat) + ")"@);
}

/// An area whose width or height is negative is shown as one that is empty.
pub proof fn law_negative_area_shows_empty(a: CropArea, b: CropArea, width: int, height: int)
    requires
        0 <= width,
        0 <= height,
        a.x == b.x && a.y == b.y,
        a.w == b.w || a.w <= 0 && b.w == 0,
        a.h == b.h || a.h <= 0 && b.h == 0,
    ensures
        area_line(a, width, height) == area_line(b, width, height),
{
    lemma_scaled_in_order(a.w as int, 0, width);
    lemma_scaled_in_order(a.h as int, 0, height);
    assert(0 * width == 0 && 0 * height == 0);
    lemma_rounded(0);
}

proof fn lemma_nearest_is_unique(fraction: int, size: int, pixels: int)
    requires
        0 <= size <= i32::MAX,
        0 <= fraction <= ONE,
        -500_000_000 < pixels * ONE - fraction * size < 500_000_000,
    ensures
        scaled(fraction, size) == pixels,
        0 <= pixels,
{
    assert(0 <= fraction * size <= ONE * size) by (nonlinear_arith)
        requires
            0 <= size,
            0 <= fraction <= ONE,
    ;
    law_scaled_is_nearest(fraction, size);
}

/// What the user is told of an area as it is drawn.
pub fn area_text(area: CropArea, width: i32, height: i32) -> (s: String)
    ensures
        s@ == area_line(area, width as int, height as int),
{
    let w: i32 = scale(area.w, width);
    let h: i32 = scale(area.h, height);
    let mut s = "크롭: x=".to_owned();
    decimal::push_signed(&mut s, scale(area.x, width) as i64);
    s.append(" y=");
    decimal::push_signed(&mut s, scale(area.y, height) as i64);
    s.append(" 크기=");
    push_size(
        &mut s,
        if w < 0 {
            0
        } else {
            w
        },
        if h < 0 {
            0
        } else {
            h
        },
    );
    s.append(" (전체 ");
    push_size(&mut s, width, height);
    s.append(")");
    s
}

/// What the user is told while the whole picture is kept.
pub open spec fn whole_line(width: int, height: int) -> Seq<char> {
    "크롭 영역: 전체 ("@ + size_text(width, height) + ")"@
}

/// The line on the whole picture shows its size between brackets, at its end.
pub proof fn law_whole_line_shows_size(width: int, height: int)
    ensures
        ({
            let line = whole_line(width, height);
            let size = size_text(width, height);
            &&& line.len() >= size.len() + 2
            &&& line.last() == ')'
            &&& line[line.len() - size.len() - 2] == '('
            &&& line.subrange(line.len() - size.len() - 1, line.len() - 1) == size
        }),
{
    let line = whole_line(width, height);
    let size = size_text(width, height);
    reveal_strlit("크롭 영역: 전체 (");
    reveal_strlit(")");
    assert(line.subrange(line.len() - size.len() - 1, line.len() - 1) =~= size);
}

/// What the user is told while the whole picture is kept.
pub fn whole_text(width: i32, height: i32) -> (s: String)
    ensures
        s@ == whole_line(width as int, height as int),
{
    let mut s = "크롭 영역: 전체 (".to_owned();
    push_size(&mut s, width, height);
    s.append(")");
    s
}

} // verus!
