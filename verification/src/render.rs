use vstd::prelude::*;

use crate::error::Error;
use crate::types::{ResolvedDesign, StitchSegment};

verus! {

/// A premultiplied color channel turned back to straight alpha: the integer
/// part of `c * 255 / a`, at most 255.
pub open spec fn straight_channel(c: u8, a: u8) -> u8 {
    let v = c * 255 / (a as int);
    if v > 255 {
        255
    } else {
        v as u8
    }
}

/// One premultiplied RGBA pixel in straight alpha: a clear pixel becomes all
/// zero, an opaque one stays, others have their colors divided by alpha.
pub open spec fn straight_pixel(r: u8, g: u8, b: u8, a: u8) -> Seq<u8> {
    if a == 0 {
        seq![0u8, 0u8, 0u8, 0u8]
    } else if a == 255 {
        seq![r, g, b, a]
    } else {
        seq![straight_channel(r, a), straight_channel(g, a), straight_channel(b, a), a]
    }
}

/// Premultiplied RGBA pixels in straight alpha; trailing bytes that do not
/// make a whole pixel are dropped.
pub open spec fn straight_alpha(src: Seq<u8>) -> Seq<u8>
    decreases src.len(),
{
    if src.len() < 4 {
        Seq::empty()
    } else {
        straight_pixel(src[0], src[1], src[2], src[3]) + straight_alpha(src.skip(4))
    }
}

/// The PNG file of a `width` x `height` 8-bit RGBA image.
pub uninterp spec fn png_rgba8(width: u32, height: u32, pixels: Seq<u8>) -> Seq<u8>;

/// `png::Encoder` writing an 8-bit RGBA image into a new buffer: `new`,
/// `set_color(Rgba)`, `set_depth(Eight)`, `write_header`, `write_image_data`.
///
/// Claimed: a success holds `png_rgba8` of the arguments; the call fails
/// exactly on a zero width or height, or on pixel data of another length
/// than `4 * width * height` (writing into a `Vec` cannot fail).
#[verifier::external_body]
fn encode_rgba8(width: u32, height: u32, pixels: &[u8]) -> (r: Result<
    Vec<u8>,
    png::EncodingError,
>)
    requires
        width * height * 4 <= usize::MAX,
    ensures
        r matches Ok(bytes) ==> bytes@ == png_rgba8(width, height, pixels@),
        width == 0 || height == 0 || pixels@.len() != width * height * 4 ==> r is Err,
        width > 0 && height > 0 && pixels@.len() == width * height * 4 ==> r is Ok,
{
    let mut buf = Vec::new();
    {
        let mut encoder = png::Encoder::new(&mut buf, width, height);
        encoder.set_color(png::ColorType::Rgba);
        encoder.set_depth(png::BitDepth::Eight);
        let mut writer = encoder.write_header()?;
        writer.write_image_data(pixels)?;
    }
    Ok(buf)
}

/// One channel of a pixel whose alpha lies strictly between 0 and 255.
fn unpremultiply_channel(c: u8, a: u8) -> (v: u8)
    requires
        a > 0,
    ensures
        v == straight_channel(c, a),
{
    let q: u32 = c as u32 * 255 / a as u32;
    if q > 255 {
        255
    } else {
        q as u8
    }
}

/// Straight alpha keeps the length of whole pixels.
pub proof fn lemma_straight_alpha_len(src: Seq<u8>)
    ensures
        straight_alpha(src).len() == src.len() - src.len() % 4,
    decreases src.len(),
{
    if src.len() >= 4 {
        lemma_straight_alpha_len(src.skip(4));
    }
}

/// Convert premultiplied RGBA pixels to straight alpha.
pub fn unpremultiply(src: &[u8]) -> (out: Vec<u8>)
    ensures
        out@ == straight_alpha(src@),
{
    let mut data: Vec<u8> = Vec::new();
    let n = src.len();
    let mut i: usize = 0;
    assert(src@.skip(0) =~= src@);
    assert(data@ + straight_alpha(src@) =~= straight_alpha(src@));
    while n - i >= 4
        invariant
            n == src@.len(),
            i <= n,
            straight_alpha(src@) == data@ + straight_alpha(src@.skip(i as int)),
        decreases n - i,
    {
        let r = src[i];
        let g = src[i + 1];
        let b = src[i + 2];
        let a = src[i + 3];
        let ghost before = data@;
        if a == 0 {
            data.push(0);
            data.push(0);
            data.push(0);
            data.push(0);
        } else if a == 255 {
            data.push(r);
            data.push(g);
            data.push(b);
            data.push(a);
        } else {
            data.push(unpremultiply_channel(r, a));
            data.push(unpremultiply_channel(g, a));
            data.push(unpremultiply_channel(b, a));
            data.push(a);
        }
        proof {
            let rest = src@.skip(i as int);
            assert(rest[0] == r && rest[1] == g && rest[2] == b && rest[3] == a);
            assert(rest.skip(4) =~= src@.skip(i + 4));
            assert(data@ =~= before + straight_pixel(r, g, b, a));
            assert(before + straight_alpha(rest) =~= data@ + straight_alpha(src@.skip(i + 4)));
        }
        i = i + 4;
    }
    assert(data@ + Seq::<u8>::empty() =~= data@);
    data
}

/// Encode `width` x `height` premultiplied RGBA pixels as a PNG, converting
/// from premultiplied to straight alpha.
pub fn encode_png(width: u32, height: u32, premultiplied: &[u8]) -> (r: Result<Vec<u8>, Error>)
    requires
        width * height * 4 <= usize::MAX,
    ensures
        r matches Ok(bytes) ==> bytes@ == png_rgba8(width, height, straight_alpha(premultiplied@)),
        r is Err ==> r matches Err(Error::PngEncode(_)),
        width == 0 || height == 0 || premultiplied@.len() - premultiplied@.len() % 4 != width
            * height * 4 ==> r is Err,
        width > 0 && height > 0 && premultiplied@.len() - premultiplied@.len() % 4 == width
            * height * 4 ==> r is Ok,
{
    let data = unpremultiply(premultiplied);
    proof {
        lemma_straight_alpha_len(premultiplied@);
    }
    match encode_rgba8(width, height, data.as_slice()) {
        Ok(buf) => Ok(buf),
        Err(e) => Err(Error::PngEncode(e)),
    }
}

// ---------------------------------------------------------------------------
// Drawing order
// ---------------------------------------------------------------------------

/// The positions, in order, of the segments of thread `ci` among the first
/// `n` of `segs`.
pub open spec fn thread_segments(segs: Seq<StitchSegment>, ci: int, n: int) -> Seq<usize>
    decreases n,
{
    if n <= 0 {
        Seq::empty()
    } else if segs[n - 1].color_index == ci {
        thread_segments(segs, ci, n - 1).push((n - 1) as usize)
    } else {
        thread_segments(segs, ci, n - 1)
    }
}

/// The highest thread number among the first `n` of `segs`, 0 when there is
/// none.
pub open spec fn highest_thread(segs: Seq<StitchSegment>, n: int) -> int
    decreases n,
{
    if n <= 0 {
        0
    } else if segs[n - 1].color_index > highest_thread(segs, n - 1) {
        segs[n - 1].color_index as int
    } else {
        highest_thread(segs, n - 1)
    }
}

/// The color of thread `ci`, black past the end of the color list.
pub open spec fn thread_color(colors: Seq<(u8, u8, u8)>, ci: int) -> (u8, u8, u8) {
    if 0 <= ci < colors.len() {
        colors[ci]
    } else {
        (0u8, 0u8, 0u8)
    }
}

/// The segments of one thread, drawn together in one color.
pub struct StrokeGroup {
    pub color_index: usize,
    pub color: (u8, u8, u8),
    pub segments: Vec<usize>,
}

/// The mathematical value of a stroke group.
pub struct StrokeGroupView {
    pub color_index: int,
    pub color: (u8, u8, u8),
    pub segments: Seq<usize>,
}

impl View for StrokeGroup {
    type V = StrokeGroupView;

    open spec fn view(&self) -> StrokeGroupView {
        StrokeGroupView {
            color_index: self.color_index as int,
            color: self.color,
            segments: self.segments@,
        }
    }
}

/// The views of a list of stroke groups.
pub open spec fn group_views(g: Seq<StrokeGroup>) -> Seq<StrokeGroupView> {
    g.map_values(|x: StrokeGroup| x@)
}

/// The stroke groups of threads `0..k`: one per thread that has segments, in
/// thread order.
pub open spec fn stroke_groups_upto(
    segs: Seq<StitchSegment>,
    colors: Seq<(u8, u8, u8)>,
    k: int,
) -> Seq<StrokeGroupView>
    decreases k,
{
    if k <= 0 {
        Seq::empty()
    } else if thread_segments(segs, k - 1, segs.len() as int).len() > 0 {
        stroke_groups_upto(segs, colors, k - 1).push(
            StrokeGroupView {
                color_index: k - 1,
                color: thread_color(colors, k - 1),
                segments: thread_segments(segs, k - 1, segs.len() as int),
            },
        )
    } else {
        stroke_groups_upto(segs, colors, k - 1)
    }
}

/// The order in which a design is drawn: thread by thread, from 0 up to the
/// highest thread a segment uses, each thread that has segments in its color
/// (black past the end of the color list), its segments in list order.
pub open spec fn stroke_plan(segs: Seq<StitchSegment>, colors: Seq<(u8, u8, u8)>) -> Seq<
    StrokeGroupView,
> {
    stroke_groups_upto(segs, colors, highest_thread(segs, segs.len() as int) + 1)
}

/// The positions of the segments of thread `ci` in `segs`.
fn segments_of_thread(segs: &Vec<StitchSegment>, ci: usize) -> (r: Vec<usize>)
    ensures
        r@ == thread_segments(segs@, ci as int, segs@.len() as int),
{
    let mut r: Vec<usize> = Vec::new();
    let mut j: usize = 0;
    while j < segs.len()
        invariant
            j <= segs@.len(),
            r@ == thread_segments(segs@, ci as int, j as int),
        decreases segs@.len() - j,
    {
        if segs[j].color_index == ci {
            r.push(j);
        }
        j = j + 1;
    }
    r
}

/// Group the segments of a design by thread, in the order they are drawn.
pub fn stroke_groups(design: &ResolvedDesign) -> (g: Vec<StrokeGroup>)
    ensures
        group_views(g@) == stroke_plan(design.segments@, design.colors@),
{
    let segs = &design.segments;
    let colors = &design.colors;
    let mut highest: usize = 0;
    let mut j: usize = 0;
    while j < segs.len()
        invariant
            j <= segs@.len(),
            highest == highest_thread(segs@, j as int),
        decreases segs@.len() - j,
    {
        if segs[j].color_index > highest {
            highest = segs[j].color_index;
        }
        j = j + 1;
    }
    let mut groups: Vec<StrokeGroup> = Vec::new();
    let mut ci: usize = 0;
    loop
        invariant_except_break
            ci <= highest,
            highest == highest_thread(segs@, segs@.len() as int),
            group_views(groups@) == stroke_groups_upto(segs@, colors@, ci as int),
        ensures
            group_views(groups@) == stroke_groups_upto(segs@, colors@, highest + 1),
        decreases highest - ci,
    {
        let idx = segments_of_thread(segs, ci);
        let ghost before = groups@;
        if idx.len() > 0 {
            let color = if ci < colors.len() {
                colors[ci]
            } else {
                (0u8, 0u8, 0u8)
            };
            groups.push(StrokeGroup { color_index: ci, color, segments: idx });
            assert(group_views(groups@) =~= group_views(before).push(groups@.last()@));
        }
        if ci == highest {
            break ;
        }
        ci = ci + 1;
    }
    groups
}

} // verus!
