//! The dominant colours of a raw pixel buffer.
use vstd::prelude::*;
use crate::rgb::Rgb;

verus! {

/// The layout of a raw pixel buffer.
#[derive(Debug, Clone, Copy, PartialEq, Eq, Structural)]
pub enum PixelFormat {
    /// Three bytes for each pixel: red, green, blue.
    Rgb,
    /// Four bytes for each pixel: red, green, blue, alpha.
    Rgba,
}

/// The longest buffer, for each step of the quality, that is handed to the
/// outside quantizer, whose sums over the pixels that it samples are 32 bits
/// wide.
pub const MAX_BUFFER: usize = 64_000_000;

/// The longest buffer of which a scheme or a palette is made.
pub const MAX_IMAGE_BUFFER: usize = 640_000_000;

/// The colours that `color_thief::get_palette` gives for a buffer, or `None`
/// where it fails.
pub uninterp spec fn thief_colors(
    buffer: Seq<u8>,
    has_alpha: bool,
    quality: u8,
    max_colors: u8,
) -> Option<Seq<(u8, u8, u8)>>;

/// The channels of a sequence of colours.
pub open spec fn channels(colors: Seq<Rgb>) -> Seq<(u8, u8, u8)> {
    Seq::new(colors.len(), |i: int| (colors[i].r, colors[i].g, colors[i].b))
}

/// The colours of a sequence of channels.
pub open spec fn as_colors(channels: Seq<(u8, u8, u8)>) -> Seq<Rgb> {
    Seq::new(channels.len(), |i: int| Rgb { r: channels[i].0, g: channels[i].1, b: channels[i].2 })
}

/// The dominant colours of a buffer, or `None` where none can be had.
pub open spec fn dominant(buffer: Seq<u8>, format: PixelFormat, quality: u8, max_colors: u8) -> Option<
    Seq<Rgb>,
> {
    match thief_colors(buffer, format == PixelFormat::Rgba, quality, max_colors) {
        Some(channels) => Some(as_colors(channels)),
        None => None,
    }
}

/// Calls `color_thief::get_palette`, which picks representative colours of an
/// image by median cut. Claimed: the result depends on the arguments alone,
/// and holds at most `max_colors` colours, to which the outside function cuts
/// its result. The outside function asserts the two ranges, and adds up
/// 32-bit sums of at most 252 for each pixel that it samples, one pixel in
/// `quality` times the bytes of a pixel, which bounds the buffer.
#[verifier::external_body]
fn thief_palette(
    buffer: &Vec<u8>,
    format: PixelFormat,
    quality: u8,
    max_colors: u8,
) -> (out: Option<Vec<Rgb>>)
    requires
        1 <= quality <= 10,
        2 <= max_colors,
        buffer.len() <= MAX_BUFFER * quality,
    ensures
        match out {
            Some(colors) => thief_colors(buffer@, format == PixelFormat::Rgba, quality, max_colors)
                == Some(channels(colors@)) && colors.len() <= max_colors,
            None => thief_colors(buffer@, format == PixelFormat::Rgba, quality, max_colors)
                is None,
        },
{
    let color_format = match format {
        PixelFormat::Rgb => color_thief::ColorFormat::Rgb,
        PixelFormat::Rgba => color_thief::ColorFormat::Rgba,
    };
    match color_thief::get_palette(buffer, color_format, quality, max_colors) {
        Ok(colors) => Some(colors.iter().map(|c| Rgb { r: c.r, g: c.g, b: c.b }).collect()),
        Err(_) => None,
    }
}

/// The dominant colours of the image whose pixels are in `buffer`, at most
/// `max_colors` of them, or `None` where none can be had.
pub fn dominant_colors(buffer: &Vec<u8>, format: PixelFormat, quality: u8, max_colors: u8) -> (out:
    Option<Vec<Rgb>>)
    requires
        1 <= quality <= 10,
        2 <= max_colors,
        buffer.len() <= MAX_BUFFER * quality,
    ensures
        match out {
            Some(colors) => dominant(buffer@, format, quality, max_colors) == Some(colors@)
                && colors.len() <= max_colors,
            None => dominant(buffer@, format, quality, max_colors) is None,
        },
{
    let out = thief_palette(buffer, format, quality, max_colors);
    proof {
        if out is Some {
            assert(as_colors(channels(out->0@)) =~= out->0@);
        }
    }
    out
}

/// `colors`, and after them `fill` as often as it takes to reach length `n`.
pub open spec fn padded(colors: Seq<Rgb>, n: nat, fill: Rgb) -> Seq<Rgb> {
    if colors.len() >= n {
        colors
    } else {
        colors + Seq::new((n - colors.len()) as nat, |i: int| fill)
    }
}

/// Lengthens `colors` to `n` colours with `fill`; longer ones stay as they are.
pub fn pad_to(colors: Vec<Rgb>, n: usize, fill: Rgb) -> (out: Vec<Rgb>)
    ensures
        out@ == padded(colors@, n as nat, fill),
{
    let ghost given = colors@;
    let mut colors = colors;
    while colors.len() < n
        invariant
            given.len() <= colors.len(),
            given.len() < n ==> colors.len() <= n,
            given.len() >= n ==> colors@ == given,
            forall|i: int| 0 <= i < given.len() ==> colors[i] == given[i],
            forall|i: int| given.len() <= i < colors.len() ==> colors[i] == fill,
        decreases n - colors.len(),
    {
        colors.push(fill);
    }
    assert(colors@ =~= padded(given, n as nat, fill));
    colors
}

} // verus!
