//! Pictures as raw bytes: the colours of their pixels, and the layouts of
//! pixels that are brought to red, green, blue and alpha.
use vstd::prelude::*;
use crate::quantize::{
    bucket_width, considered_count, get_palette, is_palette_of, valid_configuration,
    QuantizeError, WeightedColor,
};
use crate::rgb::Rgb;
use crate::{DEFAULT_LEVELS, DEFAULT_PALETTE_SIZE};

verus! {

/// The colours of the first `n` pixels of a buffer of red, green, blue and
/// alpha bytes, without the pixels that are fully transparent.
pub open spec fn opaque(rgba: Seq<u8>, n: nat) -> Seq<Rgb>
    decreases n,
{
    if n == 0 {
        Seq::empty()
    } else {
        let before = opaque(rgba, (n - 1) as nat);
        let at = 4 * (n - 1);
        if rgba[at + 3] == 0 {
            before
        } else {
            before.push(Rgb { r: rgba[at], g: rgba[at + 1], b: rgba[at + 2] })
        }
    }
}

/// The colours of the pixels of a buffer of red, green, blue and alpha
/// bytes, without the pixels that are fully transparent. Bytes after the
/// last whole pixel are not read.
pub fn opaque_colors(rgba: &Vec<u8>) -> (out: Vec<Rgb>)
    ensures
        out@ == opaque(rgba@, (rgba@.len() / 4) as nat),
{
    let n = rgba.len() / 4;
    let mut out: Vec<Rgb> = Vec::new();
    let mut i: usize = 0;
    while i < n
        invariant
            i <= n,
            n == rgba.len() / 4,
            out@ == opaque(rgba@, i as nat),
        decreases n - i,
    {
        let at = 4 * i;
        if rgba[at + 3] != 0 {
            out.push(Rgb { r: rgba[at], g: rgba[at + 1], b: rgba[at + 2] });
        }
        i = i + 1;
    }
    out
}

/// The palette of a picture, given as red, green, blue and alpha bytes:
/// that of its pixels that are not fully transparent, black ones included.
pub fn get_image_palette(rgba: &Vec<u8>) -> (out: Result<Vec<WeightedColor>, QuantizeError>)
    ensures
        match out {
            Ok(palette) => is_palette_of(
                opaque(rgba@, (rgba@.len() / 4) as nat),
                false,
                bucket_width(DEFAULT_LEVELS),
                DEFAULT_PALETTE_SIZE as nat,
                palette@,
            ),
            Err(e) => e == QuantizeError::EmptyInput && considered_count(
                opaque(rgba@, (rgba@.len() / 4) as nat),
                false,
            ) == 0,
        },
{
    let colors = opaque_colors(rgba);
    assert(valid_configuration(DEFAULT_PALETTE_SIZE, DEFAULT_LEVELS));
    get_palette(&colors, DEFAULT_PALETTE_SIZE, DEFAULT_LEVELS, false)
}

/// A buffer of grey values as red, green, blue and alpha bytes: each grey
/// value three times, and full opacity.
pub open spec fn grey_as_rgba(luma: Seq<u8>) -> Seq<u8> {
    Seq::new(
        4 * luma.len(),
        |i: int|
            if i % 4 == 3 {
                255u8
            } else {
                luma[i / 4]
            },
    )
}

/// A buffer of grey and alpha values as red, green, blue and alpha bytes:
/// each grey value three times, and its alpha value.
pub open spec fn grey_alpha_as_rgba(luma_alpha: Seq<u8>) -> Seq<u8> {
    Seq::new(
        4 * (luma_alpha.len() / 2),
        |i: int|
            if i % 4 == 3 {
                luma_alpha[2 * (i / 4) + 1]
            } else {
                luma_alpha[2 * (i / 4)]
            },
    )
}

/// Brings a buffer of grey values to red, green, blue and alpha bytes.
pub fn grey_to_rgba(luma: &Vec<u8>) -> (out: Vec<u8>)
    requires
        4 * luma.len() <= usize::MAX,
    ensures
        out@ == grey_as_rgba(luma@),
{
    let mut out: Vec<u8> = Vec::new();
    let mut i: usize = 0;
    while i < luma.len()
        invariant
            i <= luma.len(),
            out.len() == 4 * i,
            forall|k: int| 0 <= k < out.len() ==> out[k] == grey_as_rgba(luma@)[k],
        decreases luma.len() - i,
    {
        let g = luma[i];
        out.push(g);
        out.push(g);
        out.push(g);
        out.push(255);
        i = i + 1;
    }
    assert(out@ =~= grey_as_rgba(luma@));
    out
}

/// Brings a buffer of grey and alpha values to red, green, blue and alpha
/// bytes. A byte after the last whole pixel is not read.
pub fn grey_alpha_to_rgba(luma_alpha: &Vec<u8>) -> (out: Vec<u8>)
    requires
        2 * luma_alpha.len() <= usize::MAX,
    ensures
        out@ == grey_alpha_as_rgba(luma_alpha@),
{
    let n = luma_alpha.len() / 2;
    let mut out: Vec<u8> = Vec::new();
    let mut i: usize = 0;
    while i < n
        invariant
            i <= n,
            n == luma_alpha.len() / 2,
            out.len() == 4 * i,
            forall|k: int| 0 <= k < out.len() ==> out[k] == grey_alpha_as_rgba(luma_alpha@)[k],
        decreases n - i,
    {
        let g = luma_alpha[2 * i];
        let a = luma_alpha[2 * i + 1];
        out.push(g);
        out.push(g);
        out.push(g);
        out.push(a);
        i = i + 1;
    }
    assert(out@ =~= grey_alpha_as_rgba(luma_alpha@));
    out
}

} // verus!
