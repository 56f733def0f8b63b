//! Palettes of plain colours that are compared place by place.
use vstd::prelude::*;
use crate::aligned::{
    euclidean, mean_delta, mean_delta_value, unit_weights, weighted_euclidean,
    weighted_euclidean_value, DistanceError,
};
use crate::rgb::{swatch_row, swatches, Rgb};
use crate::thief::{dominant, dominant_colors, pad_to, padded, PixelFormat, MAX_IMAGE_BUFFER};

verus! {

/// The number of colours to which a palette made from an image is filled up.
pub const PALETTE_SIZE: usize = 8;

/// A sequence of colours.
#[derive(Debug, Clone)]
pub struct Palette {
    pub colors: Vec<Rgb>,
}

/// The palette of an image whose dominant colours are `found`: those colours,
/// filled up with the last of them to `PALETTE_SIZE` colours.
pub open spec fn palette_of(found: Seq<Rgb>) -> Seq<Rgb>
    recommends
        found.len() > 0,
{
    padded(found, PALETTE_SIZE as nat, found.last())
}

impl Palette {
    /// The palette of the given colours.
    pub fn new(colors: Vec<Rgb>) -> (out: Self)
        ensures
            out.colors@ == colors@,
    {
        Palette { colors }
    }

    /// The palette made of the dominant colours that were found in an image;
    /// `None` where there are none.
    pub fn from_colors(found: Vec<Rgb>) -> (out: Option<Self>)
        ensures
            match out {
                Some(palette) => found@.len() > 0 && palette.colors@ == palette_of(found@),
                None => found@.len() == 0,
            },
    {
        if found.len() == 0 {
            return None;
        }
        let last = found[found.len() - 1];
        Some(Palette::new(pad_to(found, PALETTE_SIZE, last)))
    }

    /// The palette of the image whose pixels are in `buffer`, three bytes to
    /// the pixel: its dominant colours, filled up with the last of them to
    /// `PALETTE_SIZE` colours. `None` where no dominant colours can be had.
    pub fn from_buffer(buffer: &Vec<u8>) -> (out: Option<Self>)
        requires
            buffer.len() <= MAX_IMAGE_BUFFER,
        ensures
            match dominant(buffer@, PixelFormat::Rgb, 10, 9) {
                Some(found) => if found.len() > 0 {
                    out is Some && out->0.colors@ == palette_of(found)
                } else {
                    out is None
                },
                None => out is None,
            },
    {
        match dominant_colors(buffer, PixelFormat::Rgb, 10, 9) {
            Some(found) => Palette::from_colors(found),
            None => None,
        }
    }

    /// The number of colours.
    pub fn len(&self) -> (out: usize)
        ensures
            out == self.colors@.len(),
    {
        self.colors.len()
    }

    /// The swatches of the colours of the palette, one after the other.
    pub fn to_text(&self) -> (out: String)
        ensures
            out@ == swatches(self.colors@, self.colors@.len()),
    {
        swatch_row(&self.colors)
    }

    /// The Euclidean distance to a palette of the same length, with a
    /// fixed-point weight for each place.
    pub fn euclidean_distance_with_weights(&self, other: &Palette, weights: &Vec<u32>) -> (out:
        Result<u64, DistanceError>)
        requires
            weights.len() >= self.colors@.len(),
        ensures
            match out {
                Ok(d) => self.colors@.len() == other.colors@.len() && d
                    == weighted_euclidean_value(self.colors@, other.colors@, weights@),
                Err(e) => e == DistanceError::LengthMismatch && self.colors@.len() != other.colors@.len(),
            },
    {
        weighted_euclidean(&self.colors, &other.colors, weights)
    }

    /// The Euclidean distance to a palette of the same length.
    pub fn euclidean_distance(&self, other: &Palette) -> (out: Result<u64, DistanceError>)
        ensures
            match out {
                Ok(d) => self.colors@.len() == other.colors@.len() && d
                    == weighted_euclidean_value(
                    self.colors@,
                    other.colors@,
                    unit_weights(self.colors@.len()),
                ),
                Err(e) => e == DistanceError::LengthMismatch && self.colors@.len() != other.colors@.len(),
            },
    {
        euclidean(&self.colors, &other.colors)
    }

    /// The mean perceptual difference to a palette of the same length.
    pub fn de2000_distance(&self, other: &Palette) -> (out: Result<u64, DistanceError>)
        ensures
            match out {
                Ok(d) => self.colors@.len() == other.colors@.len() && d == mean_delta_value(
                    self.colors@,
                    other.colors@,
                ),
                Err(e) => e == DistanceError::LengthMismatch && self.colors@.len() != other.colors@.len(),
            },
    {
        match mean_delta(&self.colors, &other.colors) {
            Ok(d) => Ok(d),
            Err(e) => Err(e),
        }
    }
}

} // verus!
