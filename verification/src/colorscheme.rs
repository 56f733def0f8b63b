//! Colour schemes: sequences of colours of a fixed length that are compared
//! place by place.
use vstd::prelude::*;
use crate::aligned::{
    euclidean, unit_weights, weighted_euclidean, weighted_euclidean_value, DistanceError,
};
use crate::rgb::{swatch_row, swatches, Rgb};
use crate::thief::{dominant, dominant_colors, pad_to, padded, PixelFormat, MAX_IMAGE_BUFFER};

verus! {

/// The number of colours to which a scheme made from an image is filled up.
pub const SCHEME_SIZE: usize = 8;

/// A sequence of colours.
#[derive(Debug, Clone)]
pub struct ColorScheme {
    scheme: Vec<Rgb>,
}

impl View for ColorScheme {
    type V = Seq<Rgb>;

    closed spec fn view(&self) -> Seq<Rgb> {
        self.scheme@
    }
}

/// The scheme of an image whose dominant colours are `found`: those colours,
/// filled up with black to `SCHEME_SIZE` colours.
pub open spec fn scheme_of(found: Seq<Rgb>) -> Seq<Rgb> {
    padded(found, SCHEME_SIZE as nat, (Rgb { r: 0, g: 0, b: 0 }))
}

impl ColorScheme {
    /// The scheme of the given colours.
    pub fn new(scheme: Vec<Rgb>) -> (out: Self)
        ensures
            out@ == scheme@,
    {
        ColorScheme { scheme }
    }

    /// The scheme made of the dominant colours that were found in an image.
    pub fn from_colors(found: Vec<Rgb>) -> (out: Self)
        ensures
            out@ == scheme_of(found@),
    {
        ColorScheme::new(pad_to(found, SCHEME_SIZE, Rgb { r: 0, g: 0, b: 0 }))
    }

    /// The scheme of the image whose pixels are in `buffer`: its dominant
    /// colours, filled up with black to `SCHEME_SIZE` colours. `None` where no
    /// dominant colours can be had.
    pub fn from_buffer(buffer: &Vec<u8>, format: PixelFormat) -> (out: Option<Self>)
        requires
            buffer.len() <= MAX_IMAGE_BUFFER,
        ensures
            match dominant(buffer@, format, 10, 9) {
                Some(found) => out is Some && out->0@ == scheme_of(found),
                None => out is None,
            },
    {
        match dominant_colors(buffer, format, 10, 9) {
            Some(found) => Some(ColorScheme::from_colors(found)),
            None => None,
        }
    }

    /// The number of colours.
    pub fn len(&self) -> (out: usize)
        ensures
            out == self@.len(),
    {
        self.scheme.len()
    }

    /// The colour at place `i`.
    pub fn color(&self, i: usize) -> (out: Rgb)
        requires
            i < self@.len(),
        ensures
            out == self@[i as int],
    {
        self.scheme[i]
    }

    /// The swatches of the colours of the scheme, one after the other.
    pub fn to_text(&self) -> (out: String)
        ensures
            out@ == swatches(self@, self@.len()),
    {
        swatch_row(&self.scheme)
    }

    /// The Euclidean distance to a scheme of the same length.
    pub fn euclidean_distance(&self, target_scheme: &ColorScheme) -> (out: Result<
        u64,
        DistanceError,
    >)
        ensures
            match out {
                Ok(d) => self@.len() == target_scheme@.len() && d == weighted_euclidean_value(
                    self@,
                    target_scheme@,
                    unit_weights(self@.len()),
                ),
                Err(e) => e == DistanceError::LengthMismatch && self@.len() != target_scheme@.len(),
            },
    {
        euclidean(&self.scheme, &target_scheme.scheme)
    }

    /// The Euclidean distance to a scheme of the same length, with a
    /// fixed-point weight for each place.
    pub fn euclidean_distance_with_weights(
        &self,
        target_scheme: &ColorScheme,
        weights: &Vec<u32>,
    ) -> (out: Result<u64, DistanceError>)
        requires
            weights.len() >= self@.len(),
        ensures
            match out {
                Ok(d) => self@.len() == target_scheme@.len() && d == weighted_euclidean_value(
                    self@,
                    target_scheme@,
                    weights@,
                ),
                Err(e) => e == DistanceError::LengthMismatch && self@.len() != target_scheme@.len(),
            },
    {
        weighted_euclidean(&self.scheme, &target_scheme.scheme, weights)
    }
}

} // verus!
