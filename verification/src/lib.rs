//! Ranks a catalogue of colour palettes by their similarity to the palette of
//! a picture: colour quantisation, colour and palette distances, and ranking.
pub mod aligned;
pub mod cli;
pub mod colorscheme;
pub mod counts;
pub mod distance;
pub mod fixed;
pub mod flags;
pub mod generation;
pub mod metric;
pub mod palette;
pub mod picture;
pub mod pokemondatabase;
pub mod quantize;
pub mod rank;
pub mod rgb;
pub mod setup;
pub mod sprite;
pub mod text;
pub mod thief;
pub mod wal;

pub use distance::palette_distance;
pub use picture::get_image_palette;
pub use quantize::{get_palette, WeightedColor};
pub use rank::get_pokemon_ranked;
use vstd::prelude::*;

verus! {

/// The number of colours of a palette, where nothing else is asked for.
pub const DEFAULT_PALETTE_SIZE: usize = 5;

/// The number of buckets of each channel, where nothing else is asked for.
pub const DEFAULT_LEVELS: usize = 8;

/// Whether black pixels are left out, where nothing else is asked for.
pub const DEFAULT_IGNORE_BLACK: bool = true;

/// The number of entries of a result, where nothing else is asked for.
pub const DEFAULT_TOP_K: usize = 10;

} // verus!
