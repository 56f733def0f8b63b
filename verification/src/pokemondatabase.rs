//! The catalogue of sprites, and what of it the arguments ask for.
use vstd::prelude::*;
use crate::cli::{keep, kept, Args};
use crate::generation::{generations, parse_generation, GenError};
use crate::sprite::Sprite;

verus! {

/// The catalogue of sprites.
#[derive(Debug, Clone)]
pub struct PokemonDatabase {
    sprites: Vec<Sprite>,
}

impl View for PokemonDatabase {
    type V = Seq<Sprite>;

    closed spec fn view(&self) -> Seq<Sprite> {
        self.sprites@
    }
}

/// The sprites of a catalogue that the arguments ask for.
///
/// Where generations are given, the sprites of those generations; the text
/// that names them is read only where the catalogue holds a sprite.
pub open spec fn asked_for(sprites: Seq<Sprite>, args: Args) -> Result<Seq<Sprite>, GenError> {
    match args.gen {
        Some(text) => if sprites.len() == 0 {
            Ok(Seq::empty())
        } else {
            match generations(text@) {
                Ok(gens) => Ok(kept(sprites, args, Some(gens))),
                Err(e) => Err(e),
            }
        },
        None => Ok(kept(sprites, args, None)),
    }
}

impl PokemonDatabase {
    /// The catalogue of the given sprites.
    pub fn new(sprites: Vec<Sprite>) -> (out: Self)
        ensures
            out@ == sprites@,
    {
        PokemonDatabase { sprites }
    }

    /// The number of sprites.
    pub fn len(&self) -> (out: usize)
        ensures
            out == self@.len(),
    {
        self.sprites.len()
    }

    /// The sprites that the arguments ask for, in their order.
    ///
    /// Fails where the catalogue holds a sprite and the text that names the
    /// generations names none.
    pub fn filtered(self, args: &Args) -> (out: Result<Vec<Sprite>, GenError>)
        ensures
            match out {
                Ok(sprites) => asked_for(self@, *args) == Ok::<Seq<Sprite>, GenError>(sprites@),
                Err(e) => asked_for(self@, *args) == Err::<Seq<Sprite>, GenError>(e),
            },
    {
        match &args.gen {
            Some(text) => {
                if self.sprites.len() == 0 {
                    return Ok(Vec::new());
                }
                match parse_generation(text.as_str()) {
                    Ok(gens) => Ok(keep(self.sprites, args, &Some(gens))),
                    Err(e) => Err(e),
                }
            },
            None => Ok(keep(self.sprites, args, &None)),
        }
    }
}

} // verus!
