//! What the command line asks for, and the filter that it puts on the catalogue.
use vstd::prelude::*;
use crate::sprite::{Form, Sprite};

verus! {

/// The arguments of the command line.
#[derive(Debug, Clone)]
pub struct Args {
    /// Path of the image.
    pub image: String,
    /// Number of entries returned.
    pub top_k: usize,
    /// Print additional information.
    pub verbose: bool,
    /// The generations that are kept, as the user wrote them.
    pub gen: Option<String>,
    /// Filter out shinies.
    pub no_shiny: bool,
    /// Filter out non-shinies.
    pub all_shiny: bool,
    /// Filter out mega forms.
    pub no_mega: bool,
    /// Filter out all but mega forms.
    pub all_mega: bool,
    /// Filter out gigantamax forms.
    pub no_gmax: bool,
    /// Filter out all but gigantamax forms.
    pub all_gmax: bool,
    /// Filter out regional forms.
    pub no_regional: bool,
}

/// What the run needs apart from the filter.
#[derive(Debug, Clone)]
pub struct Config {
    pub image: String,
    pub top_k: usize,
    pub verbose: bool,
}

impl Config {
    /// The configuration that the arguments ask for.
    pub fn new(args: &Args) -> (out: Self)
        ensures
            out.image@ == args.image@,
            out.top_k == args.top_k,
            out.verbose == args.verbose,
    {
        Config { image: args.image.clone(), top_k: args.top_k, verbose: args.verbose }
    }
}

/// The sprite passes the filter on shininess.
pub open spec fn passes_shiny(sprite: Sprite, args: Args) -> bool {
    (!args.no_shiny || !sprite.shiny) && (!args.all_shiny || sprite.shiny)
}

/// The sprite passes the filter on mega forms.
pub open spec fn passes_mega(sprite: Sprite, args: Args) -> bool {
    (!args.no_mega || !(sprite.form is Mega)) && (!args.all_mega || sprite.form is Mega)
}

/// The sprite passes the filter on gigantamax forms.
pub open spec fn passes_gmax(sprite: Sprite, args: Args) -> bool {
    (!args.no_gmax || !(sprite.form is Gmax)) && (!args.all_gmax || sprite.form is Gmax)
}

/// The sprite passes the filter on regional forms.
pub open spec fn passes_regional(sprite: Sprite, args: Args) -> bool {
    !args.no_regional || !(sprite.form is Regional)
}

/// The sprite passes the filters on shininess and form.
pub open spec fn passes(sprite: Sprite, args: Args) -> bool {
    passes_shiny(sprite, args) && passes_mega(sprite, args) && passes_gmax(sprite, args)
        && passes_regional(sprite, args)
}

/// The sprite was drawn in one of the generations; every sprite where none
/// are given.
pub open spec fn passes_generation(sprite: Sprite, gens: Option<Seq<u8>>) -> bool {
    match gens {
        Some(allowed) => allowed.contains(sprite.gen),
        None => true,
    }
}

/// The sprites that pass the filters, in their order.
pub open spec fn kept(sprites: Seq<Sprite>, args: Args, gens: Option<Seq<u8>>) -> Seq<Sprite>
    decreases sprites.len(),
{
    if sprites.len() == 0 {
        Seq::empty()
    } else {
        let before = kept(sprites.drop_last(), args, gens);
        if passes(sprites.last(), args) && passes_generation(sprites.last(), gens) {
            before.push(sprites.last())
        } else {
            before
        }
    }
}

/// Whether the sprite passes the filter on shininess.
pub fn filter_shiny(sprite: &Sprite, args: &Args) -> (out: bool)
    ensures
        out == passes_shiny(*sprite, *args),
{
    (!args.no_shiny || !sprite.shiny) && (!args.all_shiny || sprite.shiny)
}

/// Whether the sprite passes the filter on mega forms.
pub fn filter_mega(sprite: &Sprite, args: &Args) -> (out: bool)
    ensures
        out == passes_mega(*sprite, *args),
{
    let is_mega = sprite.form.is_mega();
    (!args.no_mega || !is_mega) && (!args.all_mega || is_mega)
}

/// Whether the sprite passes the filter on gigantamax forms.
pub fn filter_gmax(sprite: &Sprite, args: &Args) -> (out: bool)
    ensures
        out == passes_gmax(*sprite, *args),
{
    let is_gmax = sprite.form.is_gmax();
    (!args.no_gmax || !is_gmax) && (!args.all_gmax || is_gmax)
}

/// Whether the sprite passes the filter on regional forms.
pub fn filter_regional(sprite: &Sprite, args: &Args) -> (out: bool)
    ensures
        out == passes_regional(*sprite, *args),
{
    let is_regional = sprite.form.is_regional();
    !args.no_regional || !is_regional
}

/// Whether the sprite was drawn in one of the generations.
pub fn filter_generation(sprite: &Sprite, gens: &Option<Vec<u8>>) -> (out: bool)
    ensures
        out == passes_generation(
            *sprite,
            match gens {
                Some(allowed) => Some(allowed@),
                None => None,
            },
        ),
{
    match gens {
        Some(allowed) => {
            let mut i: usize = 0;
            while i < allowed.len()
                invariant
                    i <= allowed.len(),
                    *gens == Some(*allowed),
                    forall|k: int| 0 <= k < i ==> allowed[k] != sprite.gen,
                decreases allowed.len() - i,
            {
                if allowed[i] == sprite.gen {
                    assert(allowed@[i as int] == sprite.gen);
                    return true;
                }
                i = i + 1;
            }
            false
        },
        None => true,
    }
}

/// The sprites that pass all the filters, in their order.
pub fn keep(sprites: Vec<Sprite>, args: &Args, gens: &Option<Vec<u8>>) -> (out: Vec<Sprite>)
    ensures
        out@ == kept(
            sprites@,
            *args,
            match gens {
                Some(allowed) => Some(allowed@),
                None => None,
            },
        ),
{
    let ghost all = sprites@;
    let ghost allowed = match gens {
        Some(allowed) => Some(allowed@),
        None => None,
    };
    let mut source = sprites;
    let mut reversed: Vec<Sprite> = Vec::new();
    while source.len() > 0
        invariant
            kept(all, *args, allowed) == kept(source@, *args, allowed) + reversed@.reverse(),
            allowed == (match gens {
                Some(allowed) => Some(allowed@),
                None => None,
            }),
        decreases source.len(),
    {
        let ghost before = source@;
        let ghost held = reversed@;
        let sprite = source.pop().unwrap();
        assert(source@ == before.drop_last());
        if filter_shiny(&sprite, args) && filter_mega(&sprite, args) && filter_gmax(&sprite, args)
            && filter_regional(&sprite, args) && filter_generation(&sprite, gens) {
            reversed.push(sprite);
            assert(reversed@.reverse() =~= seq![sprite] + held.reverse());
            assert(kept(before, *args, allowed) =~= kept(source@, *args, allowed).push(sprite));
            assert(kept(source@, *args, allowed).push(sprite) + held.reverse() =~= kept(
                source@,
                *args,
                allowed,
            ) + reversed@.reverse());
        }
    }
    assert(kept(source@, *args, allowed) =~= Seq::<Sprite>::empty());
    let mut out: Vec<Sprite> = Vec::new();
    let ghost picked = reversed@;
    while reversed.len() > 0
        invariant
            picked.reverse() == out@ + reversed@.reverse(),
        decreases reversed.len(),
    {
        let ghost held = reversed@;
        let ghost got = out@;
        let sprite = reversed.pop().unwrap();
        out.push(sprite);
        assert(held.reverse() =~= seq![sprite] + reversed@.reverse());
        assert(got + held.reverse() =~= out@ + reversed@.reverse());
    }
    assert(reversed@.reverse() =~= Seq::<Sprite>::empty());
    assert(out@ =~= picked.reverse());
    assert(kept(all, *args, allowed) =~= picked.reverse());
    out
}

/// The sprites that pass the filters on shininess and form, in their order.
pub fn filter_sprites(sprites: Vec<Sprite>, args: &Args) -> (out: Vec<Sprite>)
    ensures
        out@ == kept(sprites@, *args, None),
{
    keep(sprites, args, &None)
}

/// The configuration that the arguments ask for, and the sprites that pass
/// their filters on shininess and form.
pub fn get_config_and_filter_sprites(args: &Args, sprites: Vec<Sprite>) -> (out: (
    Config,
    Vec<Sprite>,
))
    ensures
        out.0.image@ == args.image@,
        out.0.top_k == args.top_k,
        out.0.verbose == args.verbose,
        out.1@ == kept(sprites@, *args, None),
{
    let config = Config::new(args);
    let filtered = filter_sprites(sprites, args);
    (config, filtered)
}

} // verus!
