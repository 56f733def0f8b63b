use pokepalette::cli::{
    filter_generation, filter_gmax, filter_mega, filter_regional, filter_shiny, filter_sprites,
    Args, Config,
};
use pokepalette::generation::{parse_generation, GenError};
use pokepalette::pokemondatabase::PokemonDatabase;
use pokepalette::quantize::{QuantizeError, WeightedColor};
use pokepalette::rgb::Rgb;
use pokepalette::sprite::{
    extract_colors, parse_name_and_form, Form, MegaType, Region, Sprite, SpriteError,
};
use pokepalette::text::{has_suffix, parse_channel, strip};

fn rgb(r: u8, g: u8, b: u8) -> Rgb {
    Rgb { r, g, b }
}

fn name_and_form(name: &str) -> (String, Form) {
    parse_name_and_form(name)
}

#[test]
fn names_without_a_suffix_are_regular() {
    assert_eq!(name_and_form("pikachu"), ("pikachu".to_string(), Form::Regular));
    assert_eq!(name_and_form(""), ("".to_string(), Form::Regular));
    assert_eq!(name_and_form("mr-mime"), ("mr-mime".to_string(), Form::Regular));
    assert_eq!(name_and_form("mega"), ("mega".to_string(), Form::Regular));
}

#[test]
fn suffixes_give_the_form_and_are_taken_off() {
    assert_eq!(name_and_form("charizard-mega-x"), ("charizard".to_string(), Form::Mega(MegaType::X)));
    assert_eq!(name_and_form("charizard-mega-y"), ("charizard".to_string(), Form::Mega(MegaType::Y)));
    assert_eq!(name_and_form("venusaur-mega"), ("venusaur".to_string(), Form::Mega(MegaType::Mega)));
    assert_eq!(name_and_form("kyogre-primal"), ("kyogre".to_string(), Form::Mega(MegaType::Primal)));
    assert_eq!(name_and_form("snorlax-gmax"), ("snorlax".to_string(), Form::Gmax));
    assert_eq!(name_and_form("vulpix-alola"), ("vulpix".to_string(), Form::Regional(Region::Alola)));
    assert_eq!(name_and_form("ponyta-galar"), ("ponyta".to_string(), Form::Regional(Region::Galar)));
    assert_eq!(name_and_form("zorua-hisui"), ("zorua".to_string(), Form::Regional(Region::Hisui)));
    assert_eq!(name_and_form("wooper-paldea"), ("wooper".to_string(), Form::Regional(Region::Paldea)));
    assert_eq!(name_and_form("-gmax"), ("".to_string(), Form::Gmax));
    assert_eq!(name_and_form("é-mega"), ("é".to_string(), Form::Mega(MegaType::Mega)));
}

#[test]
fn only_the_last_suffix_counts() {
    assert_eq!(name_and_form("x-gmax-alola"), ("x-gmax".to_string(), Form::Regional(Region::Alola)));
    assert_eq!(name_and_form("x-mega-x-mega"), ("x-mega-x".to_string(), Form::Mega(MegaType::Mega)));
}

#[test]
fn forms_have_names() {
    assert_eq!(Form::Regular.to_text(), "regular");
    assert_eq!(Form::Mega(MegaType::Mega).to_text(), "mega");
    assert_eq!(Form::Mega(MegaType::X).to_text(), "mega-x");
    assert_eq!(Form::Mega(MegaType::Y).to_text(), "mega-y");
    assert_eq!(Form::Mega(MegaType::Primal).to_text(), "primal");
    assert_eq!(Form::Gmax.to_text(), "gmax");
    assert_eq!(Form::Regional(Region::Alola).to_text(), "alola");
    assert_eq!(Form::Regional(Region::Galar).to_text(), "galar");
    assert_eq!(Form::Regional(Region::Hisui).to_text(), "hisui");
    assert_eq!(Form::Regional(Region::Paldea).to_text(), "paldea");
    assert_eq!(MegaType::X.to_text(), "mega-x");
    assert_eq!(Region::Galar.to_text(), "galar");
}

#[test]
fn suffix_tests_and_stripping() {
    assert!(has_suffix("abc", "bc"));
    assert!(has_suffix("abc", ""));
    assert!(has_suffix("abc", "abc"));
    assert!(!has_suffix("abc", "xabc"));
    assert!(!has_suffix("abc", "ab"));
    assert_eq!(strip("abc", "bc"), Some("a".to_string()));
    assert_eq!(strip("abc", "ab"), None);
}

#[test]
fn channels_are_decimal_numbers_up_to_255() {
    assert_eq!(parse_channel("0"), Some(0));
    assert_eq!(parse_channel("255"), Some(255));
    assert_eq!(parse_channel("007"), Some(7));
    assert_eq!(parse_channel("256"), None);
    assert_eq!(parse_channel("99999999999999999999"), None);
    assert_eq!(parse_channel(""), None);
    assert_eq!(parse_channel("1a"), None);
    assert_eq!(parse_channel("+1"), None);
    assert_eq!(parse_channel("٣"), None);
}

#[test]
fn colours_are_taken_from_escape_sequences() {
    let content = "\x1b[38;2;255;0;10m##\x1b[0m \x1b[48;2;1;2;3m  \x1b[38;5;12m \x1b[38;2;0;0;0m";
    assert_eq!(extract_colors(content), Ok(vec![rgb(255, 0, 10), rgb(1, 2, 3), rgb(0, 0, 0)]));
    assert_eq!(extract_colors("no colours here"), Ok(Vec::new()));
}

#[test]
fn a_channel_above_255_is_refused() {
    assert_eq!(extract_colors("\x1b[38;2;1;2;3m\x1b[38;2;256;0;0m"), Err(SpriteError::Channel));
}

#[test]
fn escape_sequences_need_no_escape_character() {
    assert_eq!(extract_colors("[38;2;1;2;3m"), Ok(vec![rgb(1, 2, 3)]));
    assert_eq!(extract_colors("x[48;2;001;02;3mx"), Ok(vec![rgb(1, 2, 3)]));
}

#[test]
fn what_is_no_colour_sequence_is_passed_over() {
    for text in [
        "",
        "[",
        "[38;2;1;2;3",
        "[38;2;1;2;3n",
        "[38;2;1;2m",
        "[38;2;;2;3m",
        "[38;2;1;2;m",
        "[38;2;1,2,3m",
        "[58;2;1;2;3m",
        "[39;2;1;2;3m",
        "[38;5;1;2;3m",
        "[38;2 ;1;2;3m",
        "[38;2;1;2;-3m",
        "(38;2;1;2;3m",
        "[38;2;١;2;3m",
    ] {
        assert_eq!(extract_colors(text), Ok(Vec::new()));
    }
}

#[test]
fn a_sequence_may_start_in_what_looked_like_one() {
    assert_eq!(extract_colors("[38;2;1;[48;2;4;5;6m"), Ok(vec![rgb(4, 5, 6)]));
    assert_eq!(extract_colors("[38;2;[38;2;7;8;9m;2;3m"), Ok(vec![rgb(7, 8, 9)]));
    assert_eq!(
        extract_colors("[38;2;1;2;3m[48;2;4;5;6m"),
        Ok(vec![rgb(1, 2, 3), rgb(4, 5, 6)])
    );
}

#[test]
fn the_first_channel_above_255_fails_the_whole_text() {
    assert_eq!(extract_colors("[38;2;1;2;3m [38;2;1;2;999m"), Err(SpriteError::Channel));
    assert_eq!(extract_colors("[38;2;300;2;3m [38;2;1;2;3m"), Err(SpriteError::Channel));
    assert_eq!(
        extract_colors("[38;2;99999999999999999999999;2;3m"),
        Err(SpriteError::Channel)
    );
    assert_eq!(extract_colors("[38;2;255;255;255m"), Ok(vec![rgb(255, 255, 255)]));
}

#[test]
fn the_scanner_agrees_with_the_pattern() {
    let pattern = regex::Regex::new(r"\[(?:38|48);2;(\d+);(\d+);(\d+)m").unwrap();
    let texts = [
        "\x1b[38;2;255;0;10m##\x1b[0m \x1b[48;2;1;2;3m  \x1b[38;5;12m \x1b[38;2;0;0;0m",
        "[38;2;1;[48;2;4;5;6m[38;2;7;8;9",
        "[[[38;2;1;2;3mm[48;2;12;13;14m;[38;2;1;2;3;4m",
        "no colours",
        "[48;2;0;00;000m[38;2;9;9;9m[38;2;9;9;m",
    ];
    for text in texts {
        let expected: Vec<Rgb> = pattern
            .captures_iter(text)
            .map(|c| rgb(c[1].parse().unwrap(), c[2].parse().unwrap(), c[3].parse().unwrap()))
            .collect();
        assert_eq!(extract_colors(text), Ok(expected));
    }
}

#[test]
fn a_sprite_is_made_from_its_picture() {
    let content = "\x1b[38;2;255;0;0m#\x1b[38;2;250;5;5m#\x1b[38;2;0;0;0m#\x1b[48;2;0;0;255m#";
    let sprite = Sprite::from_content(content, "charizard-mega-x", 1, true).unwrap();
    assert_eq!(sprite.name, "charizard");
    assert_eq!(sprite.form, Form::Mega(MegaType::X));
    assert_eq!(sprite.gen, 1);
    assert!(sprite.shiny);
    assert_eq!(
        sprite.palette,
        vec![
            WeightedColor { color: rgb(240, 16, 16), count: 2, total: 3 },
            WeightedColor { color: rgb(16, 16, 240), count: 1, total: 3 },
        ]
    );
}

#[test]
fn a_picture_without_colours_gives_no_sprite() {
    assert_eq!(
        Sprite::from_content("plain", "pikachu", 1, false).err(),
        Some(SpriteError::Palette(QuantizeError::EmptyInput))
    );
    assert_eq!(
        Sprite::from_content("\x1b[38;2;0;0;0m", "pikachu", 1, false).err(),
        Some(SpriteError::Palette(QuantizeError::EmptyInput))
    );
    assert_eq!(
        Sprite::from_content("\x1b[38;2;0;0;300m", "pikachu", 1, false).err(),
        Some(SpriteError::Channel)
    );
}

fn sprite(name: &str, gen: u8, shiny: bool, form: Form) -> Sprite {
    Sprite { name: name.to_string(), gen, shiny, form, palette: Vec::new() }
}

fn args() -> Args {
    Args {
        image: "picture.png".to_string(),
        top_k: 10,
        verbose: false,
        gen: None,
        no_shiny: false,
        all_shiny: false,
        no_mega: false,
        all_mega: false,
        no_gmax: false,
        all_gmax: false,
        no_regional: false,
    }
}

fn names(sprites: &Vec<Sprite>) -> Vec<String> {
    sprites.iter().map(|s| s.name.clone()).collect()
}

fn catalogue() -> Vec<Sprite> {
    vec![
        sprite("a", 1, false, Form::Regular),
        sprite("b", 1, true, Form::Regular),
        sprite("c", 3, false, Form::Mega(MegaType::X)),
        sprite("d", 8, false, Form::Gmax),
        sprite("e", 7, true, Form::Regional(Region::Alola)),
    ]
}

#[test]
fn result_lines_and_headings() {
    assert_eq!(sprite("pikachu", 1, false, Form::Regular).result_line(), "pikachu");
    assert_eq!(sprite("pikachu", 1, true, Form::Regular).result_line(), "pikachu -s");
    assert_eq!(sprite("pikachu", 1, false, Form::Gmax).result_line(), "pikachu -f gmax");
    assert_eq!(
        sprite("charizard", 1, true, Form::Mega(MegaType::Y)).result_line(),
        "charizard -s -f mega-y"
    );
    assert_eq!(
        sprite("pikachu", 1, false, Form::Regular).heading(),
        "Pokemon: pikachu\n  Top Colors:\n"
    );
    assert_eq!(
        sprite("vulpix", 1, true, Form::Regional(Region::Alola)).heading(),
        "Pokemon: vulpix\n  Shiny variant\n  Form: alola\n  Top Colors:\n"
    );
}

#[test]
fn without_filters_every_sprite_is_kept() {
    assert_eq!(names(&filter_sprites(catalogue(), &args())), vec!["a", "b", "c", "d", "e"]);
}

#[test]
fn filters_on_shininess() {
    let mut no = args();
    no.no_shiny = true;
    assert_eq!(names(&filter_sprites(catalogue(), &no)), vec!["a", "c", "d"]);
    let mut all = args();
    all.all_shiny = true;
    assert_eq!(names(&filter_sprites(catalogue(), &all)), vec!["b", "e"]);
    assert!(filter_shiny(&catalogue()[0], &no));
    assert!(!filter_shiny(&catalogue()[1], &no));
}

#[test]
fn filters_on_forms() {
    let mut a = args();
    a.no_mega = true;
    assert_eq!(names(&filter_sprites(catalogue(), &a)), vec!["a", "b", "d", "e"]);
    let mut a = args();
    a.all_mega = true;
    assert_eq!(names(&filter_sprites(catalogue(), &a)), vec!["c"]);
    let mut a = args();
    a.no_gmax = true;
    assert_eq!(names(&filter_sprites(catalogue(), &a)), vec!["a", "b", "c", "e"]);
    let mut a = args();
    a.all_gmax = true;
    assert_eq!(names(&filter_sprites(catalogue(), &a)), vec!["d"]);
    let mut a = args();
    a.no_regional = true;
    assert_eq!(names(&filter_sprites(catalogue(), &a)), vec!["a", "b", "c", "d"]);
    assert!(!filter_mega(&catalogue()[2], &{
        let mut a = args();
        a.no_mega = true;
        a
    }));
    assert!(filter_gmax(&catalogue()[3], &args()));
    assert!(filter_regional(&catalogue()[4], &args()));
}

#[test]
fn filters_combine() {
    let mut a = args();
    a.no_shiny = true;
    a.no_mega = true;
    a.no_gmax = true;
    assert_eq!(names(&filter_sprites(catalogue(), &a)), vec!["a"]);
    a.all_mega = true;
    assert_eq!(names(&filter_sprites(catalogue(), &a)), Vec::<String>::new());
}

#[test]
fn filter_on_generations() {
    let s = catalogue();
    assert!(filter_generation(&s[0], &None));
    assert!(filter_generation(&s[2], &Some(vec![1, 3])));
    assert!(!filter_generation(&s[3], &Some(vec![1, 3])));
    assert!(!filter_generation(&s[3], &Some(Vec::new())));
}

#[test]
fn the_database_filters_by_generation_too() {
    let mut a = args();
    a.gen = Some("1-3".to_string());
    let kept = PokemonDatabase::new(catalogue()).filtered(&a).unwrap();
    assert_eq!(names(&kept), vec!["a", "b", "c"]);
    a.gen = Some("8, 7".to_string());
    a.no_shiny = true;
    let kept = PokemonDatabase::new(catalogue()).filtered(&a).unwrap();
    assert_eq!(names(&kept), vec!["d"]);
    a.gen = None;
    let kept = PokemonDatabase::new(catalogue()).filtered(&a).unwrap();
    assert_eq!(names(&kept), vec!["a", "c", "d"]);
}

#[test]
fn a_bad_generation_fails_unless_the_database_is_empty() {
    let mut a = args();
    a.gen = Some("12".to_string());
    assert_eq!(
        PokemonDatabase::new(catalogue()).filtered(&a).err(),
        Some(GenError::OutOfRange(12))
    );
    assert_eq!(PokemonDatabase::new(Vec::new()).filtered(&a).map(|s| s.len()), Ok(0));
    assert_eq!(PokemonDatabase::new(catalogue()).len(), 5);
}

#[test]
fn configuration_is_taken_from_the_arguments() {
    let mut a = args();
    a.top_k = 3;
    a.verbose = true;
    let config = Config::new(&a);
    assert_eq!(config.image, "picture.png");
    assert_eq!(config.top_k, 3);
    assert!(config.verbose);
}

#[test]
fn single_generations() {
    assert_eq!(parse_generation("3"), Ok(vec![3]));
    assert_eq!(parse_generation("+9"), Ok(vec![9]));
    assert_eq!(parse_generation("1"), Ok(vec![1]));
    assert_eq!(parse_generation("0"), Err(GenError::OutOfRange(0)));
    assert_eq!(parse_generation("10"), Err(GenError::OutOfRange(10)));
    assert_eq!(parse_generation(""), Err(GenError::InvalidNumber));
    assert_eq!(parse_generation(" 3"), Err(GenError::InvalidNumber));
    assert_eq!(parse_generation("three"), Err(GenError::InvalidNumber));
    assert_eq!(parse_generation("256"), Err(GenError::InvalidNumber));
}

#[test]
fn ranges_of_generations() {
    assert_eq!(parse_generation("1-3"), Ok(vec![1, 2, 3]));
    assert_eq!(parse_generation("8-9"), Ok(vec![8, 9]));
    assert_eq!(parse_generation("1-9"), Ok(vec![1, 2, 3, 4, 5, 6, 7, 8, 9]));
    assert_eq!(parse_generation("3-3"), Err(GenError::EmptyRange));
    assert_eq!(parse_generation("4-2"), Err(GenError::EmptyRange));
    assert_eq!(parse_generation("1-2-3"), Err(GenError::TooManyParts));
    assert_eq!(parse_generation("-3"), Err(GenError::InvalidStart));
    assert_eq!(parse_generation("a-3"), Err(GenError::InvalidStart));
    assert_eq!(parse_generation("1-"), Err(GenError::InvalidEnd));
    assert_eq!(parse_generation("1- 3"), Err(GenError::InvalidEnd));
    assert_eq!(parse_generation("0-3"), Err(GenError::OutOfRange(0)));
    assert_eq!(parse_generation("8-11"), Err(GenError::OutOfRange(10)));
    assert_eq!(parse_generation("1,2-3"), Err(GenError::InvalidStart));
}

#[test]
fn lists_of_generations() {
    assert_eq!(parse_generation("1,2,4"), Ok(vec![1, 2, 4]));
    assert_eq!(parse_generation(" 1 ,\t2, 4\n"), Ok(vec![1, 2, 4]));
    assert_eq!(parse_generation("4,4,1"), Ok(vec![4, 4, 1]));
    assert_eq!(parse_generation("1,,2"), Err(GenError::InvalidNumber));
    assert_eq!(parse_generation("1,"), Err(GenError::InvalidNumber));
    assert_eq!(parse_generation(",1"), Err(GenError::InvalidNumber));
    assert_eq!(parse_generation("1,x"), Err(GenError::InvalidNumber));
    assert_eq!(parse_generation("1,12,0"), Err(GenError::OutOfRange(12)));
    assert_eq!(parse_generation("1,1 2"), Err(GenError::InvalidNumber));
}
