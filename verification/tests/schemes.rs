use pokepalette::cli::{get_config_and_filter_sprites, Args};
use pokepalette::colorscheme::{ColorScheme, SCHEME_SIZE};
use pokepalette::counts::{
    add_from_pool, gather, get_color_counts, get_most_common_colors, pad_with_random_colors, tally,
};
use pokepalette::flags::{FlagError, Flags};
use pokepalette::palette::{Palette, PALETTE_SIZE};
use pokepalette::picture::{get_image_palette, grey_alpha_to_rgba, grey_to_rgba, opaque_colors};
use pokepalette::quantize::{QuantizeError, WeightedColor};
use pokepalette::rgb::{right_aligned, swatch_row, Rgb};
use pokepalette::setup::{downloads, get_variants, list_url, sprite_url};
use pokepalette::sprite::{Form, Sprite};
use pokepalette::text::{parse_count, same_text};
use pokepalette::thief::{dominant_colors, pad_to, PixelFormat, MAX_BUFFER, MAX_IMAGE_BUFFER};
use pokepalette::wal::{get_wal_scheme, wal_color};

fn rgb(r: u8, g: u8, b: u8) -> Rgb {
    Rgb { r, g, b }
}

fn strings(texts: &[&str]) -> Vec<String> {
    texts.iter().map(|t| t.to_string()).collect()
}

#[test]
fn swatches_and_labels() {
    assert_eq!(rgb(1, 20, 255).swatch(), "\x1b[48;2;1;20;255m   \x1b[0m");
    assert_eq!(
        rgb(1, 20, 255).labelled_swatch(),
        "\x1b[48;2;1;20;255m   \x1b[0m RGB(  1,  20, 255). Freq: "
    );
    assert_eq!(right_aligned(0), "  0");
    assert_eq!(right_aligned(10), " 10");
    assert_eq!(right_aligned(99), " 99");
    assert_eq!(right_aligned(100), "100");
    assert_eq!(
        swatch_row(&vec![rgb(1, 2, 3), rgb(4, 5, 6)]),
        "\x1b[48;2;1;2;3m   \x1b[0m\x1b[48;2;4;5;6m   \x1b[0m"
    );
    assert_eq!(swatch_row(&Vec::new()), "");
    assert_eq!(ColorScheme::new(vec![rgb(1, 2, 3)]).to_text(), "\x1b[48;2;1;2;3m   \x1b[0m");
    assert_eq!(Palette::new(vec![rgb(1, 2, 3)]).to_text(), "\x1b[48;2;1;2;3m   \x1b[0m");
}

#[test]
fn padding_fills_up_and_never_cuts() {
    let black = rgb(0, 0, 0);
    assert_eq!(pad_to(vec![rgb(1, 1, 1)], 3, black), vec![rgb(1, 1, 1), black, black]);
    assert_eq!(pad_to(Vec::new(), 2, black), vec![black, black]);
    let long = vec![rgb(1, 1, 1); 9];
    assert_eq!(pad_to(long.clone(), 8, black), long);
}

#[test]
fn schemes_are_filled_up_with_black_and_palettes_with_their_last_colour() {
    let found = vec![rgb(9, 8, 7), rgb(1, 2, 3)];
    let scheme = ColorScheme::from_colors(found.clone());
    assert_eq!(scheme.len(), SCHEME_SIZE);
    assert_eq!(scheme.color(1), rgb(1, 2, 3));
    assert_eq!(scheme.color(2), rgb(0, 0, 0));
    assert_eq!(scheme.color(7), rgb(0, 0, 0));
    let palette = Palette::from_colors(found).unwrap();
    assert_eq!(palette.len(), PALETTE_SIZE);
    assert_eq!(palette.colors[0], rgb(9, 8, 7));
    assert_eq!(palette.colors[2], rgb(1, 2, 3));
    assert_eq!(palette.colors[7], rgb(1, 2, 3));
    assert!(Palette::from_colors(Vec::new()).is_none());
}

#[test]
fn dominant_colours_of_a_buffer() {
    let mut buffer = Vec::new();
    for i in 0..3000u32 {
        if i % 2 == 0 {
            buffer.extend_from_slice(&[200, 30, 30]);
        } else {
            buffer.extend_from_slice(&[30, 30, 200]);
        }
    }
    let expected: Vec<Rgb> = color_thief::get_palette(&buffer, color_thief::ColorFormat::Rgb, 10, 9)
        .unwrap()
        .iter()
        .map(|c| rgb(c.r, c.g, c.b))
        .collect();
    let colors = dominant_colors(&buffer, PixelFormat::Rgb, 10, 9).unwrap();
    assert_eq!(colors, expected);
    assert!(!colors.is_empty() && colors.len() <= 9);
    assert_ne!(colors.len(), buffer.len());
    let scheme = ColorScheme::from_buffer(&buffer, PixelFormat::Rgb).unwrap();
    assert_eq!(scheme.len(), colors.len().max(8));
    assert_eq!(scheme.color(0), colors[0]);
    let palette = Palette::from_buffer(&buffer).unwrap();
    assert_eq!(palette.colors[0], colors[0]);
    assert_eq!(palette.colors[7], *colors.last().unwrap());
    let with_alpha: Vec<u8> = buffer.chunks(3).flat_map(|p| [p[0], p[1], p[2], 255]).collect();
    assert_eq!(dominant_colors(&with_alpha, PixelFormat::Rgba, 10, 9), Some(expected));
}

#[test]
fn buffers_are_bounded_by_the_quality() {
    assert_eq!(MAX_IMAGE_BUFFER, 10 * MAX_BUFFER);
    let uniform = vec![90u8; 3 * 64];
    for quality in 1..=10 {
        let colors = dominant_colors(&uniform, PixelFormat::Rgb, quality, 2).unwrap();
        assert!(!colors.is_empty() && colors.len() <= 2);
    }
}

#[test]
fn transparent_pixels_are_left_out() {
    let rgba = vec![1, 2, 3, 255, 4, 5, 6, 0, 7, 8, 9, 1, 10, 11];
    assert_eq!(opaque_colors(&rgba), vec![rgb(1, 2, 3), rgb(7, 8, 9)]);
    assert_eq!(opaque_colors(&Vec::new()), Vec::new());
}

#[test]
fn the_palette_of_a_picture_counts_black() {
    let rgba = vec![0, 0, 0, 255, 0, 0, 0, 255, 200, 10, 10, 255, 9, 9, 9, 0];
    assert_eq!(
        get_image_palette(&rgba),
        Ok(vec![
            WeightedColor { color: rgb(16, 16, 16), count: 2, total: 3 },
            WeightedColor { color: rgb(208, 16, 16), count: 1, total: 3 },
        ])
    );
    assert_eq!(get_image_palette(&vec![1, 2, 3, 0]), Err(QuantizeError::EmptyInput));
}

#[test]
fn grey_pictures_are_brought_to_rgba() {
    assert_eq!(grey_to_rgba(&vec![7, 200]), vec![7, 7, 7, 255, 200, 200, 200, 255]);
    assert_eq!(grey_alpha_to_rgba(&vec![7, 1, 200, 0, 5]), vec![7, 7, 7, 1, 200, 200, 200, 0]);
    assert_eq!(grey_to_rgba(&Vec::new()), Vec::<u8>::new());
}

#[test]
fn variants_and_addresses() {
    assert_eq!(
        get_variants("charizard", &strings(&["mega-x", "gmax"])),
        strings(&["charizard", "charizard-mega-x", "charizard-gmax"])
    );
    assert_eq!(get_variants("pikachu", &Vec::new()), strings(&["pikachu"]));
    assert_eq!(sprite_url("http://h", false, "abra"), "http://h/assets/colorscripts/regular/abra");
    assert_eq!(sprite_url("http://h", true, "abra"), "http://h/assets/colorscripts/shiny/abra");
    assert_eq!(list_url("http://h"), "http://h/assets/pokemon.json");
    let all = downloads("b", &strings(&["x", "y"]));
    let seen: Vec<(String, String, bool)> =
        all.iter().map(|d| (d.url.clone(), d.name.clone(), d.shiny)).collect();
    assert_eq!(
        seen,
        vec![
            ("b/assets/colorscripts/regular/x".to_string(), "x".to_string(), false),
            ("b/assets/colorscripts/shiny/x".to_string(), "x".to_string(), true),
            ("b/assets/colorscripts/regular/y".to_string(), "y".to_string(), false),
            ("b/assets/colorscripts/shiny/y".to_string(), "y".to_string(), true),
        ]
    );
}

#[test]
fn counts_and_texts() {
    assert_eq!(parse_count("0"), Some(0));
    assert_eq!(parse_count("+12"), Some(12));
    assert_eq!(parse_count("18446744073709551615"), Some(usize::MAX));
    assert_eq!(parse_count("18446744073709551616"), None);
    assert_eq!(parse_count(""), None);
    assert_eq!(parse_count("+"), None);
    assert_eq!(parse_count("-1"), None);
    assert_eq!(parse_count("1 "), None);
    assert!(same_text("abc", "abc"));
    assert!(!same_text("abc", "abd"));
    assert!(!same_text("abc", "bc"));
    assert!(same_text("", ""));
}

#[test]
fn flags_are_read_from_the_arguments() {
    let flags = Flags::new(&strings(&["prog"])).unwrap();
    assert_eq!(
        flags,
        Flags {
            k: 5,
            no_shiny: false,
            no_female: false,
            no_mega: false,
            no_regional_variant: false,
            verbose: false
        }
    );
    let flags =
        Flags::new(&strings(&["prog", "--no-shiny", "-k", "7", "--verbose", "--no-mega"])).unwrap();
    assert_eq!(flags.k, 7);
    assert!(flags.no_shiny && flags.verbose && flags.no_mega);
    assert!(!flags.no_female && !flags.no_regional_variant);
    let flags = Flags::new(&strings(&["--no-female", "--no-regional", "12"])).unwrap();
    assert_eq!(flags.k, 5);
    assert!(flags.no_female && flags.no_regional_variant);
}

#[test]
fn the_count_may_follow_its_flag_after_other_flags() {
    let flags = Flags::new(&strings(&["-k", "--verbose", "3", "4"])).unwrap();
    assert_eq!(flags.k, 3);
    assert!(flags.verbose);
}

#[test]
fn a_bad_count_is_refused() {
    assert_eq!(Flags::new(&strings(&["-k", "many"])), Err(FlagError::InvalidK));
    assert_eq!(Flags::new(&strings(&["-k", "3", "-k", ""])), Err(FlagError::InvalidK));
    assert!(Flags::new(&strings(&["-k"])).is_ok());
}

#[test]
fn flags_admit_sprites() {
    let mut flags = Flags::new(&Vec::new()).unwrap();
    assert!(flags.admits(true, true, true, true));
    flags.no_shiny = true;
    assert!(!flags.admits(true, false, false, false));
    assert!(flags.admits(false, true, true, true));
    flags.no_regional_variant = true;
    assert!(!flags.admits(false, false, false, true));
}

#[test]
fn tallies_keep_the_order_of_first_occurrence() {
    let a = rgb(1, 1, 1);
    let b = rgb(2, 2, 2);
    let c = rgb(3, 3, 3);
    assert_eq!(tally(&vec![a, b, a, c, a, b]), vec![(a, 3), (b, 2), (c, 1)]);
    assert_eq!(tally(&Vec::new()), Vec::new());
    let palettes = vec![Palette::new(vec![a, b]), Palette::new(Vec::new()), Palette::new(vec![a, c, a, b])];
    assert_eq!(gather(&palettes), Some(vec![a, b, a, c, a, b]));
    assert_eq!(get_color_counts(&palettes), Some(vec![(c, 1), (b, 2), (a, 3)]));
    let ties = vec![Palette::new(vec![b, a, c, a])];
    assert_eq!(get_color_counts(&ties), Some(vec![(b, 1), (c, 1), (a, 2)]));
}

#[test]
fn the_run_of_the_median_count() {
    let e = |n: u8, count: u32| (rgb(n, n, n), count);
    assert_eq!(get_most_common_colors(vec![e(1, 1), e(2, 2), e(3, 2), e(4, 2), e(5, 9)]), vec![e(3, 2), e(2, 2)]);
    assert_eq!(get_most_common_colors(vec![e(1, 4)]), vec![e(1, 4)]);
    assert_eq!(get_most_common_colors(vec![e(1, 4), e(2, 4)]), vec![e(2, 4), e(1, 4)]);
    assert_eq!(get_most_common_colors(vec![e(1, 3), e(2, 4), e(3, 4)]), vec![e(2, 4)]);
}

#[test]
fn palettes_are_filled_up_from_the_pool() {
    let pool = vec![(rgb(1, 1, 1), 4), (rgb(2, 2, 2), 1)];
    let mut palette = Palette::new(vec![rgb(9, 9, 9)]);
    pad_with_random_colors(&mut palette, 6, &pool);
    assert_eq!(palette.len(), 6);
    assert_eq!(palette.colors[0], rgb(9, 9, 9));
    assert!(palette.colors[1..].iter().all(|c| *c == rgb(1, 1, 1) || *c == rgb(2, 2, 2)));
    pad_with_random_colors(&mut palette, 3, &pool);
    assert_eq!(palette.len(), 6);
    add_from_pool(&mut palette, &pool, 1);
    assert_eq!(palette.colors[6], rgb(2, 2, 2));
}

#[test]
fn lines_of_a_theme_give_colours() {
    assert_eq!(wal_color("10,20,30"), Some(rgb(10, 20, 30)));
    assert_eq!(wal_color(" 10 , 20 ,30 "), Some(rgb(10, 20, 30)));
    assert_eq!(wal_color("10,x,300"), Some(rgb(10, 0, 0)));
    assert_eq!(wal_color("1,2,3,4"), Some(rgb(1, 2, 3)));
    assert_eq!(wal_color(",,"), Some(rgb(0, 0, 0)));
    assert_eq!(wal_color("10,20"), None);
    assert_eq!(wal_color(""), None);
    let text = "1,2,3\n4,5,6\r\n7,8,9\n";
    let scheme = get_wal_scheme(text, 2).unwrap();
    assert_eq!(scheme.len(), 2);
    assert_eq!(scheme.color(0), rgb(1, 2, 3));
    assert_eq!(scheme.color(1), rgb(4, 5, 6));
    assert_eq!(get_wal_scheme(text, 10).unwrap().len(), 3);
    assert_eq!(get_wal_scheme(text, 0).unwrap().len(), 0);
    assert_eq!(get_wal_scheme("", 4).unwrap().len(), 0);
    assert_eq!(get_wal_scheme("9,9,9", 4).unwrap().len(), 1);
    let bad = "1,2,3\n4,5\n7,8,9";
    assert!(get_wal_scheme(bad, 3).is_none());
    assert!(get_wal_scheme(bad, 1).is_some());
    assert!(get_wal_scheme("1,2,3\n\n", 3).is_none());
}

#[test]
fn configuration_and_filter_in_one() {
    let args = Args {
        image: "i.png".to_string(),
        top_k: 2,
        verbose: true,
        gen: Some("1".to_string()),
        no_shiny: true,
        all_shiny: false,
        no_mega: false,
        all_mega: false,
        no_gmax: false,
        all_gmax: false,
        no_regional: false,
    };
    let sprite = |name: &str, gen: u8, shiny: bool| Sprite {
        name: name.to_string(),
        gen,
        shiny,
        form: Form::Regular,
        palette: Vec::new(),
    };
    let (config, kept) =
        get_config_and_filter_sprites(&args, vec![sprite("a", 1, true), sprite("b", 2, false)]);
    assert_eq!(config.image, "i.png");
    assert_eq!(config.top_k, 2);
    assert!(config.verbose);
    assert_eq!(kept.len(), 1);
    assert_eq!(kept[0].name, "b");
}
