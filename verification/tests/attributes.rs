//! Tests of form precedence, the shiny-rate override and the path
//! builder's sanitization rules.

use pokeget::cli::Args;
use pokeget::pokemon::Attributes;
use pokeget::utils::{get_form, parse_shiny_rate, random};

fn base_args() -> Args {
    Args {
        pokemon: vec![],
        hide_name: false,
        form: String::new(),
        mega: false,
        mega_x: false,
        mega_y: false,
        shiny: false,
        alolan: false,
        gmax: false,
        hisui: false,
        noble: false,
        galar: false,
        female: false,
    }
}

fn plain_attributes() -> Attributes {
    Attributes { form: String::new(), female: false, shiny: false }
}

#[test]
fn mega_takes_precedence_over_alolan() {
    let mut args = base_args();
    args.mega = true;
    args.alolan = true;
    assert_eq!(get_form(&args), "mega");
}

#[test]
fn form_flags_have_fixed_precedence() {
    let mut args = base_args();
    args.mega_y = true;
    args.gmax = true;
    assert_eq!(get_form(&args), "mega-y");
    args.mega_x = true;
    assert_eq!(get_form(&args), "mega-x");
}

#[test]
fn free_form_string_is_the_fallback() {
    let mut args = base_args();
    args.form = "therian".to_string();
    assert_eq!(get_form(&args), "therian");
}

#[test]
fn noble_composes_with_hisui() {
    let mut args = base_args();
    args.hisui = true;
    args.noble = true;
    assert_eq!(get_form(&args), "hisui-noble");
}

#[test]
fn noble_alone_yields_bare_suffix() {
    let mut args = base_args();
    args.noble = true;
    assert_eq!(get_form(&args), "-noble");
}

#[test]
fn shiny_rate_defaults_without_override() {
    assert_eq!(parse_shiny_rate(None), (8192, false));
}

#[test]
fn shiny_rate_accepts_a_positive_number() {
    assert_eq!(parse_shiny_rate(Some("64")), (64, false));
    assert_eq!(parse_shiny_rate(Some("1")), (1, false));
}

#[test]
fn shiny_rate_rejects_zero_as_malformed() {
    assert_eq!(parse_shiny_rate(Some("0")), (8192, true));
}

#[test]
fn shiny_rate_warns_on_garbage() {
    assert_eq!(parse_shiny_rate(Some("often")), (8192, true));
    assert_eq!(parse_shiny_rate(Some("12x")), (8192, true));
}

#[test]
fn shiny_rate_warns_on_overflow() {
    assert_eq!(parse_shiny_rate(Some("99999999999")), (8192, true));
}

#[test]
fn attributes_carry_the_flags() {
    let mut args = base_args();
    args.shiny = true;
    args.female = true;
    args.galar = true;
    let (attrs, warned) = Attributes::new(&args, None);
    assert!(attrs.shiny);
    assert!(attrs.female);
    assert_eq!(attrs.form, "galar");
    assert!(!warned);
}

#[test]
fn rate_of_one_always_draws_shiny() {
    let (attrs, warned) = Attributes::new(&base_args(), Some("1"));
    assert!(attrs.shiny);
    assert!(!warned);
}

#[test]
fn zero_rate_is_flagged_and_uses_the_default() {
    let (_, warned) = Attributes::new(&base_args(), Some("0"));
    assert!(warned);
}

#[test]
fn malformed_rate_is_flagged() {
    let (_, warned) = Attributes::new(&base_args(), Some("not-a-number"));
    assert!(warned);
}

#[test]
fn path_strips_periods_and_spaces() {
    let attrs = plain_attributes();
    let p = attrs.path("Mr. Mime", false, false);
    assert_eq!(p, "regular/mr-mime.png");
    assert!(p.ends_with("mr-mime.png"));
}

#[test]
fn path_strips_apostrophes() {
    let attrs = plain_attributes();
    let p = attrs.path("Farfetch'd", false, false);
    assert_eq!(p, "regular/farfetchd.png");
}

#[test]
fn path_hyphenates_spaces_and_underscores_alike() {
    let attrs = plain_attributes();
    assert_eq!(attrs.path("mr mime", false, false), attrs.path("mr_mime", false, false));
}

#[test]
fn path_is_deterministic() {
    let attrs = plain_attributes();
    assert_eq!(attrs.path("abra", false, false), attrs.path("abra", false, false));
    let mut shiny = plain_attributes();
    shiny.shiny = true;
    shiny.female = true;
    assert_eq!(shiny.path("Kadabra", false, true), shiny.path("Kadabra", false, true));
}

#[test]
fn form_suffix_applies_to_direct_selections() {
    let mut attrs = plain_attributes();
    attrs.form = "mega".to_string();
    assert_eq!(attrs.path("mewtwo", false, false), "regular/mewtwo-mega.png");
}

#[test]
fn form_suffix_suppressed_for_random_selections() {
    let mut attrs = plain_attributes();
    attrs.form = "mega".to_string();
    assert_eq!(attrs.path("mewtwo", true, false), "regular/mewtwo.png");
    assert_eq!(attrs.path("mewtwo", false, true), "regular/mewtwo.png");
}

#[test]
fn shiny_and_female_segments() {
    let mut attrs = plain_attributes();
    attrs.shiny = true;
    assert_eq!(attrs.path("abra", false, false), "shiny/abra.png");
    attrs.female = true;
    assert_eq!(attrs.path("abra", false, false), "shiny/female/abra.png");
    // the female segment is suppressed for random selections too
    assert_eq!(attrs.path("abra", true, false), "shiny/abra.png");
}

#[test]
fn path_trims_stray_whitespace() {
    let attrs = plain_attributes();
    assert_eq!(attrs.path("\tabra", false, false), "regular/abra.png");
}

#[test]
fn random_pick_comes_from_the_list() {
    let names = ["abra", "kadabra", "alakazam"];
    for _ in 0..30 {
        let pick = random(&names);
        assert!(names.iter().any(|n| *n == pick));
    }
}
