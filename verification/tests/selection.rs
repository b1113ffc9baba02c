//! Tests of token classification and its resolution against the
//! registry.

use pokeget::list::List;
use pokeget::pokemon::{PokeError, Region, Selection};

fn sample_list() -> List {
    List::read("Bulbasaur,bulbasaur\nIvysaur,ivysaur\nVenusaur,venusaur\n").unwrap()
}

#[test]
fn zero_parses_as_random() {
    assert!(matches!(Selection::parse("0".to_string()), Selection::Random));
}

#[test]
fn random_token_parses_as_random() {
    assert!(matches!(Selection::parse("random".to_string()), Selection::Random));
    assert!(matches!(Selection::parse("RaNdOm".to_string()), Selection::Random));
}

#[test]
fn positive_number_parses_as_dex_id() {
    assert!(matches!(Selection::parse("1".to_string()), Selection::DexId(0)));
    assert!(matches!(Selection::parse("25".to_string()), Selection::DexId(24)));
    assert!(matches!(Selection::parse("007".to_string()), Selection::DexId(6)));
}

#[test]
fn region_tokens_parse_case_insensitively() {
    assert!(matches!(
        Selection::parse("kanto".to_string()),
        Selection::Region(Region::Kanto)
    ));
    assert!(matches!(
        Selection::parse("JOHTO".to_string()),
        Selection::Region(Region::Johto)
    ));
    assert!(matches!(
        Selection::parse("Galar".to_string()),
        Selection::Region(Region::Galar)
    ));
}

#[test]
fn other_tokens_pass_through_with_case_preserved() {
    match Selection::parse("Pikachu".to_string()) {
        Selection::Name(s) => assert_eq!(s, "Pikachu"),
        _ => panic!("expected a name"),
    }
}

#[test]
fn overflowing_number_passes_through_as_name() {
    match Selection::parse("99999999999999999999999999".to_string()) {
        Selection::Name(s) => assert_eq!(s, "99999999999999999999999999"),
        _ => panic!("expected a name"),
    }
}

#[test]
fn suppression_flag_marks_random_and_region() {
    assert!(Selection::Random.suppresses_variants());
    assert!(Selection::Region(Region::Kanto).suppresses_variants());
    assert!(!Selection::DexId(3).suppresses_variants());
    assert!(!Selection::Name("abra".to_string()).suppresses_variants());
}

#[test]
fn dex_id_resolves_to_filename() {
    let l = sample_list();
    assert_eq!(Selection::DexId(2).eval(&l).unwrap(), "venusaur");
}

#[test]
fn name_resolves_to_itself() {
    let l = sample_list();
    assert_eq!(Selection::Name("Abra".to_string()).eval(&l).unwrap(), "Abra");
}

#[test]
fn out_of_range_id_reports_the_typed_number() {
    let l = sample_list();
    // the registry holds 3 entries, so the token "4" is one past the end
    let sel = Selection::parse("4".to_string());
    assert_eq!(sel.eval(&l).unwrap_err(), PokeError::InvalidDexId(4));
}

#[test]
fn random_resolution_stays_in_registry() {
    let l = sample_list();
    for _ in 0..50 {
        let f = Selection::Random.eval(&l).unwrap();
        assert!(l.get_by_filename(&f).is_some());
    }
}
