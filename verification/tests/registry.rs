//! Tests of the name registry: parsing the table, the two lookup
//! directions, display-name formatting and the random draws.

use pokeget::list::List;
use pokeget::pokemon::Region;

fn sample_csv() -> String {
    let mut s = String::new();
    s.push_str("Bulbasaur,bulbasaur\n");
    s.push_str("Ivysaur,ivysaur\n");
    s.push_str("Venusaur,venusaur\n");
    s.push_str("Mr. Mime,mr-mime\n");
    s.push_str("Farfetch'd,farfetchd\n");
    s
}

fn sample_list() -> List {
    List::read(&sample_csv()).unwrap()
}

/// A registry large enough to cover every region block.
fn big_list() -> List {
    let mut s = String::new();
    for i in 0..906 {
        s.push_str(&format!("Name{},name-{}\n", i, i));
    }
    List::read(&s).unwrap()
}

#[test]
fn read_parses_rows() {
    let l = sample_list();
    assert_eq!(l.len(), 5);
    assert_eq!(l.get_by_id(0).unwrap(), "bulbasaur");
    assert_eq!(l.get_by_id(4).unwrap(), "farfetchd");
    assert!(l.get_by_id(5).is_none());
}

#[test]
fn read_rejects_missing_comma() {
    assert!(List::read("Bulbasaur bulbasaur\n").is_none());
}

#[test]
fn read_rejects_extra_column() {
    assert!(List::read("Bulbasaur,bulbasaur,extra\n").is_none());
}

#[test]
fn read_rejects_duplicate_filenames() {
    assert!(List::read("A,same\nB,same\n").is_none());
}

#[test]
fn read_skips_empty_lines_and_tolerates_crlf() {
    let l = List::read("A,a\r\n\r\nB,b").unwrap();
    assert_eq!(l.len(), 2);
    assert_eq!(l.get_by_id(0).unwrap(), "a");
    assert_eq!(l.get_by_id(1).unwrap(), "b");
}

#[test]
fn id_filename_round_trip() {
    let l = sample_list();
    for i in 0..5 {
        let f = l.get_by_id(i).unwrap();
        assert_eq!(l.get_by_filename(&f).unwrap(), i);
    }
}

#[test]
fn unknown_filename_has_no_id() {
    let l = sample_list();
    assert!(l.get_by_filename("missingno").is_none());
}

#[test]
fn format_name_uses_the_table() {
    let l = sample_list();
    assert_eq!(l.format_name("mr-mime"), "Mr. Mime");
    assert_eq!(l.format_name("farfetchd"), "Farfetch'd");
}

#[test]
fn format_name_falls_back_to_cosmetic_transform() {
    let l = sample_list();
    assert_eq!(l.format_name("mime-jr"), "Mime Jr");
    assert_eq!(l.format_name("sirfetch'd"), "Sirfetchd");
}

#[test]
fn random_stays_in_registry() {
    let l = sample_list();
    for _ in 0..200 {
        let f = l.random();
        assert!(l.get_by_filename(&f).is_some());
    }
}

#[test]
fn region_draws_stay_in_their_block() {
    let l = big_list();
    for _ in 0..100 {
        let f = l.get_by_region(Region::Johto);
        let i = l.get_by_filename(&f).unwrap();
        assert!(152 <= i && i <= 251);
    }
    for _ in 0..100 {
        let f = l.get_by_region(Region::Kanto);
        let i = l.get_by_filename(&f).unwrap();
        assert!(i <= 151);
    }
    for _ in 0..100 {
        let f = l.get_by_region(Region::Galar);
        let i = l.get_by_filename(&f).unwrap();
        assert!(810 <= i && i <= 905);
    }
}
