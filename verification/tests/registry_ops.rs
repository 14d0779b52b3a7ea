//! Location registry: membership, append, remove-by-value, and the add/remove
//! scenario driven through the persistence layer.

use wether::codec::{decode_config, encode_config};
use wether::config::Config;
use wether::location::{parse_location, Location};
use wether::registry::{add_location, check_city, remove_location};

fn config_with(loc: Vec<Location>) -> Config {
    Config { unit: "imperial".to_string(), loc, key: String::new() }
}

#[test]
fn find_answers_the_first_matching_index() {
    let conf = config_with(vec![
        Location::City("A".to_string()),
        Location::Zip(5),
        Location::City("B".to_string()),
        Location::Zip(5),
    ]);
    assert_eq!(check_city(&conf, Location::Zip(5)), Some(1));
    assert_eq!(check_city(&conf, Location::City("B".to_string())), Some(2));
    assert_eq!(check_city(&conf, Location::City("C".to_string())), None);
    // same payload, different variant: no match
    assert_eq!(check_city(&conf, Location::City("5".to_string())), None);
}

#[test]
fn find_remove_consistency() {
    let mut conf = config_with(vec![
        Location::City("A".to_string()),
        Location::Zip(5),
        Location::City("A".to_string()),
    ]);
    // if find answers Some(i), the entry at i equals the needle
    let i = check_city(&conf, Location::City("A".to_string())).unwrap();
    assert!(conf.loc[i] == Location::City("A".to_string()));
    // remove answers true exactly when find answered Some, and drops one entry
    assert!(remove_location(&mut conf, &Location::City("A".to_string())));
    assert_eq!(conf.loc.len(), 2);
    assert!(conf.loc[0] == Location::Zip(5));
    assert!(conf.loc[1] == Location::City("A".to_string()));
    assert!(!remove_location(&mut conf, &Location::City("Z".to_string())));
    assert_eq!(conf.loc.len(), 2);
}

#[test]
fn add_then_remove_restores_the_list() {
    let before = vec![Location::City("A".to_string()), Location::Zip(5)];
    let mut conf = config_with(before.clone());
    let v = Location::City("B".to_string());
    assert_eq!(check_city(&conf, Location::City("B".to_string())), None);
    add_location(&mut conf, v);
    assert_eq!(conf.loc.len(), 3);
    assert!(remove_location(&mut conf, &Location::City("B".to_string())));
    assert_eq!(conf.loc.len(), before.len());
    for (a, b) in conf.loc.iter().zip(before.iter()) {
        assert!(a == b);
    }
}

#[test]
fn duplicates_are_not_prevented_on_add() {
    let mut conf = config_with(vec![Location::Zip(1)]);
    add_location(&mut conf, Location::Zip(1));
    assert_eq!(conf.loc.len(), 2);
}

#[test]
fn add_zip_persists_and_remove_twice_reports_not_found() {
    // `--add 98101`: numeric input parses as a zip code
    let added = parse_location("98101".to_string());
    assert!(matches!(added, Location::Zip(98101)));

    let mut conf = Config::default();
    add_location(&mut conf, added);
    let saved = encode_config(&conf);

    // reload: the zip must be present in the location list
    let mut reloaded = decode_config(&saved).expect("saved config must reload");
    assert!(check_city(&reloaded, Location::Zip(98101)).is_some());

    // `--remove 98101` restores the prior list
    assert!(remove_location(&mut reloaded, &parse_location("98101".to_string())));
    assert!(reloaded == Config::default());

    // invoked twice: "not found" semantics
    assert!(!remove_location(&mut reloaded, &parse_location("98101".to_string())));
}

#[test]
fn free_text_parses_as_zip_only_when_numeric() {
    assert!(matches!(parse_location("98101".to_string()), Location::Zip(98101)));
    assert!(matches!(parse_location("0".to_string()), Location::Zip(0)));
    assert!(
        matches!(parse_location("4294967295".to_string()), Location::Zip(u32::MAX))
    );
    // too wide for the postal-code width: treated as a city name
    assert!(matches!(parse_location("4294967296".to_string()), Location::City(_)));
    assert!(matches!(parse_location("Seattle".to_string()), Location::City(n) if n == "Seattle"));
    assert!(matches!(parse_location("98101a".to_string()), Location::City(_)));
    assert!(matches!(parse_location("".to_string()), Location::City(n) if n.is_empty()));
    assert!(matches!(parse_location("-5".to_string()), Location::City(_)));
}
