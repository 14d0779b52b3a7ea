//! Config persistence: encoding, decoding, round trips and the default
//! fallback policy.

use wether::codec::{decode_config, encode_config, resolve_loaded};
use wether::config::Config;
use wether::location::Location;

fn config(unit: &str, loc: Vec<Location>, key: &str) -> Config {
    Config { unit: unit.to_string(), loc, key: key.to_string() }
}

#[test]
fn default_config_is_the_documented_one() {
    let c = Config::default();
    assert_eq!(c.unit, "imperial");
    assert_eq!(c.loc.len(), 1);
    assert!(matches!(&c.loc[0], Location::City(n) if n == "Seattle"));
    assert_eq!(c.key, "");
}

#[test]
fn encode_writes_the_canonical_form() {
    let c = Config::default();
    assert_eq!(
        encode_config(&c),
        "{\"unit\":\"imperial\",\"loc\":[{\"City\":\"Seattle\"}],\"key\":\"\"}"
    );
}

#[test]
fn encode_zip_and_key() {
    let c = config("metric", vec![Location::Zip(98101)], "K");
    assert_eq!(
        encode_config(&c),
        "{\"unit\":\"metric\",\"loc\":[{\"Zip\":98101}],\"key\":\"K\"}"
    );
}

#[test]
fn decode_reads_the_canonical_form() {
    let text = "{\"unit\":\"imperial\",\"loc\":[{\"City\":\"Seattle\"}],\"key\":\"\"}";
    let c = decode_config(text).expect("canonical text must decode");
    assert!(c == Config::default());
}

#[test]
fn decode_accepts_a_missing_key_field() {
    let text = "{\"unit\":\"metric\",\"loc\":[]}";
    let c = decode_config(text).expect("key-less text must decode");
    assert!(c == config("metric", vec![], ""));
}

#[test]
fn round_trip_mixed_locations() {
    let c = config(
        "metric",
        vec![
            Location::City("Seattle".to_string()),
            Location::Zip(98101),
            Location::City("New York".to_string()),
        ],
        "some-api-key",
    );
    let encoded = encode_config(&c);
    let back = decode_config(&encoded).expect("own encoding must decode");
    assert!(back == c);
}

#[test]
fn round_trip_empty_locations_and_empty_strings() {
    let c = config("", vec![], "");
    let back = decode_config(&encode_config(&c)).expect("own encoding must decode");
    assert!(back == c);
}

#[test]
fn round_trip_strings_needing_escapes() {
    let c = config(
        "im\"per\\ial\n",
        vec![Location::City("a\tb\rc\"d\\e".to_string())],
        "k\ne\ty",
    );
    let back = decode_config(&encode_config(&c)).expect("own encoding must decode");
    assert!(back == c);
}

#[test]
fn round_trip_largest_zip() {
    let c = config("imperial", vec![Location::Zip(u32::MAX)], "");
    let back = decode_config(&encode_config(&c)).expect("own encoding must decode");
    assert!(back == c);
}

#[test]
fn decode_tolerates_whitespace() {
    let text = " {\n  \"unit\" : \"metric\" ,\r\n  \"loc\" : [ { \"City\" : \"Oslo\" } , { \"Zip\" : 98101 } ] ,\n  \"key\" : \"K\"\n}\t";
    let c = decode_config(text).expect("whitespace must be insignificant");
    assert!(
        c == config("metric", vec![Location::City("Oslo".to_string()), Location::Zip(98101)], "K")
    );
}

#[test]
fn decode_tolerates_any_member_order() {
    let text = "{\"key\":\"K\",\"loc\":[{\"Zip\":7}],\"unit\":\"metric\"}";
    let c = decode_config(text).expect("member order must not matter");
    assert!(c == config("metric", vec![Location::Zip(7)], "K"));
}

#[test]
fn decode_ignores_unknown_members() {
    let text = "{\"unit\":\"m\",\"loc\":[],\"x\":0}";
    let c = decode_config(text).expect("unknown members are ignored on read");
    assert!(c == config("m", vec![], ""));
    let nested = "{\"v\":2,\"unit\":\"u\",\"extra\":{\"a\":[1,true,null,\"s\"],\"b\":{}},\"loc\":[{\"City\":\"A\"}],\"note\":\"hi, {\\\"x\\\":1}\",\"key\":\"k\"}";
    let c2 = decode_config(nested).expect("nested unknown members are skipped whole");
    assert!(c2 == config("u", vec![Location::City("A".to_string())], "k"));
}

#[test]
fn loading_keeps_the_file_values_despite_unknown_members() {
    let (c, needs_write) = resolve_loaded(Some("{\"unit\":\"m\",\"loc\":[],\"x\":0}"));
    assert!(c == config("m", vec![], ""));
    assert!(!needs_write);
}

#[test]
fn decode_rejects_a_duplicated_member() {
    assert!(decode_config("{\"unit\":\"a\",\"unit\":\"b\",\"loc\":[]}").is_none());
}

#[test]
fn control_characters_are_escaped_as_valid_json() {
    let c = config("a\u{0008}b", vec![], "c\u{001b}d");
    let encoded = encode_config(&c);
    assert_eq!(
        encoded,
        "{\"unit\":\"a\\u0008b\",\"loc\":[],\"key\":\"c\\u001bd\"}"
    );
    let back = decode_config(&encoded).expect("own encoding must decode");
    assert!(back == c);
}

#[test]
fn decode_rejects_garbage() {
    assert!(decode_config("this is not json").is_none());
    assert!(decode_config("").is_none());
    assert!(decode_config("{\"unit\":\"imperial\"}").is_none());
    assert!(decode_config("{\"unit\":\"x\",\"loc\":[],\"key\":\"y\"}trailing").is_none());
    assert!(decode_config("{\"unit\":\"x\",\"loc\":[{\"Zip\":4294967296}],\"key\":\"\"}").is_none());
}

#[test]
fn missing_content_falls_back_to_default_and_asks_for_persist() {
    let (c, needs_write) = resolve_loaded(None);
    assert!(c == Config::default());
    assert!(needs_write);
}

#[test]
fn malformed_content_falls_back_to_default_and_round_trips() {
    let (c, needs_write) = resolve_loaded(Some("{oops"));
    assert!(c == Config::default());
    assert!(needs_write);
    // the file a caller then writes reads back as that same default
    let written = encode_config(&c);
    let (again, needs_write_again) = resolve_loaded(Some(&written));
    assert!(again == Config::default());
    assert!(!needs_write_again);
}

#[test]
fn parseable_content_is_the_sole_source_of_truth() {
    let c = config("metric", vec![Location::Zip(7)], "KEY");
    let written = encode_config(&c);
    let (loaded, needs_write) = resolve_loaded(Some(&written));
    assert!(loaded == c);
    assert!(!needs_write);
}
