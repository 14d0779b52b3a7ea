//! Response classification: the error shape wins, a well-formed forecast is
//! a success, anything else is a decode failure; plus the decimal rounding
//! the temperatures go through.

use wether::classify::{classify_body, round_decimal_text, Classified};

fn forecast_payload() -> String {
    let mut body = String::new();
    body.push_str("{\"cod\":\"200\",\"message\":0,\"cnt\":1,");
    body.push_str("\"city\":{\"name\":\"Seattle\",\"country\":\"US\",");
    body.push_str("\"coord\":{\"lat\":47.6,\"lon\":-122.3},\"timezone\":-28800},");
    body.push_str("\"list\":[{\"dt\":1578409200,");
    body.push_str("\"main\":{\"temp\":50.0,\"feels_like\":48.2,\"temp_min\":45.0,");
    body.push_str("\"temp_max\":55.0,\"pressure\":1023,\"humidity\":87},");
    body.push_str("\"weather\":[{\"id\":804,\"main\":\"Clouds\",");
    body.push_str("\"description\":\"overcast clouds\",\"icon\":\"04d\"}],");
    body.push_str("\"clouds\":{\"all\":90},\"wind\":{\"speed\":1.5,\"deg\":350},");
    body.push_str("\"dt_txt\":\"2020-01-07 15:00:00\"}]}");
    body
}

#[test]
fn error_payload_classifies_as_api_error() {
    let body = "{\"cod\": 401, \"message\": \"invalid key\"}";
    match classify_body(body) {
        Classified::ApiError(e) => {
            assert_eq!(e.cod, 401);
            assert_eq!(e.message, "invalid key");
        },
        other => panic!("expected an API error, got {:?}", other),
    }
}

#[test]
fn well_formed_forecast_classifies_as_success() {
    match classify_body(&forecast_payload()) {
        Classified::Success(f) => {
            assert_eq!(f.city_name, "Seattle");
            assert_eq!(f.country, "US");
            assert_eq!(f.temp, 50);
            assert_eq!(f.temp_max, 55);
            assert_eq!(f.temp_min, 45);
            assert_eq!(f.weather.main, "Clouds");
            assert_eq!(f.weather.description, "overcast clouds");
            assert_eq!(f.clouds.all, 90);
        },
        other => panic!("expected a success, got {:?}", other),
    }
}

#[test]
fn error_shape_wins_over_a_forecast_shape() {
    // the documented hazard: a payload carrying both shapes stops at the
    // error decode and the success decode is not attempted
    let mut body = String::new();
    body.push_str("{\"cod\":200,\"message\":\"fine\",");
    body.push_str("\"city\":{\"name\":\"X\",\"country\":\"Y\"},");
    body.push_str("\"list\":[{\"main\":{\"temp\":1,\"temp_max\":1,\"temp_min\":1},");
    body.push_str("\"weather\":[{\"main\":\"a\",\"description\":\"b\"}]}]}");
    assert!(matches!(classify_body(&body), Classified::ApiError(e) if e.cod == 200));
}

#[test]
fn unparseable_body_is_a_decode_failure() {
    assert!(matches!(classify_body("not json at all"), Classified::DecodeFailure(_)));
}

#[test]
fn wrong_shape_is_a_decode_failure() {
    // parses as JSON, but matches neither the error nor the forecast shape;
    // the diagnostic names what the forecast reading tripped over
    assert!(matches!(classify_body("{\"hello\": 1}"),
        Classified::DecodeFailure(d) if d == "no city object"));
    // an empty forecast list is not a success
    let body = "{\"city\":{\"name\":\"X\",\"country\":\"Y\"},\"list\":[]}";
    assert!(matches!(classify_body(body), Classified::DecodeFailure(d) if d == "list is empty"));
    // a status code too wide for the error shape, with no forecast either
    let body2 = "{\"cod\": 70000, \"message\": \"x\"}";
    assert!(matches!(classify_body(body2), Classified::DecodeFailure(_)));
}

#[test]
fn textual_status_code_does_not_make_an_error() {
    // "cod" must decode as an unsigned integer for the error shape
    let body = "{\"cod\": \"401\", \"message\": \"invalid key\"}";
    assert!(matches!(classify_body(body), Classified::DecodeFailure(_)));
}

#[test]
fn rounding_is_half_away_from_zero() {
    assert_eq!(round_decimal_text("50.0"), Some(50));
    assert_eq!(round_decimal_text("45.4"), Some(45));
    assert_eq!(round_decimal_text("45.5"), Some(46));
    assert_eq!(round_decimal_text("45.55"), Some(46));
    assert_eq!(round_decimal_text("-12.5"), Some(-13));
    assert_eq!(round_decimal_text("-12.4"), Some(-12));
    assert_eq!(round_decimal_text("7"), Some(7));
    assert_eq!(round_decimal_text("-7"), Some(-7));
    assert_eq!(round_decimal_text("0.0"), Some(0));
}

#[test]
fn rounding_rejects_what_is_not_plain_decimal() {
    assert_eq!(round_decimal_text(""), None);
    assert_eq!(round_decimal_text("-"), None);
    assert_eq!(round_decimal_text("12."), None);
    assert_eq!(round_decimal_text(".5"), None);
    assert_eq!(round_decimal_text("1e5"), None);
    assert_eq!(round_decimal_text("12.3.4"), None);
    assert_eq!(round_decimal_text("99999999999999999999"), None);
}
