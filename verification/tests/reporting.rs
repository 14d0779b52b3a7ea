//! Rendering and aggregation: the summary text, the failure lines, request
//! order, and the isolation of failing locations; plus query construction.

use wether::classify::{classify_body, ApiErrorResponse, Classified, Clouds, ForecastSummary, Weather};
use wether::config::Config;
use wether::location::Location;
use wether::query::build_query;
use wether::report::{aggregate, render_failure, render_success};

fn summary(city: &str, temp: i64, temp_max: i64, temp_min: i64) -> ForecastSummary {
    ForecastSummary {
        city_name: city.to_string(),
        country: "US".to_string(),
        temp,
        temp_max,
        temp_min,
        weather: Weather { main: "Clouds".to_string(), description: "overcast clouds".to_string() },
        clouds: Clouds { all: 90 },
    }
}

#[test]
fn rendered_summary_carries_the_documented_pieces() {
    // a forecast with main.temp=50.0, temp_max=55.0, temp_min=45.0 and
    // weather Clouds / overcast clouds, for Seattle
    let mut body = String::new();
    body.push_str("{\"city\":{\"name\":\"Seattle\",\"country\":\"US\"},");
    body.push_str("\"list\":[{\"main\":{\"temp\":50.0,\"temp_max\":55.0,\"temp_min\":45.0},");
    body.push_str("\"weather\":[{\"main\":\"Clouds\",\"description\":\"overcast clouds\"}]}]}");
    let rendered = match classify_body(&body) {
        Classified::Success(f) => render_success(&f),
        other => panic!("expected a success, got {:?}", other),
    };
    assert!(rendered.contains("Seattle"));
    assert!(rendered.contains("50"));
    assert!(rendered.contains("55"));
    assert!(rendered.contains("45"));
    assert!(rendered.contains("Clouds || overcast clouds"));
    assert_eq!(
        rendered,
        "Seattle, US\nCurrent temp: \t50\nHigh/Low: \t55/45\nLooks like: \tClouds || overcast clouds"
    );
}

#[test]
fn negative_temperatures_render_with_a_sign() {
    let rendered = render_success(&summary("Fairbanks", -13, -5, -21));
    assert!(rendered.contains("Current temp: \t-13"));
    assert!(rendered.contains("High/Low: \t-5/-21"));
}

#[test]
fn failure_lines_name_each_failure() {
    let api = Classified::ApiError(ApiErrorResponse { cod: 401, message: "invalid key".to_string() });
    assert_eq!(render_failure(&api), Some("provider error 401: invalid key".to_string()));
    let transport = Classified::TransportFailure("connection refused".to_string());
    assert_eq!(render_failure(&transport), Some("transport failure: connection refused".to_string()));
    let decode = Classified::DecodeFailure("bad payload".to_string());
    assert_eq!(render_failure(&decode), Some("malformed response: bad payload".to_string()));
    assert_eq!(render_failure(&Classified::Success(summary("A", 1, 2, 0))), None);
}

#[test]
fn one_transport_failure_does_not_suppress_the_other_summary() {
    // two locations: the first fails at the transport, the second succeeds;
    // the report holds exactly one summary and one reported failure
    let outcomes = vec![
        Classified::TransportFailure("timed out".to_string()),
        Classified::Success(summary("Seattle", 50, 55, 45)),
    ];
    let report = aggregate(&outcomes);
    assert_eq!(report.summaries.len(), 1);
    assert_eq!(report.failures.len(), 1);
    assert!(report.summaries[0].contains("Seattle"));
    assert!(report.failures[0].contains("timed out"));
}

#[test]
fn aggregate_keeps_request_order() {
    let outcomes = vec![
        Classified::Success(summary("A", 1, 2, 0)),
        Classified::ApiError(ApiErrorResponse { cod: 404, message: "not found".to_string() }),
        Classified::Success(summary("B", 3, 4, 2)),
        Classified::DecodeFailure("junk".to_string()),
    ];
    let report = aggregate(&outcomes);
    assert_eq!(report.summaries.len(), 2);
    assert_eq!(report.failures.len(), 2);
    assert!(report.summaries[0].starts_with("A,"));
    assert!(report.summaries[1].starts_with("B,"));
    assert!(report.failures[0].starts_with("provider error 404"));
    assert!(report.failures[1].starts_with("malformed response"));
}

#[test]
fn aggregate_of_nothing_is_empty() {
    let report = aggregate(&vec![]);
    assert_eq!(report.summaries.len(), 0);
    assert_eq!(report.failures.len(), 0);
}

#[test]
fn query_for_a_city_and_for_a_zip() {
    let conf = Config {
        unit: "imperial".to_string(),
        loc: vec![],
        key: "KEY".to_string(),
    };
    assert_eq!(
        build_query(&conf, &Location::City("Seattle".to_string())),
        "https://api.openweathermap.org/data/2.5/forecast?q=Seattle&appid=KEY&units=imperial"
    );
    assert_eq!(
        build_query(&conf, &Location::Zip(98101)),
        "https://api.openweathermap.org/data/2.5/forecast?zip=98101&appid=KEY&units=imperial"
    );
}

#[test]
fn query_forwards_values_verbatim() {
    let conf = Config {
        unit: "metric".to_string(),
        loc: vec![],
        key: String::new(),
    };
    assert_eq!(
        build_query(&conf, &Location::City("New York".to_string())),
        "https://api.openweathermap.org/data/2.5/forecast?q=New York&appid=&units=metric"
    );
}
