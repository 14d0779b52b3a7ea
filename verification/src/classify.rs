//! Response classification: deciding whether a raw provider body is a
//! forecast, a provider-reported application error, or malformed. The JSON
//! collaborator parses and probes the payload; the decision among the probe
//! outcomes, and the rounding of temperature texts, are verified here.

use vstd::prelude::*;
use crate::json::{
    JsonView, doc_of, json_as_array, json_as_str, json_as_u64, json_error_text, json_get,
    json_number_text, json_of, json_parse,
};
use crate::numbers::{digit_val, digits_value, sp_digits_end, scan_digits, digits_to_u64_max};

verus! {

// ---------------------------------------------------------------------------
// The model: what this system reads out of a payload.
// ---------------------------------------------------------------------------

/// Spec-level shape of a [`Weather`].
pub struct WeatherView {
    pub main: Seq<char>,
    pub description: Seq<char>,
}

/// One weather-condition descriptor: the primary condition and its
/// human-readable description.
#[derive(Debug)]
pub struct Weather {
    pub main: String,
    pub description: String,
}

impl View for Weather {
    type V = WeatherView;

    open spec fn view(&self) -> WeatherView {
        WeatherView { main: self.main@, description: self.description@ }
    }
}

/// Cloud cover, in percent, of a forecast entry.
#[derive(Debug, Clone, Copy, PartialEq, Eq, Structural)]
pub struct Clouds {
    pub all: u16,
}

/// Spec-level shape of a [`ForecastSummary`].
pub struct ForecastSummaryView {
    pub city_name: Seq<char>,
    pub country: Seq<char>,
    pub temp: i64,
    pub temp_max: i64,
    pub temp_min: i64,
    pub weather: WeatherView,
    pub clouds: Clouds,
}

/// The fields this system reads from a successful forecast payload: the
/// city's identity, the first list entry's temperatures rounded to whole
/// degrees, its primary condition, and its cloud cover.
#[derive(Debug)]
pub struct ForecastSummary {
    pub city_name: String,
    pub country: String,
    pub temp: i64,
    pub temp_max: i64,
    pub temp_min: i64,
    pub weather: Weather,
    pub clouds: Clouds,
}

impl View for ForecastSummary {
    type V = ForecastSummaryView;

    open spec fn view(&self) -> ForecastSummaryView {
        ForecastSummaryView {
            city_name: self.city_name@,
            country: self.country@,
            temp: self.temp,
            temp_max: self.temp_max,
            temp_min: self.temp_min,
            weather: self.weather@,
            clouds: self.clouds,
        }
    }
}

impl DeepView for ForecastSummary {
    type V = ForecastSummaryView;

    open spec fn deep_view(&self) -> ForecastSummaryView {
        self.view()
    }
}

/// Spec-level shape of an [`ApiErrorResponse`].
pub struct ApiErrorResponseView {
    pub cod: u16,
    pub message: Seq<char>,
}

/// A provider-reported application-level error payload: a numeric status
/// code and a message.
#[derive(Debug)]
pub struct ApiErrorResponse {
    pub cod: u16,
    pub message: String,
}

impl View for ApiErrorResponse {
    type V = ApiErrorResponseView;

    open spec fn view(&self) -> ApiErrorResponseView {
        ApiErrorResponseView { cod: self.cod, message: self.message@ }
    }
}

/// Spec-level shape of a [`Classified`].
pub enum ClassifiedView {
    Success(ForecastSummaryView),
    ApiError(ApiErrorResponseView),
    TransportFailure(Seq<char>),
    DecodeFailure(Seq<char>),
}

/// The outcome of fetching one location. Classification itself only answers
/// the first, second or fourth variant; a transport-level failure is made by
/// the caller that performed the request.
#[derive(Debug)]
pub enum Classified {
    Success(ForecastSummary),
    ApiError(ApiErrorResponse),
    TransportFailure(String),
    DecodeFailure(String),
}

impl View for Classified {
    type V = ClassifiedView;

    open spec fn view(&self) -> ClassifiedView {
        match self {
            Classified::Success(f) => ClassifiedView::Success(f@),
            Classified::ApiError(e) => ClassifiedView::ApiError(e@),
            Classified::TransportFailure(m) => ClassifiedView::TransportFailure(m@),
            Classified::DecodeFailure(m) => ClassifiedView::DecodeFailure(m@),
        }
    }
}

impl DeepView for Classified {
    type V = ClassifiedView;

    open spec fn deep_view(&self) -> ClassifiedView {
        self.view()
    }
}

// ---------------------------------------------------------------------------
// Rounding a number's decimal text to a whole degree.
// ---------------------------------------------------------------------------

pub open spec fn spec_signed(neg: bool, v: int) -> int {
    if neg {
        -v
    } else {
        v
    }
}

/// How a number's decimal text rounds to a whole value: an optional '-',
/// one or more integer digits, optionally a '.' and one or more fraction
/// digits; rounded half away from zero (the first fraction digit decides).
/// Anything else — an exponent, a lone dot, stray characters — is refused.
pub open spec fn spec_round_text(s: Seq<char>) -> Option<int> {
    let b: int = if s.len() >= 1 && s[0] == '-' {
        1
    } else {
        0
    };
    let p = sp_digits_end(s, b);
    if p == b {
        None
    } else if p == s.len() {
        Some(spec_signed(b == 1, digits_value(s.subrange(b, p)) as int))
    } else if s[p] == '.' && p + 1 < s.len() && sp_digits_end(s, p + 1) == s.len() {
        let up: int = if digit_val(s[p + 1]) >= 5 {
            1
        } else {
            0
        };
        Some(spec_signed(b == 1, digits_value(s.subrange(b, p)) + up))
    } else {
        None
    }
}

/// The rounding as bounded by the machine: values outside the symmetric
/// window of `i64::MAX` around zero are refused.
pub open spec fn spec_rounded_window(t: Seq<char>) -> Option<i64> {
    match spec_round_text(t) {
        Some(v) => if -0x7FFF_FFFF_FFFF_FFFFint <= v <= 0x7FFF_FFFF_FFFF_FFFFint {
            Some(v as i64)
        } else {
            None::<i64>
        },
        None => None::<i64>,
    }
}

/// Rounds a number's decimal text to a whole value, within the symmetric
/// window of `i64::MAX` around zero.
pub fn round_decimal_text(t: &str) -> (r: Option<i64>)
    ensures
        r == spec_rounded_window(t@),
{
    let n = t.unicode_len();
    let neg = n >= 1 && t.get_char(0) == '-';
    let b: usize = if neg {
        1
    } else {
        0
    };
    let p = scan_digits(t, b);
    if p == b {
        return None;
    }
    let whole = match digits_to_u64_max(t, b, p, 0x7FFF_FFFF_FFFF_FFFF) {
        Some(v) => v,
        None => {
            return None;
        },
    };
    if p == n {
        let out: i64 = if neg {
            -(whole as i64)
        } else {
            whole as i64
        };
        return Some(out);
    }
    let dot = t.get_char(p);
    if dot != '.' || p + 1 >= n {
        return None;
    }
    let q = scan_digits(t, p + 1);
    if q != n {
        return None;
    }
    let first = t.get_char(p + 1);
    let up: u64 = match crate::numbers::char_to_digit(first) {
        Some(d) => if d >= 5 {
            1
        } else {
            0
        },
        None => 0,
    };
    let rounded = whole + up;
    if rounded > 0x7FFF_FFFF_FFFF_FFFF {
        return None;
    }
    let out: i64 = if neg {
        -(rounded as i64)
    } else {
        rounded as i64
    };
    Some(out)
}

// ---------------------------------------------------------------------------
// The classification policy.
// ---------------------------------------------------------------------------

/// What classification decides, given what the probes answered: the error
/// shape — an unsigned status code fitting sixteen bits together with a
/// message string — wins, and the forecast reading is then not consulted;
/// otherwise a successful forecast reading is a success; otherwise the
/// payload is malformed and the diagnostic is surfaced.
pub open spec fn spec_classify(
    err_cod: Option<u64>,
    err_msg: Option<Seq<char>>,
    forecast: Option<ForecastSummaryView>,
    diag: Seq<char>,
) -> ClassifiedView {
    match (err_cod, err_msg) {
        (Some(c), Some(m)) => if c <= 0xFFFF {
            ClassifiedView::ApiError(ApiErrorResponseView { cod: c as u16, message: m })
        } else {
            spec_classify_fallback(forecast, diag)
        },
        _ => spec_classify_fallback(forecast, diag),
    }
}

pub open spec fn spec_classify_fallback(
    forecast: Option<ForecastSummaryView>,
    diag: Seq<char>,
) -> ClassifiedView {
    match forecast {
        Some(f) => ClassifiedView::Success(f),
        None => ClassifiedView::DecodeFailure(diag),
    }
}

/// Decides among the probe outcomes; see [`spec_classify`] for the policy.
pub fn classify_probed(
    err_cod: Option<u64>,
    err_msg: Option<String>,
    forecast: Option<ForecastSummary>,
    diag: String,
) -> (r: Classified)
    ensures
        r@ == spec_classify(err_cod, err_msg.deep_view(), forecast.deep_view(), diag@),
{
    match (err_cod, err_msg) {
        (Some(c), Some(m)) => {
            if c <= 0xFFFF {
                Classified::ApiError(ApiErrorResponse { cod: c as u16, message: m })
            } else {
                classify_fallback(forecast, diag)
            }
        },
        _ => classify_fallback(forecast, diag),
    }
}

fn classify_fallback(forecast: Option<ForecastSummary>, diag: String) -> (r: Classified)
    ensures
        r@ == spec_classify_fallback(forecast.deep_view(), diag@),
{
    match forecast {
        Some(f) => Classified::Success(f),
        None => Classified::DecodeFailure(diag),
    }
}

// ---------------------------------------------------------------------------
// Probing a parsed payload: the spec level. Each probe is a function of the
// document alone.
// ---------------------------------------------------------------------------

/// The member of a document under a key, when the document is an object
/// carrying it.
pub open spec fn spec_member(d: JsonView, key: Seq<char>) -> Option<JsonView> {
    match d {
        JsonView::Obj(o) => if o.contains_key(key) {
            Some(o[key])
        } else {
            None
        },
        _ => None,
    }
}

/// The error shape's status code: the `cod` member read as an unsigned
/// integer.
pub open spec fn spec_err_cod(d: JsonView) -> Option<u64> {
    match spec_member(d, "cod"@) {
        Some(JsonView::Num(n)) => n.int_val,
        _ => None,
    }
}

/// The error shape's message: the `message` member, when it is a string.
pub open spec fn spec_err_msg(d: JsonView) -> Option<Seq<char>> {
    match spec_member(d, "message"@) {
        Some(JsonView::Str(s)) => Some(s),
        _ => None,
    }
}

/// The member under a key, rounded to a whole value, when it is a number
/// whose text is plain decimal.
pub open spec fn spec_number_rounded(d: JsonView, key: Seq<char>) -> Option<i64> {
    match spec_member(d, key) {
        Some(JsonView::Num(n)) => spec_rounded_window(n.text),
        _ => None,
    }
}

/// The cloud cover of a forecast entry, best effort: zero when missing or
/// not an unsigned integer within sixteen bits.
pub open spec fn spec_clouds(entry: JsonView) -> u16 {
    match spec_member(entry, "clouds"@) {
        Some(c) => match spec_member(c, "all"@) {
            Some(JsonView::Num(n)) => match n.int_val {
                Some(x) => if x <= 0xFFFF {
                    x as u16
                } else {
                    0
                },
                None => 0,
            },
            _ => 0,
        },
        None => 0,
    }
}

/// What the forecast reading takes from the first list entry's weather
/// descriptor, given everything read before it.
pub open spec fn spec_probe_weather(
    w0: JsonView,
    entry: JsonView,
    city_name: Seq<char>,
    country: Seq<char>,
    temp: i64,
    temp_max: i64,
    temp_min: i64,
) -> Result<ForecastSummaryView, Seq<char>> {
    match spec_member(w0, "main"@) {
        None => Err("weather.main is missing"@),
        Some(wm) => match wm {
            JsonView::Str(w_main) => match spec_member(w0, "description"@) {
                None => Err("weather.description is missing"@),
                Some(wd) => match wd {
                    JsonView::Str(w_desc) => Ok(
                        ForecastSummaryView {
                            city_name,
                            country,
                            temp,
                            temp_max,
                            temp_min,
                            weather: WeatherView { main: w_main, description: w_desc },
                            clouds: Clouds { all: spec_clouds(entry) },
                        },
                    ),
                    _ => Err("weather.description is not a string"@),
                },
            },
            _ => Err("weather.main is not a string"@),
        },
    }
}

/// What the forecast reading takes from the first list entry, given the city
/// identity read before it.
pub open spec fn spec_probe_entry(
    entry: JsonView,
    city_name: Seq<char>,
    country: Seq<char>,
) -> Result<ForecastSummaryView, Seq<char>> {
    match spec_member(entry, "main"@) {
        None => Err("first list entry has no main object"@),
        Some(main) => match spec_number_rounded(main, "temp"@) {
            None => Err("main.temp is not a plain number"@),
            Some(temp) => match spec_number_rounded(main, "temp_max"@) {
                None => Err("main.temp_max is not a plain number"@),
                Some(temp_max) => match spec_number_rounded(main, "temp_min"@) {
                    None => Err("main.temp_min is not a plain number"@),
                    Some(temp_min) => match spec_member(entry, "weather"@) {
                        None => Err("first list entry has no weather array"@),
                        Some(w) => match w {
                            JsonView::Arr(ws) => if ws.len() == 0 {
                                Err("weather is empty"@)
                            } else {
                                spec_probe_weather(
                                    ws[0],
                                    entry,
                                    city_name,
                                    country,
                                    temp,
                                    temp_max,
                                    temp_min,
                                )
                            },
                            _ => Err("weather is not an array"@),
                        },
                    },
                },
            },
        },
    }
}

/// The forecast reading: everything the renderer needs, or the first field
/// the document is missing or mistypes, named in the diagnostic.
pub open spec fn spec_probe_forecast(d: JsonView) -> Result<ForecastSummaryView, Seq<char>> {
    match spec_member(d, "city"@) {
        None => Err("no city object"@),
        Some(city) => match spec_member(city, "name"@) {
            None => Err("city.name is missing"@),
            Some(n) => match n {
                JsonView::Str(city_name) => match spec_member(city, "country"@) {
                    None => Err("city.country is missing"@),
                    Some(co) => match co {
                        JsonView::Str(country) => match spec_member(d, "list"@) {
                            None => Err("no list array"@),
                            Some(l) => match l {
                                JsonView::Arr(list) => if list.len() == 0 {
                                    Err("list is empty"@)
                                } else {
                                    spec_probe_entry(list[0], city_name, country)
                                },
                                _ => Err("list is not an array"@),
                            },
                        },
                        _ => Err("city.country is not a string"@),
                    },
                },
                _ => Err("city.name is not a string"@),
            },
        },
    }
}

/// What classification answers for a whole body text: nothing is said of a
/// transport failure, which is never produced here.
pub open spec fn spec_classify_body(s: Seq<char>) -> Option<ClassifiedView> {
    match json_of(s) {
        None => None,
        Some(d) => Some(
            spec_classify(
                spec_err_cod(d),
                spec_err_msg(d),
                (match spec_probe_forecast(d) {
                    Ok(f) => Some(f),
                    Err(_) => None::<ForecastSummaryView>,
                }),
                (match spec_probe_forecast(d) {
                    Ok(_) => Seq::<char>::empty(),
                    Err(m) => m,
                }),
            ),
        ),
    }
}

// ---------------------------------------------------------------------------
// Probing a parsed payload: the executable probes, each answering exactly
// its specification twin of the value's document.
// ---------------------------------------------------------------------------

/// Reads the error shape's two fields: `cod` as an unsigned integer and
/// `message` as a string.
fn probe_error(v: &serde_json::Value) -> (r: (Option<u64>, Option<String>))
    ensures
        r.0 == spec_err_cod(doc_of(*v)),
        r.1.deep_view() == spec_err_msg(doc_of(*v)),
{
    let cod = match json_get(v, "cod") {
        Some(c) => json_as_u64(c),
        None => None,
    };
    let msg = match json_get(v, "message") {
        Some(m) => match json_as_str(m) {
            Some(s) => Some(s.to_owned()),
            None => None,
        },
        None => None,
    };
    (cod, msg)
}

/// Rounds the numeric member of `obj` under `key` to a whole value.
fn number_rounded(obj: &serde_json::Value, key: &str) -> (r: Option<i64>)
    ensures
        r == spec_number_rounded(doc_of(*obj), key@),
{
    match json_get(obj, key) {
        Some(n) => match json_number_text(n) {
            Some(t) => round_decimal_text(t.as_str()),
            None => None,
        },
        None => None,
    }
}

/// Reads the fields this system renders from a forecast payload. Fails,
/// naming the offending field, unless the payload carries a `city` object
/// with `name` and `country` strings and a non-empty `list` whose first
/// entry has plain numeric `main.temp`, `main.temp_max` and `main.temp_min`
/// and at least one `weather` descriptor with `main` and `description`
/// strings. Cloud cover is read best-effort and defaults to zero.
fn probe_forecast(v: &serde_json::Value) -> (r: Result<ForecastSummary, String>)
    ensures
        match r {
            Ok(f) => spec_probe_forecast(doc_of(*v)) == Ok::<ForecastSummaryView, Seq<char>>(f@),
            Err(m) => spec_probe_forecast(doc_of(*v)) == Err::<ForecastSummaryView, Seq<char>>(m@),
        },
{
    let city = match json_get(v, "city") {
        Some(c) => c,
        None => {
            return Err(String::from_str("no city object"));
        },
    };
    let city_name = match json_get(city, "name") {
        Some(n) => match json_as_str(n) {
            Some(s) => s.to_owned(),
            None => {
                return Err(String::from_str("city.name is not a string"));
            },
        },
        None => {
            return Err(String::from_str("city.name is missing"));
        },
    };
    let country = match json_get(city, "country") {
        Some(n) => match json_as_str(n) {
            Some(s) => s.to_owned(),
            None => {
                return Err(String::from_str("city.country is not a string"));
            },
        },
        None => {
            return Err(String::from_str("city.country is missing"));
        },
    };
    let list = match json_get(v, "list") {
        Some(l) => match json_as_array(l) {
            Some(a) => a,
            None => {
                return Err(String::from_str("list is not an array"));
            },
        },
        None => {
            return Err(String::from_str("no list array"));
        },
    };
    if list.len() == 0 {
        return Err(String::from_str("list is empty"));
    }
    let entry = &list[0];
    let main = match json_get(entry, "main") {
        Some(m) => m,
        None => {
            return Err(String::from_str("first list entry has no main object"));
        },
    };
    let temp = match number_rounded(main, "temp") {
        Some(x) => x,
        None => {
            return Err(String::from_str("main.temp is not a plain number"));
        },
    };
    let temp_max = match number_rounded(main, "temp_max") {
        Some(x) => x,
        None => {
            return Err(String::from_str("main.temp_max is not a plain number"));
        },
    };
    let temp_min = match number_rounded(main, "temp_min") {
        Some(x) => x,
        None => {
            return Err(String::from_str("main.temp_min is not a plain number"));
        },
    };
    let weather_arr = match json_get(entry, "weather") {
        Some(w) => match json_as_array(w) {
            Some(a) => a,
            None => {
                return Err(String::from_str("weather is not an array"));
            },
        },
        None => {
            return Err(String::from_str("first list entry has no weather array"));
        },
    };
    if weather_arr.len() == 0 {
        return Err(String::from_str("weather is empty"));
    }
    let w0 = &weather_arr[0];
    let w_main = match json_get(w0, "main") {
        Some(n) => match json_as_str(n) {
            Some(s) => s.to_owned(),
            None => {
                return Err(String::from_str("weather.main is not a string"));
            },
        },
        None => {
            return Err(String::from_str("weather.main is missing"));
        },
    };
    let w_desc = match json_get(w0, "description") {
        Some(n) => match json_as_str(n) {
            Some(s) => s.to_owned(),
            None => {
                return Err(String::from_str("weather.description is not a string"));
            },
        },
        None => {
            return Err(String::from_str("weather.description is missing"));
        },
    };
    let clouds_all: u16 = match json_get(entry, "clouds") {
        Some(c) => match json_get(c, "all") {
            Some(a) => match json_as_u64(a) {
                Some(n) => if n <= 0xFFFF {
                    n as u16
                } else {
                    0
                },
                None => 0,
            },
            None => 0,
        },
        None => 0,
    };
    Ok(
        ForecastSummary {
            city_name,
            country,
            temp,
            temp_max,
            temp_min,
            weather: Weather { main: w_main, description: w_desc },
            clouds: Clouds { all: clouds_all },
        },
    )
}

/// Classifies one raw response body, per the policy of [`spec_classify`]:
/// the body is parsed once; a parse error is a decode failure carrying the
/// parser's diagnostic; otherwise the error shape is probed first, then the
/// forecast shape, with [`spec_classify_body`] fixing the outcome. Never a
/// transport failure — that outcome is made by the caller that performed
/// the request.
pub fn classify_body(body: &str) -> (r: Classified)
    ensures
        !(r is TransportFailure),
        match spec_classify_body(body@) {
            Some(c) => r@ == c,
            None => r@ is DecodeFailure,
        },
{
    match json_parse(body) {
        Err(e) => {
            let diag = json_error_text(&e);
            classify_probed(None, None, None, diag)
        },
        Ok(v) => {
            let probes = probe_error(&v);
            match probe_forecast(&v) {
                Ok(f) => classify_probed(probes.0, probes.1, Some(f), String::new()),
                Err(diag) => classify_probed(probes.0, probes.1, None, diag),
            }
        },
    }
}

} // verus!
