//! The place a forecast is asked for: a free-text city name or a numeric
//! postal code.

use vstd::prelude::*;

verus! {

/// Spec-level shape of a [`Location`].
pub enum LocationView {
    City(Seq<char>),
    Zip(u32),
}

/// A place to forecast: a city name, forwarded verbatim to the provider,
/// or a postal code, forwarded as a number.
#[derive(Debug, Clone)]
pub enum Location {
    City(String),
    Zip(u32),
}

impl View for Location {
    type V = LocationView;

    open spec fn view(&self) -> LocationView {
        match self {
            Location::City(name) => LocationView::City(name@),
            Location::Zip(code) => LocationView::Zip(*code),
        }
    }
}

impl DeepView for Location {
    type V = LocationView;

    open spec fn deep_view(&self) -> LocationView {
        self.view()
    }
}

impl Location {
    /// A copy with the same view.
    pub fn duplicate(&self) -> (r: Location)
        ensures
            r@ == self@,
    {
        match self {
            Location::City(name) => Location::City(name.clone()),
            Location::Zip(code) => Location::Zip(*code),
        }
    }
}

/// How free-text input names a location: a run of decimal digits whose
/// value fits the postal-code width is a zip code; anything else is a city
/// name, taken verbatim.
pub open spec fn spec_parse_location(s: Seq<char>) -> LocationView {
    match crate::numbers::spec_parse_u32(s) {
        Some(z) => LocationView::Zip(z),
        None => LocationView::City(s),
    }
}

/// Parses free-text input (CLI or config) into a location.
pub fn parse_location(s: String) -> (r: Location)
    ensures
        r@ == spec_parse_location(s@),
{
    match crate::numbers::parse_u32(s.as_str()) {
        Some(z) => Location::Zip(z),
        None => Location::City(s),
    }
}

impl PartialEq for Location {
    /// Structural equality: same variant, same payload.
    fn eq(&self, other: &Location) -> (r: bool) {
        match (self, other) {
            (Location::City(a), Location::City(b)) => *a == *b,
            (Location::Zip(a), Location::Zip(b)) => *a == *b,
            _ => false,
        }
    }
}

impl vstd::std_specs::cmp::PartialEqSpecImpl for Location {
    open spec fn obeys_eq_spec() -> bool {
        true
    }

    open spec fn eq_spec(&self, other: &Location) -> bool {
        self@ == other@
    }
}

} // verus!
