//! The persisted configuration: unit preference, location list and API key.

use vstd::prelude::*;
use vstd::std_specs::cmp::PartialEqSpec;
use crate::location::{Location, LocationView};

verus! {

/// Spec-level shape of a [`Config`].
pub struct ConfigView {
    pub unit: Seq<char>,
    pub loc: Seq<LocationView>,
    pub key: Seq<char>,
}

/// Process-lifetime persisted state: the provider's unit system (passed
/// through unvalidated), the ordered location list, and the API credential.
#[derive(Debug)]
pub struct Config {
    pub unit: String,
    pub loc: Vec<Location>,
    pub key: String,
}

impl View for Config {
    type V = ConfigView;

    open spec fn view(&self) -> ConfigView {
        ConfigView { unit: self.unit@, loc: self.loc.deep_view(), key: self.key@ }
    }
}

/// The built-in default: imperial units, Seattle, no key.
pub open spec fn spec_default_config() -> ConfigView {
    ConfigView {
        unit: "imperial"@,
        loc: seq![LocationView::City("Seattle"@)],
        key: Seq::<char>::empty(),
    }
}

impl Default for Config {
    fn default() -> (c: Config)
        ensures
            c@ == spec_default_config(),
    {
        let mut loc: Vec<Location> = Vec::new();
        loc.push(Location::City(String::from_str("Seattle")));
        let c = Config { unit: String::from_str("imperial"), loc, key: String::new() };
        proof {
            assert(c@.loc =~= spec_default_config().loc);
        }
        c
    }
}

impl PartialEq for Config {
    /// Structural equality, field by field.
    fn eq(&self, other: &Config) -> (r: bool) {
        let r = self.unit == other.unit && self.loc == other.loc && self.key == other.key;
        proof {
            if r {
                assert(self@.loc =~= other@.loc);
            } else if self@ == other@ {
                assert forall|i: int| 0 <= i < self.loc@.len() implies
                    #[trigger] self.loc@[i].eq_spec(&other.loc@[i]) by {
                    assert(self@.loc[i] == other@.loc[i]);
                }
            }
        }
        r
    }
}

impl vstd::std_specs::cmp::PartialEqSpecImpl for Config {
    open spec fn obeys_eq_spec() -> bool {
        true
    }

    open spec fn eq_spec(&self, other: &Config) -> bool {
        self@ == other@
    }
}

} // verus!
