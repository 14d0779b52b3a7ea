//! Provider query construction: one URL per location.

use vstd::prelude::*;
use crate::config::{Config, ConfigView};
use crate::location::{Location, LocationView};
use crate::numbers::{spec_dec, u64_to_dec};

verus! {

/// The exact query URL for one location: the fixed forecast endpoint, the
/// location as `q=<city>` or `zip=<code>`, then the config's key and unit.
pub open spec fn spec_query(c: ConfigView, v: LocationView) -> Seq<char> {
    "https://api.openweathermap.org/data/2.5/forecast?"@ + (match v {
        LocationView::City(name) => "q="@ + name,
        LocationView::Zip(z) => "zip="@ + spec_dec(z as nat),
    }) + "&appid="@ + c.key + "&units="@ + c.unit
}

/// Builds the provider query URL. Parameter values are forwarded verbatim;
/// percent-encoding of reserved characters in city names is the caller's or
/// the transport's business, not this function's.
pub fn build_query(conf: &Config, loc: &Location) -> (r: String)
    ensures
        r@ == spec_query(conf@, loc@),
{
    let mut out = String::from_str("https://api.openweathermap.org/data/2.5/forecast?");
    match loc {
        Location::City(name) => {
            out.append("q=");
            out.append(name.as_str());
        },
        Location::Zip(z) => {
            out.append("zip=");
            let digits = u64_to_dec(*z as u64);
            out.append(digits.as_str());
        },
    }
    out.append("&appid=");
    out.append(conf.key.as_str());
    out.append("&units=");
    out.append(conf.unit.as_str());
    proof {
        assert(out@ =~= spec_query(conf@, loc@));
    }
    out
}

} // verus!
