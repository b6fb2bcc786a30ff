//! City statistics lookups against a geocoding search API.
//!
//! The HTTP call itself and the JSON decoding live outside this crate; what
//! is verified here is everything around them: how the request URL is built
//! from a city name, and how a decoded response row becomes the line of text
//! the data source answers with.

use crate::data_fetchers::{CityDataError, CityDataResult};
use vstd::prelude::*;
use vstd::string::StrSliceExecFns;
use vstd::string::StringExecFns;

verus! {

pub open spec fn city_stats_api_path() -> Seq<char> {
    "https://nominatim.openstreetmap.org/search?q="@
}

/// Ask for JSON and at most one result.
pub open spec fn city_stats_api_args() -> Seq<char> {
    "&format=json&limit=1"@
}

/// A city name as it goes into the query string: every space becomes a `+`.
pub open spec fn plus_subbed(s: Seq<char>) -> Seq<char> {
    s.map_values(|c: char| if c == ' ' { '+' } else { c })
}

/// The URL that asks the statistics API about this city.
pub fn request_path_for_city(city: &str) -> (r: String)
    ensures
        r@ == city_stats_api_path() + plus_subbed(city@) + city_stats_api_args(),
{
    let mut out = "https://nominatim.openstreetmap.org/search?q=".to_owned();
    let n = city.unicode_len();
    let mut i: usize = 0;
    while i < n
        invariant
            i <= n,
            n == city@.len(),
            out@ == city_stats_api_path() + plus_subbed(city@.take(i as int)),
        decreases n - i,
    {
        let c = city.get_char(i);
        if c == ' ' {
            out.append("+");
            proof {
                reveal_strlit("+");
                assert("+"@ =~= seq!['+']);
            }
        } else {
            let piece = city.substring_char(i, i + 1);
            out.append(piece);
            proof {
                assert(piece@ =~= seq![city@[i as int]]);
            }
        }
        proof {
            assert(plus_subbed(city@.take(i + 1)) =~= plus_subbed(city@.take(i as int)).push(
                if city@[i as int] == ' ' { '+' } else { city@[i as int] },
            ));
            assert(city_stats_api_path() + plus_subbed(city@.take(i as int)) + seq![
                if city@[i as int] == ' ' { '+' } else { city@[i as int] },
            ] =~= city_stats_api_path() + plus_subbed(city@.take(i + 1)));
        }
        i += 1;
    }
    proof {
        assert(city@.take(n as int) =~= city@);
    }
    out.append("&format=json&limit=1");
    out
}

/// One row of the statistics API's response, reduced to the field this
/// service reads: the city's display name with county, state and country.
pub struct CityStatsResponse {
    pub city_county_state_country_str: String,
}

impl CityStatsResponse {
    /// The line of text this row is shown as.
    pub open spec fn render_spec(&self) -> Seq<char> {
        "Stats for "@ + self.city_county_state_country_str@ + ":"@
    }

    /// Render the row as the data source's answer line.
    pub fn render(&self) -> (r: String)
        ensures
            r@ == self.render_spec(),
    {
        let mut out = "Stats for ".to_owned();
        out.append(self.city_county_state_country_str.as_str());
        out.append(":");
        out
    }
}

/// What the fetch answers once the API has responded: the first row, rendered
/// — or, if the response holds no rows at all, a fetch error saying no city
/// was found.
pub fn city_stats_from_responses(responses: Vec<CityStatsResponse>) -> (r: CityDataResult<String>)
    ensures
        responses@.len() == 0 ==> (r matches Err(e)
            && e matches CityDataError::FetchError(m) && m@ == "no city found"@),
        responses@.len() > 0 ==> (r matches Ok(line) && line@ == responses@[0].render_spec()),
{
    let mut rs = responses;
    if rs.len() == 0 {
        Err(CityDataError::FetchError("no city found".to_owned()))
    } else {
        let first = rs.remove(0);
        Ok(first.render())
    }
}

} // verus!
