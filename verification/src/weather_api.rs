//! Weather lookups against a weather report API.
//!
//! As with the statistics API, the HTTP call and the JSON decoding live
//! outside this crate; verified here are the request URL built from a city
//! name and the rendering of a decoded report into the data source's answer
//! line.

use crate::data_fetchers::{CityDataError, CityDataResult};
use vstd::prelude::*;
use vstd::string::StrSliceExecFns;
use vstd::string::StringExecFns;

verus! {

pub open spec fn weather_api_path() -> Seq<char> {
    "http://wttr.in/"@
}

/// Ask for the JSON report format.
pub open spec fn weather_api_args() -> Seq<char> {
    "?format=j1"@
}

/// A city name as it goes into the URL: spaces are dropped.
pub open spec fn without_spaces(s: Seq<char>) -> Seq<char>
    decreases s.len(),
{
    if s.len() == 0 {
        Seq::empty()
    } else {
        without_spaces(s.drop_last()) + if s.last() == ' ' {
            Seq::<char>::empty()
        } else {
            seq![s.last()]
        }
    }
}

/// The URL that asks the weather API about this city.
pub fn request_path_for_city(city: &str) -> (r: String)
    ensures
        r@ == weather_api_path() + without_spaces(city@) + weather_api_args(),
{
    let mut out = "http://wttr.in/".to_owned();
    let n = city.unicode_len();
    let mut i: usize = 0;
    while i < n
        invariant
            i <= n,
            n == city@.len(),
            out@ == weather_api_path() + without_spaces(city@.take(i as int)),
        decreases n - i,
    {
        let c = city.get_char(i);
        proof {
            assert(city@.take(i + 1).drop_last() =~= city@.take(i as int));
            assert(city@.take(i + 1).last() == city@[i as int]);
        }
        if c != ' ' {
            let piece = city.substring_char(i, i + 1);
            out.append(piece);
            proof {
                assert(piece@ =~= seq![city@[i as int]]);
                assert(weather_api_path() + without_spaces(city@.take(i as int)) + seq![city@[i as int]]
                    =~= weather_api_path() + without_spaces(city@.take(i + 1)));
            }
        } else {
            proof {
                assert(without_spaces(city@.take(i + 1)) =~= without_spaces(city@.take(i as int)));
            }
        }
        i += 1;
    }
    proof {
        assert(city@.take(n as int) =~= city@);
    }
    out.append("?format=j1");
    out
}

/// One textual description of the current weather.
pub struct WeatherDescription {
    pub value: String,
}

/// The fields of one current-condition report that this service reads.
pub struct WeatherEntry {
    pub observation_time: String,
    pub temp_c: String,
    pub feels_like_c: String,
    pub wind_dir_16_point: String,
    pub windspeed_kmph: String,
    pub weather_desc: Vec<WeatherDescription>,
}

/// The weather report's JSON body, reduced to what this service reads.
pub struct WeatherResponse {
    pub current_condition: Vec<WeatherEntry>,
}

impl WeatherEntry {
    /// The description shown: the first one, or "none" when the report
    /// carries no description at all.
    pub open spec fn description_spec(&self) -> Seq<char> {
        if self.weather_desc@.len() == 0 {
            "none"@
        } else {
            self.weather_desc@[0].value@
        }
    }

    /// The line of text this report is shown as.
    pub open spec fn render_spec(&self) -> Seq<char> {
        "Weather at "@ + self.observation_time@ + ": "@ + self.temp_c@ + "C (feels like "@
            + self.feels_like_c@ + "C) and "@ + self.description_spec() + " with winds from "@
            + self.wind_dir_16_point@ + " at "@ + self.windspeed_kmph@ + "kph"@
    }

    /// Render the report as the data source's answer line.
    pub fn render(&self) -> (r: String)
        ensures
            r@ == self.render_spec(),
    {
        let mut out = "Weather at ".to_owned();
        out.append(self.observation_time.as_str());
        out.append(": ");
        out.append(self.temp_c.as_str());
        out.append("C (feels like ");
        out.append(self.feels_like_c.as_str());
        out.append("C) and ");
        if self.weather_desc.len() == 0 {
            out.append("none");
        } else {
            out.append(self.weather_desc[0].value.as_str());
        }
        out.append(" with winds from ");
        out.append(self.wind_dir_16_point.as_str());
        out.append(" at ");
        out.append(self.windspeed_kmph.as_str());
        out.append("kph");
        out
    }
}

/// What the fetch answers once the API has responded: the first
/// current-condition report, rendered — or, if the report holds none, a fetch
/// error saying no city was found.
pub fn weather_from_response(response: WeatherResponse) -> (r: CityDataResult<String>)
    ensures
        response.current_condition@.len() == 0 ==> (r matches Err(e)
            && e matches CityDataError::FetchError(m) && m@ == "no city found"@),
        response.current_condition@.len() > 0 ==> (r matches Ok(line)
            && line@ == response.current_condition@[0].render_spec()),
{
    let mut entries = response.current_condition;
    if entries.len() == 0 {
        Err(CityDataError::FetchError("no city found".to_owned()))
    } else {
        let first = entries.remove(0);
        Ok(first.render())
    }
}

} // verus!
