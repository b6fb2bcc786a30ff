use city_info::city_stats_api::{self, city_stats_from_responses, CityStatsResponse};
use city_info::data_fetchers::CityDataError;
use city_info::weather_api::{
    self, weather_from_response, WeatherDescription, WeatherEntry, WeatherResponse,
};

#[test]
fn test_format() {
    let stats = CityStatsResponse {
        city_county_state_country_str: String::from("Unit Test City"),
    };

    let expected_format = String::from("Stats for Unit Test City:");

    assert_eq!(stats.render(), expected_format);
    assert_eq!(stats.render(), expected_format);
}

#[test]
fn test_format_response() {
    let entry = WeatherEntry {
        observation_time: String::from("10:09 PM"),
        temp_c: String::from("20"),
        feels_like_c: String::from("21"),
        wind_dir_16_point: String::from("ESE"),
        windspeed_kmph: String::from("12"),
        weather_desc: vec![WeatherDescription {
            value: String::from("Sunny"),
        }],
    };

    let expected_format = String::from(
        "Weather at 10:09 PM: 20C (feels like 21C) and Sunny with winds from ESE at 12kph",
    );

    assert_eq!(entry.render(), expected_format);
    assert_eq!(entry.render(), expected_format);
}

#[test]
fn weather_render_without_description() {
    let entry = WeatherEntry {
        observation_time: String::from("10:09 PM"),
        temp_c: String::from("20"),
        feels_like_c: String::from("21"),
        wind_dir_16_point: String::from("ESE"),
        windspeed_kmph: String::from("12"),
        weather_desc: Vec::new(),
    };

    assert_eq!(
        entry.render(),
        String::from("Weather at 10:09 PM: 20C (feels like 21C) and none with winds from ESE at 12kph")
    );
}

#[test]
fn stats_request_path_substitutes_spaces() {
    assert_eq!(
        city_stats_api::request_path_for_city("San Jose"),
        String::from("https://nominatim.openstreetmap.org/search?q=San+Jose&format=json&limit=1")
    );
    assert_eq!(
        city_stats_api::request_path_for_city("Paris"),
        String::from("https://nominatim.openstreetmap.org/search?q=Paris&format=json&limit=1")
    );
}

#[test]
fn weather_request_path_drops_spaces() {
    assert_eq!(
        weather_api::request_path_for_city("San Jose"),
        String::from("http://wttr.in/SanJose?format=j1")
    );
    assert_eq!(
        weather_api::request_path_for_city("Paris"),
        String::from("http://wttr.in/Paris?format=j1")
    );
}

#[test]
fn first_stats_row_becomes_the_answer() {
    let rows = vec![
        CityStatsResponse {
            city_county_state_country_str: String::from("First City"),
        },
        CityStatsResponse {
            city_county_state_country_str: String::from("Second City"),
        },
    ];
    assert_eq!(
        city_stats_from_responses(rows),
        Ok(String::from("Stats for First City:"))
    );
}

#[test]
fn empty_stats_response_is_a_fetch_error() {
    assert_eq!(
        city_stats_from_responses(Vec::new()),
        Err(CityDataError::FetchError(String::from("no city found")))
    );
}

#[test]
fn empty_weather_response_is_a_fetch_error() {
    let response = WeatherResponse {
        current_condition: Vec::new(),
    };
    assert_eq!(
        weather_from_response(response),
        Err(CityDataError::FetchError(String::from("no city found")))
    );
}

#[test]
fn first_weather_entry_becomes_the_answer() {
    let response = WeatherResponse {
        current_condition: vec![WeatherEntry {
            observation_time: String::from("1:00 AM"),
            temp_c: String::from("3"),
            feels_like_c: String::from("1"),
            wind_dir_16_point: String::from("N"),
            windspeed_kmph: String::from("7"),
            weather_desc: vec![WeatherDescription {
                value: String::from("Clear"),
            }],
        }],
    };
    assert_eq!(
        weather_from_response(response),
        Ok(String::from(
            "Weather at 1:00 AM: 3C (feels like 1C) and Clear with winds from N at 7kph"
        ))
    );
}
