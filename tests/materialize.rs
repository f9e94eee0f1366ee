use insight_weather::document::parse_json;
use insight_weather::error::{InSightError, SolField};
use insight_weather::json::Json;
use insight_weather::report::InSight;
use insight_weather::sol::Sol;

const ENTRY: &str = "{\"AT\": {\"sol_hours_with_data\": [1], \"valid\": true}, \
     \"HWS\": {\"sol_hours_with_data\": [1], \"valid\": true}, \
     \"PRE\": {\"sol_hours_with_data\": [1], \"valid\": true}, \
     \"WD\": {\"sol_hours_with_data\": [1], \"valid\": true}}";

fn members(season: bool) -> Vec<String> {
    let mut m = vec![
        String::from("\"AT\": {\"av\": -62.314, \"ct\": 177556, \"mn\": -96.872, \"mx\": -15.908}"),
        String::from("\"First_UTC\": \"2020-04-25T11:54:39Z\""),
        String::from("\"HWS\": {\"av\": 4.338, \"ct\": 88628, \"mn\": 0.161, \"mx\": 17.905}"),
        String::from("\"Last_UTC\": \"2020-04-26T12:34:13Z\""),
        String::from("\"PRE\": {\"av\": 750.563, \"ct\": 887776, \"mn\": 722.0901, \"mx\": 768.791}"),
        String::from(
            "\"WD\": {\"1\": {\"compass_degrees\": 22.5, \"compass_point\": \"NNE\", \
             \"compass_right\": 0.382683432365, \"compass_up\": 0.923879532511, \"ct\": 2}, \
             \"3\": {\"compass_degrees\": 67.5, \"compass_point\": \"ENE\", \
             \"compass_right\": 0.923879532511, \"compass_up\": 0.382683432365, \"ct\": 4}}",
        ),
    ];
    if season {
        m.push(String::from("\"Season\": \"summer\""));
    }
    m
}

fn fixture(bucket: &str) -> String {
    format!(
        "{{\"sol_keys\": [\"399\", \"400\", \"401\"], \"400\": {}, \
         \"validity_checks\": {{\"sols_checked\": [\"399\", \"400\", \"401\"], \
         \"sol_hours_required\": 18, \"400\": {}}}}}",
        bucket, ENTRY
    )
}

fn bucket_of(m: &[String]) -> String {
    format!("{{{}}}", m.join(", "))
}

fn num(n: &insight_weather::json::JsonNumber) -> f64 {
    n.text.parse::<f64>().unwrap()
}

#[test]
fn round_trip_of_sol_400() {
    let r = InSight::parse(&fixture(&bucket_of(&members(true)))).unwrap();
    assert_eq!(r.earliest_valid_sol_date(), Some(String::from("400")));
    let sol = r.earliest_valid_sol().ok().unwrap();
    assert_eq!(sol.sol_date, "400");
    assert!((num(&sol.temperature.average) - -62.314).abs() < 1e-9);
    assert!((num(&sol.temperature.min) - -96.872).abs() < 1e-9);
    assert!((num(&sol.temperature.max) - -15.908).abs() < 1e-9);
    assert_eq!(sol.temperature.sample_count, 177556);
    assert!((num(&sol.pressure.average) - 750.563).abs() < 1e-9);
    assert_eq!(sol.pressure.sample_count, 887776);
    assert!((num(&sol.horizontal_wind_speed.max) - 17.905).abs() < 1e-9);
    assert_eq!(sol.horizontal_wind_speed.sample_count, 88628);
    assert_eq!(sol.wind_direction.len(), 2);
    assert_eq!(sol.wind_direction[0].0, "1");
    assert_eq!(sol.wind_direction[0].1.compass_point, "NNE");
    assert!((num(&sol.wind_direction[0].1.compass_degrees) - 22.5).abs() < 1e-9);
    assert!((num(&sol.wind_direction[1].1.compass_up) - 0.382683432365).abs() < 1e-12);
    assert_eq!(sol.wind_direction[1].1.sample_count, 4);
    assert_eq!(sol.start_utc.secs, 1587815679);
    assert_eq!(sol.start_utc.nanos, 0);
    assert_eq!(sol.end_utc.secs, 1587904453);
    assert_eq!(sol.season, "summer");
}

#[test]
fn timestamps_with_offsets_are_taken_to_utc() {
    let mut m = members(true);
    m[1] = String::from("\"First_UTC\": \"2020-04-25T13:54:39.5+02:00\"");
    let r = InSight::parse(&fixture(&bucket_of(&m))).unwrap();
    let sol = r.materialize("400").ok().unwrap();
    assert_eq!(sol.start_utc.secs, 1587815679);
    assert_eq!(sol.start_utc.nanos, 500_000_000);
}

#[test]
fn missing_season_is_a_season_error() {
    let r = InSight::parse(&fixture(&bucket_of(&members(false)))).unwrap();
    assert!(matches!(
        r.earliest_valid_sol(),
        Err(InSightError::FieldDecodeError(SolField::Season))
    ));
    assert_eq!(SolField::Season.name(), "season");
}

#[test]
fn each_bad_field_is_named() {
    let cases = [
        (0, "\"AT\": {\"av\": 1.0, \"mn\": 0.5, \"mx\": 2.0}", SolField::Temperature),
        (5, "\"WD\": {\"most_common\": null}", SolField::WindDirection),
        (4, "\"PRE\": {\"av\": 1.0, \"ct\": 2.5, \"mn\": 0.5, \"mx\": 2.0}", SolField::Pressure),
        (2, "\"HWS\": 3", SolField::HorizontalWindSpeed),
        (1, "\"First_UTC\": \"2020-04-25 11:54\"", SolField::StartUtc),
        (3, "\"Last_UTC\": 17", SolField::EndUtc),
    ];
    for (i, text, field) in cases {
        let mut m = members(true);
        m[i] = String::from(text);
        let r = InSight::parse(&fixture(&bucket_of(&m))).unwrap();
        assert_eq!(r.materialize("400").err(), Some(InSightError::FieldDecodeError(field)));
    }
}

#[test]
fn first_bad_field_in_order_wins() {
    let mut m = members(false);
    m[2] = String::from("\"HWS\": null");
    let r = InSight::parse(&fixture(&bucket_of(&m))).unwrap();
    assert_eq!(
        r.materialize("400").err(),
        Some(InSightError::FieldDecodeError(SolField::HorizontalWindSpeed))
    );
}

#[test]
fn materialize_without_data_is_missing_bucket() {
    let r = InSight::parse(&fixture(&bucket_of(&members(true)))).unwrap();
    assert_eq!(r.materialize("401").err(), Some(InSightError::MissingBucket));
}

#[test]
fn decode_from_a_tree() {
    let raw = parse_json(&bucket_of(&members(true))).unwrap();
    let sol = Sol::decode(String::from("12"), &raw).ok().unwrap();
    assert_eq!(sol.sol_date, "12");
    assert_eq!(sol.temperature.average.text, "-62.314");
    assert_eq!(sol.temperature.sample_count, 177556);
    assert_eq!(sol.temperature.average.int, None);
}

#[test]
fn integer_numbers_keep_their_value() {
    let raw = parse_json("{\"av\": 3, \"mn\": -1, \"mx\": 7, \"ct\": 4}").unwrap();
    let m = insight_weather::sol::decode_measurement(&raw).unwrap();
    assert_eq!(m.average.int, Some(3));
    assert_eq!(m.average.text, "3");
    assert_eq!(m.min.int, Some(-1));
    assert_eq!(m.sample_count, 4);
}

#[test]
fn parse_json_refuses_bad_text() {
    assert!(parse_json("{\"a\": ").is_none());
    assert!(parse_json("null").is_some());
}

#[test]
fn repeated_wind_sectors_are_refused() {
    let sector = || {
        parse_json(
            "{\"compass_degrees\": 22.5, \"compass_point\": \"NNE\", \"compass_right\": 0.38, \
             \"compass_up\": 0.92, \"ct\": 2}",
        )
        .unwrap()
    };
    let twice = Json::Object(vec![(String::from("1"), sector()), (String::from("1"), sector())]);
    assert!(insight_weather::sol::decode_wind_map(&twice).is_none());
    let once = Json::Object(vec![(String::from("1"), sector()), (String::from("2"), sector())]);
    assert_eq!(insight_weather::sol::decode_wind_map(&once).unwrap().len(), 2);
}
