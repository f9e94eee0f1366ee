use insight_weather::error::InSightError;
use insight_weather::json::Json;
use insight_weather::report::InSight;

fn channel(valid: bool) -> String {
    format!("{{\"sol_hours_with_data\": [0, 1, 2], \"valid\": {}}}", valid)
}

fn entry(valid: bool) -> String {
    format!(
        "{{\"AT\": {c}, \"HWS\": {c}, \"PRE\": {c}, \"WD\": {c}}}",
        c = channel(valid)
    )
}

fn bucket() -> String {
    String::from(
        "{\"AT\": {\"av\": -62.314, \"ct\": 177556, \"mn\": -96.872, \"mx\": -15.908}, \
         \"First_UTC\": \"2020-04-25T11:54:39Z\", \
         \"HWS\": {\"av\": 4.338, \"ct\": 88628, \"mn\": 0.161, \"mx\": 17.905}, \
         \"Last_UTC\": \"2020-04-26T12:34:13Z\", \
         \"PRE\": {\"av\": 750.563, \"ct\": 887776, \"mn\": 722.0901, \"mx\": 768.791}, \
         \"Season\": \"summer\", \
         \"WD\": {\"1\": {\"compass_degrees\": 22.5, \"compass_point\": \"NNE\", \
                  \"compass_right\": 0.382683432365, \"compass_up\": 0.923879532511, \"ct\": 2}}}",
    )
}

fn report(checked: &[&str], entries: &[(&str, bool)], data: &[&str]) -> String {
    let checked: Vec<String> = checked.iter().map(|k| format!("\"{}\"", k)).collect();
    let mut validity = format!(
        "\"sols_checked\": [{}], \"sol_hours_required\": 18",
        checked.join(", ")
    );
    for (k, v) in entries {
        validity.push_str(&format!(", \"{}\": {}", k, entry(*v)));
    }
    let mut doc = format!(
        "{{\"sol_keys\": [{}], \"validity_checks\": {{{}}}",
        checked.join(", "),
        validity
    );
    for k in data {
        doc.push_str(&format!(", \"{}\": {}", k, bucket()));
    }
    doc.push('}');
    doc
}

#[test]
fn earliest_skips_valid_sol_without_data() {
    let text = report(&["10", "11", "12"], &[("10", false), ("11", true), ("12", true)], &["12"]);
    let r = InSight::parse(&text).unwrap();
    assert_eq!(r.earliest_valid_sol_date(), Some(String::from("12")));
    let sol = r.earliest_valid_sol().ok().unwrap();
    assert_eq!(sol.sol_date, "12");
}

#[test]
fn all_valid_picks_numeric_minimum() {
    let text = report(
        &["9", "10", "100"],
        &[("100", true), ("9", true), ("10", true)],
        &["100", "10", "9"],
    );
    let r = InSight::parse(&text).unwrap();
    assert_eq!(r.earliest_valid_sol_date(), Some(String::from("9")));
}

#[test]
fn empty_validity_checks_give_no_sol() {
    let text = report(&[], &[], &["400"]);
    let r = InSight::parse(&text).unwrap();
    assert_eq!(r.earliest_valid_sol_date(), None);
    assert!(r.valid_sols().is_empty());
    assert!(matches!(r.earliest_valid_sol(), Err(InSightError::NoValidBucket)));
}

#[test]
fn non_numeric_key_never_wins() {
    let text = report(&["label", "7"], &[("label", true), ("7", true)], &["label", "7"]);
    let r = InSight::parse(&text).unwrap();
    assert_eq!(r.earliest_valid_sol_date(), Some(String::from("7")));
    let text = report(&["label"], &[("label", true)], &["label"]);
    let r = InSight::parse(&text).unwrap();
    assert_eq!(r.earliest_valid_sol_date(), None);
}

#[test]
fn negative_and_signed_keys_compare_by_value() {
    let text = report(&["-3", "+2"], &[("+2", true), ("-3", true)], &["+2", "-3"]);
    let r = InSight::parse(&text).unwrap();
    assert_eq!(r.earliest_valid_sol_date(), Some(String::from("-3")));
}

#[test]
fn key_out_of_i32_range_is_not_numeric() {
    let text = report(&["2147483648", "5"], &[("2147483648", true), ("5", true)], &["2147483648", "5"]);
    let r = InSight::parse(&text).unwrap();
    assert_eq!(r.earliest_valid_sol_date(), Some(String::from("5")));
}

#[test]
fn valid_sols_keeps_only_fully_valid_entries() {
    let text = report(&["1", "2", "3"], &[("1", true), ("2", false), ("3", true)], &[]);
    let r = InSight::parse(&text).unwrap();
    assert_eq!(r.valid_sols(), vec![String::from("1"), String::from("3")]);
    assert_eq!(r.validity_checks.sols_checked, vec!["1", "2", "3"]);
    assert_eq!(r.validity_checks.sol_hours_required, 18);
}

#[test]
fn one_invalid_channel_makes_the_sol_invalid() {
    let text = format!(
        "{{\"sol_keys\": [\"5\"], \"5\": {}, \"validity_checks\": {{\"sols_checked\": [\"5\"], \
         \"sol_hours_required\": 18, \"5\": {{\"AT\": {t}, \"HWS\": {t}, \"PRE\": {f}, \"WD\": {t}}}}}}}",
        bucket(),
        t = channel(true),
        f = channel(false)
    );
    let r = InSight::parse(&text).unwrap();
    assert!(!r.validity_checks.sols[0].1.is_valid());
    assert_eq!(r.earliest_valid_sol_date(), None);
}

#[test]
fn absent_channel_defaults_to_invalid() {
    let text = format!(
        "{{\"sol_keys\": [\"5\"], \"5\": {}, \"validity_checks\": {{\"sols_checked\": [\"5\"], \
         \"sol_hours_required\": 18, \"5\": {{\"AT\": {t}, \"HWS\": {t}, \"PRE\": {t}}}}}}}",
        bucket(),
        t = channel(true)
    );
    let r = InSight::parse(&text).unwrap();
    let e = &r.validity_checks.sols[0].1;
    assert!(!e.wind_direction.valid);
    assert!(e.wind_direction.sol_hours_with_data.is_empty());
    assert_eq!(e.temperature.sol_hours_with_data, vec![0, 1, 2]);
    assert!(!e.is_valid());
}

#[test]
fn reserved_members_are_not_sols() {
    let text = report(&["400"], &[("400", true)], &["400"]);
    let r = InSight::parse(&text).unwrap();
    assert_eq!(r.sols.len(), 1);
    assert_eq!(r.sols[0].0, "400");
    assert_eq!(r.sol_keys, vec!["400"]);
    assert_eq!(r.validity_checks.sols.len(), 1);
}

#[test]
fn malformed_reports_are_refused() {
    let bad = [
        "not json",
        "[1, 2]",
        "{\"validity_checks\": {\"sols_checked\": [], \"sol_hours_required\": 1}}",
        "{\"sol_keys\": [], \"validity_checks\": {\"sol_hours_required\": 1}}",
        "{\"sol_keys\": [1], \"validity_checks\": {\"sols_checked\": [], \"sol_hours_required\": 1}}",
        "{\"sol_keys\": [], \"validity_checks\": {\"sols_checked\": [], \"sol_hours_required\": 1.5}}",
        "{\"sol_keys\": [], \"validity_checks\": {\"sols_checked\": [], \"sol_hours_required\": 1, \"4\": 3}}",
        "{\"sol_keys\": [], \"validity_checks\": {\"sols_checked\": [], \"sol_hours_required\": 1, \
          \"4\": {\"AT\": {\"valid\": true}}}}",
    ];
    for text in bad {
        assert!(matches!(InSight::parse(text), Err(InSightError::MalformedReport)), "{}", text);
    }
}

#[test]
fn equal_values_pick_the_shorter_then_lesser_key() {
    let text = report(&["07", "7"], &[("07", true), ("7", true)], &["07", "7"]);
    let r = InSight::parse(&text).unwrap();
    assert_eq!(r.earliest_valid_sol_date(), Some(String::from("7")));
    assert_eq!(r.earliest_valid_sol().ok().unwrap().sol_date, "7");
    let text = report(&["07", "+7"], &[("07", true), ("+7", true)], &["07", "+7"]);
    let r = InSight::parse(&text).unwrap();
    assert_eq!(r.earliest_valid_sol_date(), Some(String::from("+7")));
}

#[test]
fn malformed_unselected_sol_does_not_matter() {
    let text = format!(
        "{{\"sol_keys\": [\"5\", \"6\"], \"5\": {}, \"6\": \"garbage\", \
         \"validity_checks\": {{\"sols_checked\": [\"5\", \"6\"], \"sol_hours_required\": 18, \
         \"5\": {}, \"6\": {}}}}}",
        bucket(),
        entry(true),
        entry(true)
    );
    let r = InSight::parse(&text).unwrap();
    assert_eq!(r.earliest_valid_sol().ok().unwrap().sol_date, "5");
}

#[test]
fn repeated_keys_are_refused() {
    let checks = || {
        Json::Object(vec![
            (String::from("sols_checked"), Json::Array(vec![])),
            (
                String::from("sol_hours_required"),
                Json::Number(insight_weather::json::JsonNumber { int: Some(18), text: String::from("18") }),
            ),
        ])
    };
    let doc = Json::Object(vec![
        (String::from("sol_keys"), Json::Array(vec![])),
        (String::from("validity_checks"), checks()),
        (String::from("4"), Json::Null),
        (String::from("4"), Json::Null),
    ]);
    assert!(matches!(InSight::from_json(doc), Err(InSightError::MalformedReport)));
    let doc = Json::Object(vec![
        (String::from("sol_keys"), Json::Array(vec![])),
        (String::from("validity_checks"), checks()),
        (String::from("4"), Json::Null),
    ]);
    let r = InSight::from_json(doc).ok().unwrap();
    assert_eq!(r.sols.len(), 1);
}
