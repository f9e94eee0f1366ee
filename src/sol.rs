use vstd::prelude::*;

use crate::error::{InSightError, SolField};
use crate::json::{as_i32, copy_number, distinct_keys, has_distinct_keys, field_of, get_field, read_i32, same_number, Json, JsonNumber};

verus! {

/// An average, minimum and maximum over a sol, with the number of samples.
pub struct SolMeasurements {
    pub average: JsonNumber,
    pub min: JsonNumber,
    pub max: JsonNumber,
    pub sample_count: i32,
}

/// The wind observed from one compass sector.
pub struct SolWindDirection {
    pub compass_degrees: JsonNumber,
    pub compass_point: String,
    pub compass_right: JsonNumber,
    pub compass_up: JsonNumber,
    pub sample_count: i32,
}

/// A UTC instant: seconds since the Unix epoch and nanoseconds within it.
#[derive(Debug, Clone, Copy, PartialEq, Eq, Structural)]
pub struct UtcInstant {
    pub secs: i64,
    pub nanos: u32,
}

/// One sol, decoded and renamed, with no tie back to its report.
pub struct Sol {
    pub sol_date: String,
    pub temperature: SolMeasurements,
    pub wind_direction: Vec<(String, SolWindDirection)>,
    pub pressure: SolMeasurements,
    pub horizontal_wind_speed: SolMeasurements,
    pub start_utc: UtcInstant,
    pub end_utc: UtcInstant,
    pub season: String,
}

/// What chrono reads from an RFC 3339 timestamp, as seconds and nanoseconds in UTC.
pub uninterp spec fn utc_of(s: Seq<char>) -> Option<(i64, u32)>;

/// Relies on chrono's `FromStr for DateTime<Utc>` (RFC 3339, any offset, taken
/// to UTC), then `timestamp` and `timestamp_subsec_nanos`.
#[verifier::external_body]
fn parse_utc(s: &str) -> (r: Option<(i64, u32)>)
    ensures
        r == utc_of(s@),
{
    s.parse::<chrono::DateTime<chrono::Utc>>().ok().map(|d| (d.timestamp(), d.timestamp_subsec_nanos()))
}

pub open spec fn num_field(j: Json, key: Seq<char>) -> Option<JsonNumber> {
    match field_of(j, key) {
        Some(Json::Number(n)) => Some(n),
        _ => None,
    }
}

pub open spec fn i32_field(j: Json, key: Seq<char>) -> Option<i32> {
    match field_of(j, key) {
        Some(v) => as_i32(v),
        None => None,
    }
}

pub open spec fn str_field(j: Json, key: Seq<char>) -> Option<Seq<char>> {
    match field_of(j, key) {
        Some(Json::Str(s)) => Some(s@),
        _ => None,
    }
}

pub open spec fn measurement_decodes(j: Json) -> bool {
    &&& num_field(j, "av"@) is Some
    &&& num_field(j, "mn"@) is Some
    &&& num_field(j, "mx"@) is Some
    &&& i32_field(j, "ct"@) is Some
}

/// `m` is what the object `j` holds under `av`, `mn`, `mx` and `ct`.
pub open spec fn measurement_of(j: Json, m: SolMeasurements) -> bool {
    &&& measurement_decodes(j)
    &&& same_number(m.average, num_field(j, "av"@).unwrap())
    &&& same_number(m.min, num_field(j, "mn"@).unwrap())
    &&& same_number(m.max, num_field(j, "mx"@).unwrap())
    &&& m.sample_count == i32_field(j, "ct"@).unwrap()
}

pub open spec fn wind_decodes(j: Json) -> bool {
    &&& num_field(j, "compass_degrees"@) is Some
    &&& str_field(j, "compass_point"@) is Some
    &&& num_field(j, "compass_right"@) is Some
    &&& num_field(j, "compass_up"@) is Some
    &&& i32_field(j, "ct"@) is Some
}

pub open spec fn wind_of(j: Json, w: SolWindDirection) -> bool {
    &&& wind_decodes(j)
    &&& same_number(w.compass_degrees, num_field(j, "compass_degrees"@).unwrap())
    &&& w.compass_point@ == str_field(j, "compass_point"@).unwrap()
    &&& same_number(w.compass_right, num_field(j, "compass_right"@).unwrap())
    &&& same_number(w.compass_up, num_field(j, "compass_up"@).unwrap())
    &&& w.sample_count == i32_field(j, "ct"@).unwrap()
}

/// An object without repeated keys whose every member is a wind sector.
pub open spec fn wind_map_decodes(j: Json) -> bool {
    match j {
        Json::Object(es) => distinct_keys(es@) && forall|i: int|
            0 <= i < es@.len() ==> wind_decodes(#[trigger] es@[i].1),
        _ => false,
    }
}

/// `wd` holds, in order, each sector of the object `j` under its key.
pub open spec fn wind_map_of(j: Json, wd: Seq<(String, SolWindDirection)>) -> bool {
    match j {
        Json::Object(es) => {
            &&& wd.len() == es@.len()
            &&& forall|i: int|
                0 <= i < es@.len() ==> wd[i].0@ == (#[trigger] es@[i]).0@ && wind_of(es@[i].1, wd[i].1)
        },
        _ => false,
    }
}

pub open spec fn time_field(j: Json, key: Seq<char>) -> Option<(i64, u32)> {
    match str_field(j, key) {
        Some(s) => utc_of(s),
        None => None,
    }
}

pub open spec fn measurement_at(raw: Json, key: Seq<char>) -> bool {
    match field_of(raw, key) {
        Some(v) => measurement_decodes(v),
        None => false,
    }
}

pub open spec fn wind_map_at(raw: Json, key: Seq<char>) -> bool {
    match field_of(raw, key) {
        Some(v) => wind_map_decodes(v),
        None => false,
    }
}

/// The first of the seven sub-fields, in decoding order, that does not decode.
pub open spec fn first_bad_field(raw: Json) -> Option<SolField> {
    if !measurement_at(raw, "AT"@) {
        Some(SolField::Temperature)
    } else if !wind_map_at(raw, "WD"@) {
        Some(SolField::WindDirection)
    } else if !measurement_at(raw, "PRE"@) {
        Some(SolField::Pressure)
    } else if !measurement_at(raw, "HWS"@) {
        Some(SolField::HorizontalWindSpeed)
    } else if time_field(raw, "First_UTC"@) is None {
        Some(SolField::StartUtc)
    } else if time_field(raw, "Last_UTC"@) is None {
        Some(SolField::EndUtc)
    } else if str_field(raw, "Season"@) is None {
        Some(SolField::Season)
    } else {
        None
    }
}

pub open spec fn instant_is(t: UtcInstant, p: Option<(i64, u32)>) -> bool {
    p == Some((t.secs, t.nanos))
}

/// `s` is sol `id` decoded from its data entry `raw`.
pub open spec fn sol_of(id: Seq<char>, raw: Json, s: Sol) -> bool {
    &&& first_bad_field(raw) is None
    &&& s.sol_date@ == id
    &&& measurement_of(field_of(raw, "AT"@).unwrap(), s.temperature)
    &&& wind_map_of(field_of(raw, "WD"@).unwrap(), s.wind_direction@)
    &&& measurement_of(field_of(raw, "PRE"@).unwrap(), s.pressure)
    &&& measurement_of(field_of(raw, "HWS"@).unwrap(), s.horizontal_wind_speed)
    &&& instant_is(s.start_utc, time_field(raw, "First_UTC"@))
    &&& instant_is(s.end_utc, time_field(raw, "Last_UTC"@))
    &&& s.season@ == str_field(raw, "Season"@).unwrap()
}

fn read_number(j: &Json, key: &str) -> (r: Option<JsonNumber>)
    ensures
        match r {
            Some(n) => num_field(*j, key@) matches Some(m) && same_number(n, m),
            None => num_field(*j, key@) is None,
        },
{
    match get_field(j, key) {
        Some(Json::Number(n)) => Some(copy_number(n)),
        _ => None,
    }
}

fn read_i32_field(j: &Json, key: &str) -> (r: Option<i32>)
    ensures
        r == i32_field(*j, key@),
{
    match get_field(j, key) {
        Some(v) => read_i32(v),
        None => None,
    }
}

fn read_str_field(j: &Json, key: &str) -> (r: Option<String>)
    ensures
        match r {
            Some(s) => str_field(*j, key@) == Some(s@),
            None => str_field(*j, key@) is None,
        },
{
    match get_field(j, key) {
        Some(Json::Str(s)) => Some(s.clone()),
        _ => None,
    }
}

/// Decodes an object with `av`, `mn`, `mx` and an integer `ct`.
pub fn decode_measurement(j: &Json) -> (r: Option<SolMeasurements>)
    ensures
        match r {
            Some(m) => measurement_of(*j, m),
            None => !measurement_decodes(*j),
        },
{
    let average = read_number(j, "av");
    let min = read_number(j, "mn");
    let max = read_number(j, "mx");
    let sample_count = read_i32_field(j, "ct");
    match (average, min, max, sample_count) {
        (Some(average), Some(min), Some(max), Some(sample_count)) => Some(
            SolMeasurements { average, min, max, sample_count },
        ),
        _ => None,
    }
}

/// Decodes one compass sector.
pub fn decode_wind(j: &Json) -> (r: Option<SolWindDirection>)
    ensures
        match r {
            Some(w) => wind_of(*j, w),
            None => !wind_decodes(*j),
        },
{
    let compass_degrees = read_number(j, "compass_degrees");
    let compass_point = read_str_field(j, "compass_point");
    let compass_right = read_number(j, "compass_right");
    let compass_up = read_number(j, "compass_up");
    let sample_count = read_i32_field(j, "ct");
    match (compass_degrees, compass_point, compass_right, compass_up, sample_count) {
        (Some(compass_degrees), Some(compass_point), Some(compass_right), Some(compass_up), Some(sample_count)) => Some(
            SolWindDirection { compass_degrees, compass_point, compass_right, compass_up, sample_count },
        ),
        _ => None,
    }
}

/// Decodes an object of compass sectors, keeping its keys and their order.
pub fn decode_wind_map(j: &Json) -> (r: Option<Vec<(String, SolWindDirection)>>)
    ensures
        match r {
            Some(wd) => wind_map_decodes(*j) && wind_map_of(*j, wd@),
            None => !wind_map_decodes(*j),
        },
{
    match j {
        Json::Object(es) => {
            if !has_distinct_keys(es) {
                return None;
            }
            let mut out: Vec<(String, SolWindDirection)> = Vec::new();
            let mut i: usize = 0;
            while i < es.len()
                invariant
                    *j == Json::Object(*es),
                    i <= es@.len(),
                    out@.len() == i,
                    forall|k: int|
                        0 <= k < i ==> out@[k].0@ == (#[trigger] es@[k]).0@ && wind_of(es@[k].1, out@[k].1),
                decreases es.len() - i,
            {
                let item = &es[i];
                match decode_wind(&item.1) {
                    Some(w) => {
                        out.push((item.0.clone(), w));
                    },
                    None => {
                        assert(!wind_decodes(es@[i as int].1));
                        assert(j->Object_0@ == es@);
                        return None;
                    },
                }
                i += 1;
            }
            assert(forall|k: int| 0 <= k < es@.len() ==> wind_decodes(#[trigger] es@[k].1));
            Some(out)
        },
        _ => None,
    }
}

fn read_time(j: &Json, key: &str) -> (r: Option<UtcInstant>)
    ensures
        match r {
            Some(t) => instant_is(t, time_field(*j, key@)),
            None => time_field(*j, key@) is None,
        },
{
    match get_field(j, key) {
        Some(Json::Str(s)) => match parse_utc(s.as_str()) {
            Some((secs, nanos)) => Some(UtcInstant { secs, nanos }),
            None => None,
        },
        _ => None,
    }
}

fn measurement_from(raw: &Json, key: &str) -> (r: Option<SolMeasurements>)
    ensures
        match r {
            Some(m) => measurement_at(*raw, key@) && measurement_of(field_of(*raw, key@).unwrap(), m),
            None => !measurement_at(*raw, key@),
        },
{
    match get_field(raw, key) {
        Some(v) => decode_measurement(v),
        None => None,
    }
}

fn wind_map_from(raw: &Json, key: &str) -> (r: Option<Vec<(String, SolWindDirection)>>)
    ensures
        match r {
            Some(wd) => wind_map_at(*raw, key@) && wind_map_of(field_of(*raw, key@).unwrap(), wd@),
            None => !wind_map_at(*raw, key@),
        },
{
    match get_field(raw, key) {
        Some(v) => decode_wind_map(v),
        None => None,
    }
}

impl Sol {
    /// Decodes sol `sol_date` from its data entry; the first sub-field that
    /// does not decode is the error, and no partial record is made.
    pub fn decode(sol_date: String, raw: &Json) -> (r: Result<Sol, InSightError>)
        ensures
            match first_bad_field(*raw) {
                Some(f) => r == Err::<Sol, InSightError>(InSightError::FieldDecodeError(f)),
                None => r matches Ok(s) && sol_of(sol_date@, *raw, s),
            },
    {
        let temperature = match measurement_from(raw, "AT") {
            Some(m) => m,
            None => return Err(InSightError::FieldDecodeError(SolField::Temperature)),
        };
        let wind_direction = match wind_map_from(raw, "WD") {
            Some(wd) => wd,
            None => return Err(InSightError::FieldDecodeError(SolField::WindDirection)),
        };
        let pressure = match measurement_from(raw, "PRE") {
            Some(m) => m,
            None => return Err(InSightError::FieldDecodeError(SolField::Pressure)),
        };
        let horizontal_wind_speed = match measurement_from(raw, "HWS") {
            Some(m) => m,
            None => return Err(InSightError::FieldDecodeError(SolField::HorizontalWindSpeed)),
        };
        let start_utc = match read_time(raw, "First_UTC") {
            Some(t) => t,
            None => return Err(InSightError::FieldDecodeError(SolField::StartUtc)),
        };
        let end_utc = match read_time(raw, "Last_UTC") {
            Some(t) => t,
            None => return Err(InSightError::FieldDecodeError(SolField::EndUtc)),
        };
        let season = match read_str_field(raw, "Season") {
            Some(s) => s,
            None => return Err(InSightError::FieldDecodeError(SolField::Season)),
        };
        Ok(
            Sol {
                sol_date,
                temperature,
                wind_direction,
                pressure,
                horizontal_wind_speed,
                start_utc,
                end_utc,
                season,
            },
        )
    }
}

} // verus!
