use vstd::prelude::*;

use crate::json::{
    as_i32, distinct_keys, field_of, find_member, get_field, is_strings, others, read_i32, read_strings, str_eq,
    has_distinct_keys, strings_of, Json,
};

verus! {

/// Whether one measurement channel had enough data over a sol.
pub struct InSightSolValidationKind {
    pub sol_hours_with_data: Vec<i32>,
    pub valid: bool,
}

impl Default for InSightSolValidationKind {
    /// A channel the report does not mention: no hours, not valid.
    fn default() -> (r: Self)
        ensures
            r.sol_hours_with_data@.len() == 0,
            !r.valid,
    {
        InSightSolValidationKind { sol_hours_with_data: Vec::new(), valid: false }
    }
}

/// The validity of the four channels of one sol.
pub struct InSightSolValidation {
    pub temperature: InSightSolValidationKind,
    pub wind_direction: InSightSolValidationKind,
    pub pressure: InSightSolValidationKind,
    pub horizontal_wind_speed: InSightSolValidationKind,
}

impl InSightSolValidation {
    pub open spec fn spec_is_valid(&self) -> bool {
        &&& self.temperature.valid
        &&& self.wind_direction.valid
        &&& self.pressure.valid
        &&& self.horizontal_wind_speed.valid
    }

    /// A sol is valid only when all four of its channels are.
    pub fn is_valid(&self) -> (r: bool)
        ensures
            r == self.spec_is_valid(),
    {
        self.temperature.valid && self.wind_direction.valid && self.pressure.valid
            && self.horizontal_wind_speed.valid
    }
}

/// The report's validity checks: the sols it checked, the hours it required,
/// and the validity of each sol by its key.
pub struct InSightValidityChecks {
    pub sols_checked: Vec<String>,
    pub sol_hours_required: i32,
    pub sols: Vec<(String, InSightSolValidation)>,
}

/// An array of integers that fit in an `i32`, read as `hs`.
pub open spec fn hours_of(j: Json, hs: Seq<i32>) -> bool {
    match j {
        Json::Array(xs) => hs.len() == xs@.len() && forall|i: int|
            0 <= i < hs.len() ==> as_i32(#[trigger] xs@[i]) == Some(hs[i]),
        _ => false,
    }
}

pub open spec fn hours_decode(j: Json) -> bool {
    match j {
        Json::Array(xs) => forall|i: int| 0 <= i < xs@.len() ==> as_i32(#[trigger] xs@[i]) is Some,
        _ => false,
    }
}

pub open spec fn channel_decodes(j: Json) -> bool {
    &&& field_of(j, "sol_hours_with_data"@) matches Some(h) && hours_decode(h)
    &&& field_of(j, "valid"@) matches Some(Json::Bool(_))
}

/// `c` is the channel object `j`.
pub open spec fn channel_of(j: Json, c: InSightSolValidationKind) -> bool {
    &&& channel_decodes(j)
    &&& hours_of(field_of(j, "sol_hours_with_data"@).unwrap(), c.sol_hours_with_data@)
    &&& field_of(j, "valid"@) == Some(Json::Bool(c.valid))
}

/// A channel under `key` is either absent or well formed.
pub open spec fn slot_decodes(j: Json, key: Seq<char>) -> bool {
    match field_of(j, key) {
        Some(c) => channel_decodes(c),
        None => true,
    }
}

/// `c` is the channel under `key`, or the default where there is none.
pub open spec fn slot_of(j: Json, key: Seq<char>, c: InSightSolValidationKind) -> bool {
    match field_of(j, key) {
        Some(v) => channel_of(v, c),
        None => c.sol_hours_with_data@.len() == 0 && !c.valid,
    }
}

pub open spec fn entry_decodes(j: Json) -> bool {
    &&& j is Object
    &&& slot_decodes(j, "AT"@)
    &&& slot_decodes(j, "WD"@)
    &&& slot_decodes(j, "PRE"@)
    &&& slot_decodes(j, "HWS"@)
}

/// `e` is the validity object `j`.
pub open spec fn entry_of(j: Json, e: InSightSolValidation) -> bool {
    &&& entry_decodes(j)
    &&& slot_of(j, "AT"@, e.temperature)
    &&& slot_of(j, "WD"@, e.wind_direction)
    &&& slot_of(j, "PRE"@, e.pressure)
    &&& slot_of(j, "HWS"@, e.horizontal_wind_speed)
}

/// The members of the validity object that describe sols.
pub open spec fn sol_members(j: Json) -> Seq<(String, Json)> {
    others(j->Object_0@, "sols_checked"@, "sol_hours_required"@)
}

pub open spec fn checks_decode(j: Json) -> bool {
    &&& j is Object
    &&& field_of(j, "sols_checked"@) matches Some(c) && is_strings(c)
    &&& field_of(j, "sol_hours_required"@) matches Some(h) && as_i32(h) is Some
    &&& forall|i: int| 0 <= i < sol_members(j).len() ==> entry_decodes(#[trigger] sol_members(j)[i].1)
    &&& distinct_keys(sol_members(j))
}

/// `v` is the validity object `j`: every member other than `sols_checked` and
/// `sol_hours_required` is a sol's validity, kept under its key and in order.
pub open spec fn checks_of(j: Json, v: InSightValidityChecks) -> bool {
    &&& checks_decode(j)
    &&& strings_of(field_of(j, "sols_checked"@).unwrap(), v.sols_checked@)
    &&& Some(v.sol_hours_required) == as_i32(field_of(j, "sol_hours_required"@).unwrap())
    &&& v.sols@.len() == sol_members(j).len()
    &&& forall|i: int|
        0 <= i < v.sols@.len() ==> (#[trigger] v.sols@[i]).0 == sol_members(j)[i].0 && entry_of(
            sol_members(j)[i].1,
            v.sols@[i].1,
        )
}

fn read_hours(j: &Json) -> (r: Option<Vec<i32>>)
    ensures
        match r {
            Some(hs) => hours_decode(*j) && hours_of(*j, hs@),
            None => !hours_decode(*j),
        },
{
    match j {
        Json::Array(xs) => {
            let mut out: Vec<i32> = Vec::new();
            let mut i: usize = 0;
            while i < xs.len()
                invariant
                    *j == Json::Array(*xs),
                    i <= xs@.len(),
                    out@.len() == i,
                    forall|k: int| 0 <= k < i ==> as_i32(#[trigger] xs@[k]) == Some(out@[k]),
                decreases xs.len() - i,
            {
                match read_i32(&xs[i]) {
                    Some(h) => out.push(h),
                    None => {
                        assert(j->Array_0@ == xs@);
                        return None;
                    },
                }
                i += 1;
            }
            assert(forall|k: int| 0 <= k < xs@.len() ==> as_i32(#[trigger] xs@[k]) is Some);
            Some(out)
        },
        _ => None,
    }
}

/// Decodes one channel's validity object.
pub fn decode_channel(j: &Json) -> (r: Option<InSightSolValidationKind>)
    ensures
        match r {
            Some(c) => channel_of(*j, c),
            None => !channel_decodes(*j),
        },
{
    let hours = match get_field(j, "sol_hours_with_data") {
        Some(h) => read_hours(h),
        None => None,
    };
    let valid = match get_field(j, "valid") {
        Some(Json::Bool(b)) => Some(*b),
        _ => None,
    };
    match (hours, valid) {
        (Some(sol_hours_with_data), Some(valid)) => Some(
            InSightSolValidationKind { sol_hours_with_data, valid },
        ),
        _ => None,
    }
}

fn decode_slot(j: &Json, key: &str) -> (r: Option<InSightSolValidationKind>)
    ensures
        match r {
            Some(c) => slot_of(*j, key@, c),
            None => !slot_decodes(*j, key@),
        },
{
    match get_field(j, key) {
        Some(c) => decode_channel(c),
        None => Some(InSightSolValidationKind::default()),
    }
}

/// Decodes one sol's validity object; an absent channel counts as invalid.
pub fn decode_entry(j: &Json) -> (r: Option<InSightSolValidation>)
    ensures
        match r {
            Some(e) => entry_of(*j, e),
            None => !entry_decodes(*j),
        },
{
    if !matches!(j, Json::Object(_)) {
        return None;
    }
    let temperature = decode_slot(j, "AT");
    let wind_direction = decode_slot(j, "WD");
    let pressure = decode_slot(j, "PRE");
    let horizontal_wind_speed = decode_slot(j, "HWS");
    match (temperature, wind_direction, pressure, horizontal_wind_speed) {
        (Some(temperature), Some(wind_direction), Some(pressure), Some(horizontal_wind_speed)) => Some(
            InSightSolValidation { temperature, wind_direction, pressure, horizontal_wind_speed },
        ),
        _ => None,
    }
}

impl InSightValidityChecks {
    /// Decodes the validity object, every sol's entry included.
    pub fn decode(j: &Json) -> (r: Option<InSightValidityChecks>)
        ensures
            match r {
                Some(v) => checks_of(*j, v) && distinct_keys(v.sols@),
                None => !checks_decode(*j),
            },
    {
        let es = match j {
            Json::Object(es) => es,
            _ => return None,
        };
        let sols_checked = match find_member(es, "sols_checked") {
            Some(c) => match read_strings(c) {
                Some(v) => v,
                None => return None,
            },
            None => return None,
        };
        let sol_hours_required = match find_member(es, "sol_hours_required") {
            Some(h) => match read_i32(h) {
                Some(v) => v,
                None => return None,
            },
            None => return None,
        };
        let ghost all = es@;
        let mut sols: Vec<(String, InSightSolValidation)> = Vec::new();
        let mut i: usize = 0;
        while i < es.len()
            invariant
                all == es@,
                *j == Json::Object(*es),
                i <= es@.len(),
                sols@.len() == others(all.take(i as int), "sols_checked"@, "sol_hours_required"@).len(),
                forall|k: int|
                    0 <= k < sols@.len() ==> (#[trigger] sols@[k]).0 == others(
                        all.take(i as int),
                        "sols_checked"@,
                        "sol_hours_required"@,
                    )[k].0 && entry_of(
                        others(all.take(i as int), "sols_checked"@, "sol_hours_required"@)[k].1,
                        sols@[k].1,
                    ),
                forall|k: int|
                    0 <= k < others(all.take(i as int), "sols_checked"@, "sol_hours_required"@).len()
                        ==> entry_decodes(
                        #[trigger] others(all.take(i as int), "sols_checked"@, "sol_hours_required"@)[k].1,
                    ),
            decreases es.len() - i,
        {
            assert(all.take(i + 1).drop_last() =~= all.take(i as int));
            let key = &es[i].0;
            if !str_eq(key.as_str(), "sols_checked") && !str_eq(
                key.as_str(),
                "sol_hours_required",
            ) {
                match decode_entry(&es[i].1) {
                    Some(e) => {
                        sols.push((key.clone(), e));
                    },
                    None => {
                        let ghost sm = others(all.take(i + 1), "sols_checked"@, "sol_hours_required"@);
                        assert(sm.last() == all[i as int]);
                        proof {
                            lemma_others_prefix(all, i + 1, "sols_checked"@, "sol_hours_required"@);
                        }
                        assert(sol_members(*j)[sm.len() - 1] == sm[sm.len() - 1]);
                        return None;
                    },
                }
            }
            i += 1;
        }
        assert(all.take(es@.len() as int) =~= all);
        let ghost sm = sol_members(*j);
        assert(j->Object_0@ == all);
        assert(sols@.len() == sm.len());
        assert(forall|a: int| 0 <= a < sols@.len() ==> (#[trigger] sols@[a]).0@ == sm[a].0@);
        if !has_distinct_keys(&sols) {
            let ghost (a, b) = choose|a: int, b: int|
                0 <= a < b < sols@.len() && (#[trigger] sols@[a]).0@ == (#[trigger] sols@[b]).0@;
            assert(sm[a].0@ == sm[b].0@);
            return None;
        }
        assert forall|a: int, b: int| 0 <= a < b < sm.len() implies (#[trigger] sm[a]).0@ != (
        #[trigger] sm[b]).0@ by {
            assert(sols@[a].0@ != sols@[b].0@);
        }
        Some(InSightValidityChecks { sols_checked, sol_hours_required, sols })
    }
}

/// The members kept from a prefix are a prefix of those kept from the whole.
pub proof fn lemma_others_prefix(es: Seq<(String, Json)>, k: int, a: Seq<char>, b: Seq<char>)
    requires
        0 <= k <= es.len(),
    ensures
        others(es.take(k), a, b).len() <= others(es, a, b).len(),
        forall|i: int|
            0 <= i < others(es.take(k), a, b).len() ==> #[trigger] others(es.take(k), a, b)[i] == others(
                es,
                a,
                b,
            )[i],
    decreases es.len() - k,
{
    if k < es.len() {
        assert(es.take(k + 1).drop_last() =~= es.take(k));
        lemma_others_prefix(es, k + 1, a, b);
        let small = others(es.take(k), a, b);
        let big = others(es.take(k + 1), a, b);
        assert forall|i: int| 0 <= i < small.len() implies #[trigger] small[i] == others(es, a, b)[i] by {
            assert(small[i] == big[i]);
        }
    } else {
        assert(es.take(k) =~= es);
    }
}

} // verus!
