use vstd::prelude::*;

verus! {

/// The seven sub-fields of a sol record, in the order they are decoded.
#[derive(Debug, Clone, Copy, PartialEq, Eq, Structural)]
pub enum SolField {
    Temperature,
    WindDirection,
    Pressure,
    HorizontalWindSpeed,
    StartUtc,
    EndUtc,
    Season,
}

/// What can go wrong between a report document and a sol record.
#[derive(Debug, Clone, Copy, PartialEq, Eq, Structural)]
pub enum InSightError {
    /// The sol list or the validity checks are missing or misshapen.
    MalformedReport,
    /// No sol survives selection.
    NoValidBucket,
    /// The requested sol has no data entry.
    MissingBucket,
    /// A sub-field of the sol's data entry does not decode.
    FieldDecodeError(SolField),
}

impl SolField {
    /// The field's name in a decoded record.
    pub fn name(&self) -> (r: &'static str)
        ensures
            r@ == self.spec_name(),
    {
        match self {
            SolField::Temperature => "temperature",
            SolField::WindDirection => "wind_direction",
            SolField::Pressure => "pressure",
            SolField::HorizontalWindSpeed => "horizontal_wind_speed",
            SolField::StartUtc => "start_utc",
            SolField::EndUtc => "end_utc",
            SolField::Season => "season",
        }
    }

    pub open spec fn spec_name(&self) -> Seq<char> {
        match self {
            SolField::Temperature => "temperature"@,
            SolField::WindDirection => "wind_direction"@,
            SolField::Pressure => "pressure"@,
            SolField::HorizontalWindSpeed => "horizontal_wind_speed"@,
            SolField::StartUtc => "start_utc"@,
            SolField::EndUtc => "end_utc"@,
            SolField::Season => "season"@,
        }
    }
}

} // verus!
