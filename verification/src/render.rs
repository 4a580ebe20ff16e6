//! One display record per vehicle.
//!
//! A record needs every field that it shows. An entity that lacks one, or
//! whose start date or start time is not in the feed's format, gives an
//! error of its own and leaves the other entities untouched.

use crate::bearing::{compass_of, compass_point, Compass};
use crate::model::{CongestionLevel, EntityView, FeedEntity};
use crate::text::{chars_of, string_of_chars};
use vstd::prelude::*;

verus! {

/// What one vehicle's block of the report shows.
#[derive(Clone, Debug, PartialEq, Eq)]
pub struct VehicleSummary {
    /// Route identifier, as the feed gives it.
    pub route_id: String,
    /// Identifier of the entity, as the feed gives it.
    pub entity_id: String,
    /// Start date of the trip, `DD/MM/YYYY`.
    pub start_date: String,
    /// Start time of the trip on the twelve-hour clock, `H:MM AM` or `H:MM PM`.
    pub start_time: String,
    /// Degrees north, as a single-precision bit pattern.
    pub latitude: u32,
    /// Degrees east, as a single-precision bit pattern.
    pub longitude: u32,
    /// Bearing in degrees, as a single-precision bit pattern.
    pub bearing: u32,
    /// Compass point of the bearing.
    pub heading: Compass,
    /// Speed, as a single-precision bit pattern.
    pub speed: u32,
    /// Congestion level in small letters, its words apart.
    pub congestion: String,
}

/// View of a [`VehicleSummary`].
pub struct SummaryView {
    pub route_id: Seq<char>,
    pub entity_id: Seq<char>,
    pub start_date: Seq<char>,
    pub start_time: Seq<char>,
    pub latitude: u32,
    pub longitude: u32,
    pub bearing: u32,
    pub heading: Compass,
    pub speed: u32,
    pub congestion: Seq<char>,
}

impl View for VehicleSummary {
    type V = SummaryView;

    open spec fn view(&self) -> SummaryView {
        SummaryView {
            route_id: self.route_id@,
            entity_id: self.entity_id@,
            start_date: self.start_date@,
            start_time: self.start_time@,
            latitude: self.latitude,
            longitude: self.longitude,
            bearing: self.bearing,
            heading: self.heading,
            speed: self.speed,
            congestion: self.congestion@,
        }
    }
}

/// Why an entity has no display record.
#[derive(Clone, Copy, Debug, PartialEq, Eq, Structural)]
pub enum RenderError {
    MissingVehicle,
    MissingTrip,
    MissingRouteId,
    MissingStartDate,
    /// The start date is not eight digits.
    MalformedStartDate,
    MissingStartTime,
    /// The start time is not `HH:MM:SS` with an hour under 24, a minute
    /// under 60 and a second under 60.
    MalformedStartTime,
    MissingPosition,
    MissingBearing,
    MissingSpeed,
    MissingCongestionLevel,
}

/// The character is one of `0` to `9`.
pub open spec fn is_digit(c: char) -> bool {
    48 <= c as u32 <= 57
}

/// The number that a digit stands for.
pub open spec fn digit_value(c: char) -> int {
    c as u32 - 48
}

/// The digit that stands for `d`, for `d` from 0 to 9.
pub open spec fn digit_char(d: int) -> char {
    ((48 + d) as u8) as char
}

/// The text is a date of the feed: eight digits, `YYYYMMDD`.
pub open spec fn is_feed_date(text: Seq<char>) -> bool {
    &&& text.len() == 8
    &&& forall|i: int| 0 <= i < 8 ==> is_digit(#[trigger] text[i])
}

/// A date of the feed as `DD/MM/YYYY`.
pub open spec fn display_date(text: Seq<char>) -> Seq<char> {
    text.subrange(6, 8) + seq!['/'] + text.subrange(4, 6) + seq!['/'] + text.subrange(0, 4)
}

/// The number that the two digits at `at` and `at + 1` stand for.
pub open spec fn two_digit_number(text: Seq<char>, at: int) -> int {
    10 * digit_value(text[at]) + digit_value(text[at + 1])
}

/// The text has the shape `DD:DD:DD`, each `D` a digit.
pub open spec fn is_clock_shape(text: Seq<char>) -> bool {
    &&& text.len() == 8
    &&& is_digit(text[0])
    &&& is_digit(text[1])
    &&& text[2] == ':'
    &&& is_digit(text[3])
    &&& is_digit(text[4])
    &&& text[5] == ':'
    &&& is_digit(text[6])
    &&& is_digit(text[7])
}

/// The three numbers make a time of day: an hour under 24, a minute under
/// 60 and a second under 60.
pub open spec fn is_time_of_day(hour: int, minute: int, second: int) -> bool {
    0 <= hour < 24 && 0 <= minute < 60 && 0 <= second < 60
}

/// The text is a time of day of the feed: `HH:MM:SS` with an hour under 24,
/// a minute under 60 and a second under 60.
pub open spec fn is_feed_time(text: Seq<char>) -> bool {
    &&& is_clock_shape(text)
    &&& is_time_of_day(
        two_digit_number(text, 0),
        two_digit_number(text, 3),
        two_digit_number(text, 6),
    )
}

/// A number under 100 in two digits.
pub open spec fn two_digits(n: int) -> Seq<char> {
    seq![digit_char(n / 10), digit_char(n % 10)]
}

/// A number under 100 in as many digits as it needs.
pub open spec fn plain_number(n: int) -> Seq<char> {
    if n < 10 {
        seq![digit_char(n)]
    } else {
        two_digits(n)
    }
}

/// The hour on the twelve-hour clock: 12 for midnight and noon.
pub open spec fn hour_of_twelve(hour: int) -> int {
    if hour % 12 == 0 {
        12
    } else {
        hour % 12
    }
}

/// The time `hour:minute` on the twelve-hour clock: the hour without a
/// leading zero, the minute in two digits, then `AM` before noon and `PM`
/// from noon on.
pub open spec fn twelve_hour_text(hour: int, minute: int) -> Seq<char> {
    plain_number(hour_of_twelve(hour)) + seq![':'] + two_digits(minute) + seq![' '] + seq![
        if hour < 12 {
            'A'
        } else {
            'P'
        },
        'M',
    ]
}

/// A time of day of the feed on the twelve-hour clock.
pub open spec fn display_time(text: Seq<char>) -> Seq<char> {
    twelve_hour_text(two_digit_number(text, 0), two_digit_number(text, 3))
}

/// The name of a congestion level in the feed's schema.
pub open spec fn name_of(level: CongestionLevel) -> Seq<char> {
    match level {
        CongestionLevel::UnknownCongestionLevel => "UNKNOWN_CONGESTION_LEVEL"@,
        CongestionLevel::RunningSmoothly => "RUNNING_SMOOTHLY"@,
        CongestionLevel::StopAndGo => "STOP_AND_GO"@,
        CongestionLevel::Congestion => "CONGESTION"@,
        CongestionLevel::SevereCongestion => "SEVERE_CONGESTION"@,
    }
}

/// A character of a schema name as the report shows it: a space for an
/// underscore, the small letter for a capital letter from `A` to `Z`, any
/// other character as it is.
pub open spec fn plain_char(c: char) -> char {
    if c == '_' {
        ' '
    } else if 65 <= c as u32 <= 90 {
        ((c as u32 + 32) as u8) as char
    } else {
        c
    }
}

/// A schema name as the report shows it, character by character.
pub open spec fn plain_words(name: Seq<char>) -> Seq<char> {
    name.map_values(|c: char| plain_char(c))
}

/// The display record of an entity, or the first thing that it lacks.
pub open spec fn summary_of(entity: EntityView) -> Result<SummaryView, RenderError> {
    match entity.vehicle {
        None => Err(RenderError::MissingVehicle),
        Some(vehicle) => match vehicle.trip {
            None => Err(RenderError::MissingTrip),
            Some(trip) => match (trip.route_id, trip.start_date, trip.start_time) {
                (None, _, _) => Err(RenderError::MissingRouteId),
                (Some(_), None, _) => Err(RenderError::MissingStartDate),
                (Some(route), Some(date), time) => if !is_feed_date(date) {
                    Err(RenderError::MalformedStartDate)
                } else {
                    match time {
                        None => Err(RenderError::MissingStartTime),
                        Some(clock) => if !is_feed_time(clock) {
                            Err(RenderError::MalformedStartTime)
                        } else {
                            match vehicle.position {
                                None => Err(RenderError::MissingPosition),
                                Some(position) => match (
                                    position.bearing,
                                    position.speed,
                                    vehicle.congestion_level,
                                ) {
                                    (None, _, _) => Err(RenderError::MissingBearing),
                                    (Some(_), None, _) => Err(RenderError::MissingSpeed),
                                    (Some(_), Some(_), None) => Err(
                                        RenderError::MissingCongestionLevel,
                                    ),
                                    (Some(bearing), Some(speed), Some(level)) => Ok(
                                        SummaryView {
                                            route_id: route,
                                            entity_id: entity.id,
                                            start_date: display_date(date),
                                            start_time: display_time(clock),
                                            latitude: position.latitude,
                                            longitude: position.longitude,
                                            bearing,
                                            heading: compass_of(bearing),
                                            speed,
                                            congestion: plain_words(name_of(level)),
                                        },
                                    ),
                                },
                            }
                        },
                    }
                },
            },
        },
    }
}

/// View of the outcome of rendering one entity.
pub open spec fn outcome_view(outcome: Result<VehicleSummary, RenderError>) -> Result<
    SummaryView,
    RenderError,
> {
    match outcome {
        Ok(summary) => Ok(summary@),
        Err(e) => Err(e),
    }
}

/// Builds the time with `chrono::NaiveTime::from_hms_opt` and formats it
/// with `NaiveTime::format` and the pattern `%-I:%M %p`. There is a time
/// exactly where the hour is under 24, the minute under 60 and the second
/// under 60; its text is the hour on the twelve-hour clock without padding,
/// a colon, the minute in two digits, a space, and `AM` or `PM`.
#[verifier::external_body]
fn clock_text(hour: u32, minute: u32, second: u32) -> (text: Option<String>)
    ensures
        text is Some <==> is_time_of_day(hour as int, minute as int, second as int),
        text matches Some(t) ==> t@ == twelve_hour_text(hour as int, minute as int),
{
    let time = chrono::NaiveTime::from_hms_opt(hour, minute, second)?;
    Some(time.format("%-I:%M %p").to_string())
}

/// Whether `c` is a digit, and the number it stands for.
fn digit_of(c: char) -> (d: Option<u32>)
    ensures
        d is Some <==> is_digit(c),
        d matches Some(v) ==> v == digit_value(c),
{
    let code: u32 = c as u32;
    if 48 <= code && code <= 57 {
        Some(code - 48)
    } else {
        None
    }
}

/// Turns a date `YYYYMMDD` into `DD/MM/YYYY`. There is a result exactly
/// where `date` is eight digits.
pub fn reformat_date(date: &str) -> (shown: Option<String>)
    ensures
        shown is Some <==> is_feed_date(date@),
        shown matches Some(t) ==> t@ == display_date(date@),
{
    let chars = chars_of(date);
    if chars.len() != 8 {
        return None;
    }
    let mut i: usize = 0;
    while i < 8
        invariant
            i <= 8,
            chars@ == date@,
            chars@.len() == 8,
            forall|j: int| 0 <= j < i ==> is_digit(#[trigger] chars@[j]),
        decreases 8 - i,
    {
        if digit_of(chars[i]).is_none() {
            return None;
        }
        i += 1;
    }
    let mut out: Vec<char> = Vec::new();
    out.push(chars[6]);
    out.push(chars[7]);
    out.push('/');
    out.push(chars[4]);
    out.push(chars[5]);
    out.push('/');
    out.push(chars[0]);
    out.push(chars[1]);
    out.push(chars[2]);
    out.push(chars[3]);
    assert(out@ =~= display_date(date@));
    Some(string_of_chars(&out))
}

/// Turns a time of day `HH:MM:SS` into the twelve-hour clock, `H:MM AM` or
/// `H:MM PM`. There is a result exactly where `time` has that shape with an
/// hour under 24, a minute under 60 and a second under 60.
pub fn reformat_time(time: &str) -> (shown: Option<String>)
    ensures
        shown is Some <==> is_feed_time(time@),
        shown matches Some(t) ==> t@ == display_time(time@),
{
    let chars = chars_of(time);
    if chars.len() != 8 {
        return None;
    }
    if chars[2] != ':' || chars[5] != ':' {
        return None;
    }
    let h1 = match digit_of(chars[0]) {
        Some(d) => d,
        None => { return None; },
    };
    let h0 = match digit_of(chars[1]) {
        Some(d) => d,
        None => { return None; },
    };
    let m1 = match digit_of(chars[3]) {
        Some(d) => d,
        None => { return None; },
    };
    let m0 = match digit_of(chars[4]) {
        Some(d) => d,
        None => { return None; },
    };
    let s1 = match digit_of(chars[6]) {
        Some(d) => d,
        None => { return None; },
    };
    let s0 = match digit_of(chars[7]) {
        Some(d) => d,
        None => { return None; },
    };
    clock_text(10 * h1 + h0, 10 * m1 + m0, 10 * s1 + s0)
}

impl CongestionLevel {
    /// The level's name in the feed's schema.
    pub fn name(&self) -> (text: &'static str)
        ensures
            text@ == name_of(*self),
    {
        match self {
            CongestionLevel::UnknownCongestionLevel => "UNKNOWN_CONGESTION_LEVEL",
            CongestionLevel::RunningSmoothly => "RUNNING_SMOOTHLY",
            CongestionLevel::StopAndGo => "STOP_AND_GO",
            CongestionLevel::Congestion => "CONGESTION",
            CongestionLevel::SevereCongestion => "SEVERE_CONGESTION",
        }
    }
}

/// Shows a schema name in small letters with its words apart:
/// `STOP_AND_GO` becomes `stop and go`.
pub fn plain_text(name: &str) -> (shown: String)
    ensures
        shown@ == plain_words(name@),
{
    let chars = chars_of(name);
    let mut out: Vec<char> = Vec::new();
    let mut i: usize = 0;
    while i < chars.len()
        invariant
            i <= chars.len(),
            chars@ == name@,
            out@ == plain_words(name@.take(i as int)),
        decreases chars.len() - i,
    {
        let c = chars[i];
        let code: u32 = c as u32;
        let shown: char = if c == '_' {
            ' '
        } else if 65 <= code && code <= 90 {
            ((code + 32) as u8) as char
        } else {
            c
        };
        out.push(shown);
        assert(out@ =~= plain_words(name@.take(i + 1)));
        i += 1;
    }
    assert(name@.take(i as int) =~= name@);
    string_of_chars(&out)
}

/// The text that the report shows for a congestion level.
pub fn congestion_text(level: CongestionLevel) -> (shown: String)
    ensures
        shown@ == plain_words(name_of(level)),
{
    plain_text(level.name())
}

/// The display record of `entity`, or the first thing that it lacks.
pub fn render_entity(entity: &FeedEntity) -> (outcome: Result<VehicleSummary, RenderError>)
    ensures
        outcome_view(outcome) == summary_of(entity@),
{
    let vehicle = match &entity.vehicle {
        Some(v) => v,
        None => { return Err(RenderError::MissingVehicle); },
    };
    let trip = match &vehicle.trip {
        Some(t) => t,
        None => { return Err(RenderError::MissingTrip); },
    };
    let route = match &trip.route_id {
        Some(r) => r,
        None => { return Err(RenderError::MissingRouteId); },
    };
    let date = match &trip.start_date {
        Some(d) => d,
        None => { return Err(RenderError::MissingStartDate); },
    };
    let start_date = match reformat_date(date.as_str()) {
        Some(d) => d,
        None => { return Err(RenderError::MalformedStartDate); },
    };
    let time = match &trip.start_time {
        Some(t) => t,
        None => { return Err(RenderError::MissingStartTime); },
    };
    let start_time = match reformat_time(time.as_str()) {
        Some(t) => t,
        None => { return Err(RenderError::MalformedStartTime); },
    };
    let position = match &vehicle.position {
        Some(p) => p,
        None => { return Err(RenderError::MissingPosition); },
    };
    let bearing = match position.bearing {
        Some(b) => b,
        None => { return Err(RenderError::MissingBearing); },
    };
    let speed = match position.speed {
        Some(s) => s,
        None => { return Err(RenderError::MissingSpeed); },
    };
    let level = match vehicle.congestion_level {
        Some(l) => l,
        None => { return Err(RenderError::MissingCongestionLevel); },
    };
    Ok(
        VehicleSummary {
            route_id: route.clone(),
            entity_id: entity.id.clone(),
            start_date,
            start_time,
            latitude: position.latitude,
            longitude: position.longitude,
            bearing,
            heading: compass_point(bearing),
            speed,
            congestion: congestion_text(level),
        },
    )
}

/// Renders each entity on its own: as many outcomes as entities, in their
/// order, and none for an empty selection.
pub fn render_entities(entities: &Vec<&FeedEntity>) -> (outcomes: Vec<
    Result<VehicleSummary, RenderError>,
>)
    ensures
        outcomes@.len() == entities@.len(),
        forall|i: int|
            0 <= i < entities@.len() ==> outcome_view(#[trigger] outcomes@[i]) == summary_of(
                entities@[i]@,
            ),
{
    let mut outcomes: Vec<Result<VehicleSummary, RenderError>> = Vec::new();
    let mut i: usize = 0;
    while i < entities.len()
        invariant
            i <= entities.len(),
            outcomes@.len() == i,
            forall|j: int|
                0 <= j < i ==> outcome_view(#[trigger] outcomes@[j]) == summary_of(entities@[j]@),
        decreases entities.len() - i,
    {
        outcomes.push(render_entity(entities[i]));
        i += 1;
    }
    outcomes
}

} // verus!
