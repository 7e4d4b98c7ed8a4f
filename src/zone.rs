//! What only the time-zone database can tell, asked of jiff.
use crate::datetime::{CivilDateTime, ZonedTime, MAX_INSTANT, MIN_INSTANT};
use crate::engine::DATE_FORMAT;
use vstd::prelude::*;

verus! {

#[verifier::external_type_specification]
#[verifier::external_body]
pub struct ExTimeZone(jiff::tz::TimeZone);

#[verifier::external_type_specification]
#[verifier::external_body]
pub struct ExJiffError(jiff::Error);

/// The reading that jiff's `strptime` takes from a text with the date format of marked tag
/// values, if any.
pub uninterp spec fn date_reading(text: Seq<char>) -> Option<ZonedTime>;

/// The civil reading that jiff's `DateTime` parser takes from a text, if any.
pub uninterp spec fn civil_reading(text: Seq<char>) -> Option<CivilDateTime>;

/// Relies on jiff::tz::TimeZone::get: looks a zone up by its IANA name in the time-zone
/// database of this machine.
#[verifier::external_body]
pub(crate) fn zone_named(name: &str) -> (r: Result<jiff::tz::TimeZone, jiff::Error>) {
    jiff::tz::TimeZone::get(name)
}

/// Relies on jiff::Timestamp::to_zoned: the instant read in a zone keeps the instant, and its
/// civil reading is the instant shifted by the zone's offset there.
#[verifier::external_body]
pub(crate) fn zoned_at(tz: &jiff::tz::TimeZone, second: i64) -> (r: ZonedTime)
    requires
        MIN_INSTANT <= second <= MAX_INSTANT,
    ensures
        r.wf(),
        r.instant() == second,
{
    let z = jiff::Timestamp::from_second(second).unwrap().to_zoned(tz.clone());
    ZonedTime {
        datetime: CivilDateTime {
            year: z.year(),
            month: z.month(),
            day: z.day(),
            hour: z.hour(),
            minute: z.minute(),
            second: z.second(),
        },
        offset: z.offset().seconds(),
    }
}

/// Relies on jiff::tz::TimeZone::to_zoned: a civil reading placed in a zone, a gap or a fold
/// settled the compatible way (the offset in force before the transition), so the reading is
/// kept but in a gap, where it moves later; fails when the instant falls outside jiff's range.
#[verifier::external_body]
pub(crate) fn zoned_from_civil(tz: &jiff::tz::TimeZone, dt: CivilDateTime) -> (r: Result<
    ZonedTime,
    jiff::Error,
>)
    requires
        dt.wf(),
    ensures
        r matches Ok(z) ==> z.wf(),
        r matches Ok(z) ==> z.datetime == dt || dt.seconds() < z.datetime.seconds(),
{
    let d = jiff::civil::DateTime::new(dt.year, dt.month, dt.day, dt.hour, dt.minute, dt.second, 0);
    let z = tz.to_zoned(d?)?;
    Ok(ZonedTime {
        datetime: CivilDateTime {
            year: z.year(),
            month: z.month(),
            day: z.day(),
            hour: z.hour(),
            minute: z.minute(),
            second: z.second(),
        },
        offset: z.offset().seconds(),
    })
}

/// Relies on jiff::Zoned::strptime: parses a zoned reading with the date format of marked tag
/// values, which names no zone but a fixed offset; the result then depends on the text alone.
#[verifier::external_body]
pub(crate) fn strptime(format: &str, text: &str) -> (r: Result<ZonedTime, jiff::Error>)
    requires
        format@ == DATE_FORMAT@,
    ensures
        match r {
            Ok(z) => date_reading(text@) == Some(z) && z.wf(),
            Err(_) => date_reading(text@) is None,
        },
{
    let z = jiff::Zoned::strptime(format, text)?;
    Ok(ZonedTime {
        datetime: CivilDateTime {
            year: z.year(),
            month: z.month(),
            day: z.day(),
            hour: z.hour(),
            minute: z.minute(),
            second: z.second(),
        },
        offset: z.offset().seconds(),
    })
}

/// Relies on jiff's `FromStr` for civil::DateTime: parses a civil reading such as
/// `2023-06-01T14:22:05`; the result depends on the text alone.
#[verifier::external_body]
pub(crate) fn parse_civil(text: &str) -> (r: Result<CivilDateTime, jiff::Error>)
    ensures
        match r {
            Ok(d) => civil_reading(text@) == Some(d) && d.wf(),
            Err(_) => civil_reading(text@) is None,
        },
{
    let d = text.parse::<jiff::civil::DateTime>()?;
    Ok(CivilDateTime {
        year: d.year(),
        month: d.month(),
        day: d.day(),
        hour: d.hour(),
        minute: d.minute(),
        second: d.second(),
    })
}

} // verus!
