//! The named daily time points and the raw clock strings they come from.

use vstd::prelude::*;

verus! {

/// One of the seven named time points of a day. The five canonical
/// prayers are schedule members; Sunrise and Sunset are auxiliary
/// markers that are announced but never enter the ordered schedule.
#[derive(PartialEq, Eq, Structural, Clone, Copy, Debug)]
pub enum PrayerName {
    Fajr,
    Sunrise,
    Dhuhr,
    Asr,
    Sunset,
    Maghrib,
    Isha,
}

/// The display name of each time point.
pub open spec fn spec_name(p: PrayerName) -> Seq<char> {
    match p {
        PrayerName::Fajr => "Fajr"@,
        PrayerName::Sunrise => "Sunrise"@,
        PrayerName::Dhuhr => "Dhuhr"@,
        PrayerName::Asr => "Asr"@,
        PrayerName::Sunset => "Sunset"@,
        PrayerName::Maghrib => "Maghrib"@,
        PrayerName::Isha => "Isha"@,
    }
}

impl PrayerName {
    /// The display name, as it appears in notifications and in the
    /// persisted record of already-notified prayers.
    pub fn name(self) -> (r: &'static str)
        ensures
            r@ == spec_name(self),
    {
        match self {
            PrayerName::Fajr => "Fajr",
            PrayerName::Sunrise => "Sunrise",
            PrayerName::Dhuhr => "Dhuhr",
            PrayerName::Asr => "Asr",
            PrayerName::Sunset => "Sunset",
            PrayerName::Maghrib => "Maghrib",
            PrayerName::Isha => "Isha",
        }
    }
}

/// The seven raw "HH:MM" clock strings for one day, as the external
/// fetch collaborator delivers them. Immutable once fetched for a day.
#[derive(Clone, Debug)]
pub struct PrayerTimes {
    pub fajr: String,
    pub dhuhr: String,
    pub asr: String,
    pub maghrib: String,
    pub isha: String,
    pub sunrise: String,
    pub sunset: String,
}

/// The notification summary line for each time point.
pub open spec fn spec_summary(p: PrayerName) -> Seq<char> {
    match p {
        PrayerName::Sunrise => "It's Sunrise"@,
        PrayerName::Sunset => "It's Sunset"@,
        _ => "Prayer Time"@,
    }
}

/// The notification body line for each time point. The two markers get
/// an empty body; each prayer names itself.
pub open spec fn spec_body(p: PrayerName) -> Seq<char> {
    match p {
        PrayerName::Fajr => "It's time for Fajr prayer"@,
        PrayerName::Sunrise => ""@,
        PrayerName::Dhuhr => "It's time for Dhuhr prayer"@,
        PrayerName::Asr => "It's time for Asr prayer"@,
        PrayerName::Sunset => ""@,
        PrayerName::Maghrib => "It's time for Maghrib prayer"@,
        PrayerName::Isha => "It's time for Isha prayer"@,
    }
}

/// The summary and body handed to the external notifier when `p`'s
/// time arrives.
pub fn notification_message(p: PrayerName) -> (r: (&'static str, &'static str))
    ensures
        r.0@ == spec_summary(p),
        r.1@ == spec_body(p),
{
    match p {
        PrayerName::Fajr => ("Prayer Time", "It's time for Fajr prayer"),
        PrayerName::Sunrise => ("It's Sunrise", ""),
        PrayerName::Dhuhr => ("Prayer Time", "It's time for Dhuhr prayer"),
        PrayerName::Asr => ("Prayer Time", "It's time for Asr prayer"),
        PrayerName::Sunset => ("It's Sunset", ""),
        PrayerName::Maghrib => ("Prayer Time", "It's time for Maghrib prayer"),
        PrayerName::Isha => ("Prayer Time", "It's time for Isha prayer"),
    }
}

} // verus!
