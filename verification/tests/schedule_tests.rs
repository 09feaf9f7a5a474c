use prayer_tui::prayers::{PrayerName, PrayerTimes};
use prayer_tui::schedule::{
    build_full_schedule, build_schedule, compute_tick, countdown, parse_time, split_duration,
    ParseError,
};

fn times(fajr: &str, dhuhr: &str, asr: &str, maghrib: &str, isha: &str) -> PrayerTimes {
    PrayerTimes {
        fajr: fajr.to_string(),
        dhuhr: dhuhr.to_string(),
        asr: asr.to_string(),
        maghrib: maghrib.to_string(),
        isha: isha.to_string(),
        sunrise: "06:30".to_string(),
        sunset: "18:05".to_string(),
    }
}

fn scenario_times() -> PrayerTimes {
    times("05:00", "12:30", "15:45", "18:10", "19:40")
}

#[test]
fn parse_time_valid() {
    assert_eq!(parse_time("05:00"), Ok(5 * 3600));
    assert_eq!(parse_time("00:00"), Ok(0));
    assert_eq!(parse_time("23:59"), Ok(23 * 3600 + 59 * 60));
    assert_eq!(parse_time("12:30"), Ok(12 * 3600 + 30 * 60));
}

#[test]
fn parse_time_rejects_malformed() {
    assert_eq!(parse_time(""), Err(ParseError));
    assert_eq!(parse_time("5:00"), Err(ParseError));
    assert_eq!(parse_time("05:00 "), Err(ParseError));
    assert_eq!(parse_time("aa:bb"), Err(ParseError));
    assert_eq!(parse_time("12-30"), Err(ParseError));
    assert_eq!(parse_time("24:00"), Err(ParseError));
    assert_eq!(parse_time("12:60"), Err(ParseError));
}

#[test]
fn build_schedule_plain_day() {
    let entries = build_schedule(&scenario_times()).unwrap();
    let names: Vec<PrayerName> = entries.iter().map(|e| e.name).collect();
    assert_eq!(
        names,
        vec![
            PrayerName::Fajr,
            PrayerName::Dhuhr,
            PrayerName::Asr,
            PrayerName::Maghrib,
            PrayerName::Isha,
        ]
    );
    let raws: Vec<u32> = entries.iter().map(|e| e.raw).collect();
    assert_eq!(raws, vec![18000, 45000, 56700, 65400, 70800]);
    // no entry regresses, so nothing is shifted
    for e in &entries {
        assert_eq!(e.instant, e.raw);
    }
}

#[test]
fn build_schedule_applies_wrap_shift() {
    // Asr's raw value falls below Dhuhr's, so Asr and everything after
    // it is carried past the twelve-hour mark
    let entries = build_schedule(&times("05:00", "12:30", "12:10", "18:10", "19:40")).unwrap();
    let instants: Vec<u32> = entries.iter().map(|e| e.instant).collect();
    assert_eq!(instants, vec![18000, 45000, 87000, 108600, 114000]);
    // the normalized sequence is non-decreasing
    for w in instants.windows(2) {
        assert!(w[0] <= w[1]);
    }
    // raw values are kept alongside, unshifted
    assert_eq!(entries[2].raw, 43800);
}

#[test]
fn build_schedule_reports_parse_error() {
    let bad = times("05:00", "noon", "15:45", "18:10", "19:40");
    assert_eq!(build_schedule(&bad).unwrap_err(), ParseError);
}

#[test]
fn build_full_schedule_has_markers() {
    let entries = build_full_schedule(&scenario_times()).unwrap();
    let names: Vec<PrayerName> = entries.iter().map(|e| e.name).collect();
    assert_eq!(
        names,
        vec![
            PrayerName::Fajr,
            PrayerName::Sunrise,
            PrayerName::Dhuhr,
            PrayerName::Asr,
            PrayerName::Sunset,
            PrayerName::Maghrib,
            PrayerName::Isha,
        ]
    );
    assert_eq!(entries[1].raw, 6 * 3600 + 30 * 60);
    assert_eq!(entries[4].raw, 18 * 3600 + 5 * 60);
}

#[test]
fn position_mid_afternoon() {
    // now = 18:09 -> Asr is active, Maghrib is next
    let entries = build_schedule(&scenario_times()).unwrap();
    let view = compute_tick(&entries, 18 * 3600 + 9 * 60);
    assert_eq!(view.current_index, 2);
    assert_eq!(view.next_index, 3);
}

#[test]
fn position_boundary_is_inclusive() {
    // now exactly at Maghrib's instant -> Maghrib is active
    let entries = build_schedule(&scenario_times()).unwrap();
    let view = compute_tick(&entries, 18 * 3600 + 10 * 60);
    assert_eq!(view.current_index, 3);
    assert_eq!(view.next_index, 4);
}

#[test]
fn position_before_first_wraps_to_last() {
    // before Fajr, yesterday's Isha is still the active prayer
    let entries = build_schedule(&scenario_times()).unwrap();
    let view = compute_tick(&entries, 2 * 3600);
    assert_eq!(view.current_index, 4);
    assert_eq!(view.next_index, 0);
}

#[test]
fn countdown_one_minute_before() {
    // 18:09:00 -> 18:10 is sixty seconds away
    assert_eq!(countdown(18 * 3600 + 9 * 60, 18 * 3600 + 10 * 60), 60);
    assert_eq!(split_duration(60), (0, 1, 0));
    // 18:09:59 -> one second away
    assert_eq!(countdown(18 * 3600 + 9 * 60 + 59, 18 * 3600 + 10 * 60), 1);
}

#[test]
fn countdown_through_midnight() {
    // 23:59:59 with Fajr at 05:00 tomorrow: one second to midnight plus
    // five hours, never negative or huge
    let d = countdown(86399, 5 * 3600);
    assert_eq!(d, 5 * 3600 + 1);
    assert_eq!(split_duration(d), (5, 0, 1));
}

#[test]
fn countdown_boundary_is_full_day() {
    // a next prayer exactly at now counts as already passed
    assert_eq!(countdown(18000, 18000), 86400);
}

#[test]
fn equal_adjacent_times_share_the_boundary() {
    // Dhuhr and Asr at the same minute: nothing is shifted, and at that
    // minute the later of the two is the active prayer
    let entries = build_schedule(&times("05:00", "12:30", "12:30", "18:10", "19:40")).unwrap();
    assert_eq!(entries[2].instant, entries[2].raw);
    let view = compute_tick(&entries, 12 * 3600 + 30 * 60);
    assert_eq!(view.current_index, 2);
    assert_eq!(view.next_index, 3);
}

#[test]
fn tick_view_countdown_matches_parts() {
    let entries = build_schedule(&scenario_times()).unwrap();
    let view = compute_tick(&entries, 18 * 3600 + 9 * 60);
    assert_eq!(view.countdown_seconds, 60);
    assert_eq!((view.hours, view.minutes, view.seconds), (0, 1, 0));
}
