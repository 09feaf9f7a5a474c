use prayer_tui::config::Config;
use prayer_tui::prayers::{notification_message, PrayerName, PrayerTimes};
use prayer_tui::schedule::build_schedule;
use prayer_tui::state::{due_prayers, AppState, Date};

fn scenario_times() -> PrayerTimes {
    PrayerTimes {
        fajr: "05:00".to_string(),
        dhuhr: "12:30".to_string(),
        asr: "15:45".to_string(),
        maghrib: "18:10".to_string(),
        isha: "19:40".to_string(),
        sunrise: "06:30".to_string(),
        sunset: "18:05".to_string(),
    }
}

fn today() -> Date {
    Date { year: 2024, month: 5, day: 1 }
}

fn occurrences(state: &AppState, p: PrayerName) -> usize {
    state.notified_prayers.iter().filter(|&&q| q == p).count()
}

#[test]
fn mark_notified_is_idempotent() {
    let mut state = AppState::new(today());
    state.mark_notified(PrayerName::Fajr);
    state.mark_notified(PrayerName::Fajr);
    assert_eq!(occurrences(&state, PrayerName::Fajr), 1);
    assert_eq!(state.notified_prayers.len(), 1);
}

#[test]
fn should_notify_flips_after_mark() {
    let mut state = AppState::new(today());
    assert!(state.should_notify(PrayerName::Dhuhr));
    state.mark_notified(PrayerName::Dhuhr);
    assert!(!state.should_notify(PrayerName::Dhuhr));
    // other prayers are untouched
    assert!(state.should_notify(PrayerName::Asr));
}

#[test]
fn rollover_runs_exactly_once_per_date() {
    let mut state = AppState::new(today());
    state.mark_notified(PrayerName::Fajr);
    state.mark_notified(PrayerName::Dhuhr);

    let tomorrow = Date { year: 2024, month: 5, day: 2 };
    let mut rollovers = 0;
    for _ in 0..300 {
        if state.needs_rollover(tomorrow) {
            state.apply_rollover(tomorrow);
            rollovers += 1;
        }
    }
    assert_eq!(rollovers, 1);
    assert_eq!(state.date, tomorrow);
    assert!(state.notified_prayers.is_empty());
}

#[test]
fn reset_clears_the_record() {
    let mut state = AppState::new(today());
    state.mark_notified(PrayerName::Isha);
    state.reset();
    assert!(state.notified_prayers.is_empty());
    assert_eq!(state.date, today());
}

#[test]
fn restart_mid_day_keeps_past_notifications() {
    // recovered state: Fajr and Dhuhr already notified today
    let state = AppState::from_parts(today(), vec![PrayerName::Fajr, PrayerName::Dhuhr]);
    assert!(!state.should_notify(PrayerName::Fajr));
    assert!(!state.should_notify(PrayerName::Dhuhr));
    assert!(state.should_notify(PrayerName::Asr));
    assert!(state.should_notify(PrayerName::Maghrib));
    assert!(state.should_notify(PrayerName::Isha));

    // at 20:00 every instant has passed, yet only the prayers not yet
    // notified are due
    let entries = build_schedule(&scenario_times()).unwrap();
    let due = due_prayers(&entries, 20 * 3600, &state);
    assert_eq!(due, vec![PrayerName::Asr, PrayerName::Maghrib, PrayerName::Isha]);
}

#[test]
fn from_parts_drops_duplicates() {
    let state = AppState::from_parts(
        today(),
        vec![PrayerName::Fajr, PrayerName::Fajr, PrayerName::Isha, PrayerName::Fajr],
    );
    assert_eq!(occurrences(&state, PrayerName::Fajr), 1);
    assert_eq!(occurrences(&state, PrayerName::Isha), 1);
    assert_eq!(state.notified_prayers.len(), 2);
}

#[test]
fn maghrib_transitions_at_its_instant() {
    let entries = build_schedule(&scenario_times()).unwrap();
    let mut state = AppState::from_parts(
        today(),
        vec![PrayerName::Fajr, PrayerName::Dhuhr, PrayerName::Asr],
    );

    // one second before 18:10 nothing is due
    assert_eq!(due_prayers(&entries, 18 * 3600 + 9 * 60 + 59, &state), vec![]);

    // at 18:10:00 Maghrib becomes due, is notified, and stays recorded
    let due = due_prayers(&entries, 18 * 3600 + 10 * 60, &state);
    assert_eq!(due, vec![PrayerName::Maghrib]);
    for p in due {
        state.mark_notified(p);
    }
    assert!(!state.should_notify(PrayerName::Maghrib));
    assert_eq!(due_prayers(&entries, 18 * 3600 + 10 * 60, &state), vec![]);
}

#[test]
fn config_defaults() {
    let c = Config::default();
    assert_eq!(c.city, "Seattle");
    assert_eq!(c.country, "US");
    assert_eq!(c.method, 2);
    assert_eq!(c.madhab, 1);
}

#[test]
fn notification_messages() {
    assert_eq!(
        notification_message(PrayerName::Maghrib),
        ("Prayer Time", "It's time for Maghrib prayer")
    );
    assert_eq!(notification_message(PrayerName::Sunrise), ("It's Sunrise", ""));
    assert_eq!(notification_message(PrayerName::Sunset), ("It's Sunset", ""));
    assert_eq!(PrayerName::Fajr.name(), "Fajr");
    assert_eq!(PrayerName::Isha.name(), "Isha");
}
