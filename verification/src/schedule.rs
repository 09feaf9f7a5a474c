//! Building the daily schedule and deriving position and countdown from it.

use vstd::prelude::*;
use crate::prayers::PrayerName;
use crate::prayers::PrayerTimes;

verus! {

/// Number of seconds in one rotation of the clock.
pub const SECONDS_PER_DAY: u32 = 86400;

/// Twelve hours in seconds: the shift applied to entries that appear to
/// have wrapped past midnight.
pub const HALF_DAY: u32 = 43200;

/// Error raised when a raw clock string is not of the form "HH:MM".
#[derive(PartialEq, Eq, Structural, Clone, Copy, Debug)]
pub struct ParseError;

/// A decimal digit.
pub open spec fn is_digit(c: char) -> bool {
    '0' <= c && c <= '9'
}

/// The numeric value of a decimal digit.
pub open spec fn digit_val(c: char) -> int {
    c as int - '0' as int
}

/// A well-formed "HH:MM" clock string in 24-hour format: exactly five
/// characters, two digit pairs separated by a colon, hours below 24 and
/// minutes below 60.
pub open spec fn valid_hhmm(s: Seq<char>) -> bool {
    &&& s.len() == 5
    &&& is_digit(s[0])
    &&& is_digit(s[1])
    &&& s[2] == ':'
    &&& is_digit(s[3])
    &&& is_digit(s[4])
    &&& digit_val(s[0]) * 10 + digit_val(s[1]) < 24
    &&& digit_val(s[3]) * 10 + digit_val(s[4]) < 60
}

/// The time of day a well-formed "HH:MM" string denotes, in seconds
/// since midnight.
pub open spec fn hhmm_seconds(s: Seq<char>) -> int {
    (digit_val(s[0]) * 10 + digit_val(s[1])) * 3600 + (digit_val(s[3]) * 10 + digit_val(s[4]))
        * 60
}

/// Parses a raw "HH:MM" clock string into seconds since midnight.
/// Succeeds exactly on well-formed strings; anything else is a
/// `ParseError`.
pub fn parse_time(s: &str) -> (r: Result<u32, ParseError>)
    ensures
        r is Ok <==> valid_hhmm(s@),
        r matches Ok(v) ==> v == hhmm_seconds(s@) && v < SECONDS_PER_DAY,
{
    if s.unicode_len() != 5 {
        return Err(ParseError);
    }
    let c0 = s.get_char(0);
    let c1 = s.get_char(1);
    let c2 = s.get_char(2);
    let c3 = s.get_char(3);
    let c4 = s.get_char(4);
    if c2 != ':' {
        return Err(ParseError);
    }
    if !(('0' <= c0 && c0 <= '9') && ('0' <= c1 && c1 <= '9') && ('0' <= c3 && c3 <= '9') && ('0'
        <= c4 && c4 <= '9')) {
        return Err(ParseError);
    }
    let hours: u32 = (c0 as u32 - '0' as u32) * 10 + (c1 as u32 - '0' as u32);
    let minutes: u32 = (c3 as u32 - '0' as u32) * 10 + (c4 as u32 - '0' as u32);
    if hours >= 24 || minutes >= 60 {
        return Err(ParseError);
    }
    Ok(hours * 3600 + minutes * 60)
}

/// Wrap-corrects a sequence of raw time-of-day values, walking it in
/// order and keeping the last emitted value: an entry whose raw value is
/// strictly below the last emitted one is taken to have wrapped past
/// midnight and is shifted forward by twelve hours before being emitted.
pub open spec fn spec_normalize(raws: Seq<int>) -> Seq<int>
    decreases raws.len(),
{
    if raws.len() == 0 {
        Seq::empty()
    } else {
        let prev = spec_normalize(raws.drop_last());
        let last = if prev.len() == 0 {
            0
        } else {
            prev.last()
        };
        let e = if raws.last() < last {
            raws.last() + 43200
        } else {
            raws.last()
        };
        prev.push(e)
    }
}

/// Applies the wrap correction to raw time-of-day values, in seconds.
/// Each output entry is the matching input entry, shifted forward by
/// twelve hours exactly when its raw value falls below the previously
/// emitted one.
pub fn normalize_times(raws: &Vec<u32>) -> (r: Vec<u32>)
    requires
        forall|i: int| 0 <= i < raws@.len() ==> raws@[i] < SECONDS_PER_DAY,
    ensures
        r@.len() == raws@.len(),
        r@.map_values(|v: u32| v as int) == spec_normalize(
            raws@.map_values(|v: u32| v as int),
        ),
        forall|i: int|
            0 <= i < r@.len() ==> r@[i] == raws@[i] || r@[i] == raws@[i] + HALF_DAY,
{
    let ghost m = raws@.map_values(|v: u32| v as int);
    let mut out: Vec<u32> = Vec::new();
    let mut last: u32 = 0;
    let mut i: usize = 0;
    while i < raws.len()
        invariant
            i <= raws@.len(),
            forall|j: int| 0 <= j < raws@.len() ==> raws@[j] < SECONDS_PER_DAY,
            m == raws@.map_values(|v: u32| v as int),
            out@.len() == i,
            out@.map_values(|v: u32| v as int) == spec_normalize(m.take(i as int)),
            i == 0 ==> last == 0,
            i > 0 ==> last == out@[i - 1],
            forall|j: int| 0 <= j < i ==> out@[j] == raws@[j] || out@[j] == raws@[j] + HALF_DAY,
        decreases raws@.len() - i,
    {
        let t = raws[i];
        let e = if t < last {
            t + HALF_DAY
        } else {
            t
        };
        proof {
            assert(m.take(i + 1).drop_last() =~= m.take(i as int));
            assert(m.take(i + 1).last() == t as int);
            assert(spec_normalize(m.take(i + 1)) == spec_normalize(m.take(i as int)).push(
                e as int,
            ));
            assert(out@.push(e).map_values(|v: u32| v as int) =~= out@.map_values(
                |v: u32| v as int,
            ).push(e as int));
        }
        out.push(e);
        last = e;
        i += 1;
    }
    proof {
        assert(m.take(raws@.len() as int) =~= m);
    }
    out
}

/// Raw time-of-day inputs on which the twelve-hour wrap correction is
/// sound: every value is a time of day, successive values regress at
/// most once, and that one regression is by at most twelve hours.
pub open spec fn single_wrap_input(raws: Seq<int>) -> bool {
    &&& forall|i: int| 0 <= i < raws.len() ==> 0 <= #[trigger] raws[i] < 86400
    &&& forall|i: int|
        1 <= i < raws.len() ==> raws[i - 1] <= #[trigger] raws[i] || raws[i - 1] - raws[i]
            <= 43200
    &&& forall|i: int, j: int|
        1 <= i < j < raws.len() && #[trigger] raws[i] < raws[i - 1] ==> raws[j - 1]
            <= #[trigger] raws[j]
}

/// The wrap correction emits a non-decreasing sequence whenever its
/// input regresses at most once and by at most twelve hours; each
/// output stays within twelve hours above its raw input, and an input
/// that never regresses passes through unchanged.
pub proof fn lemma_normalize_monotone(raws: Seq<int>)
    requires
        single_wrap_input(raws),
    ensures
        spec_normalize(raws).len() == raws.len(),
        forall|i: int|
            1 <= i < raws.len() ==> spec_normalize(raws)[i - 1] <= #[trigger] spec_normalize(
                raws,
            )[i],
        forall|i: int|
            0 <= i < raws.len() ==> raws[i] <= #[trigger] spec_normalize(raws)[i] <= raws[i]
                + 43200,
        (forall|i: int| 1 <= i < raws.len() ==> raws[i - 1] <= #[trigger] raws[i])
            ==> (forall|i: int|
            0 <= i < raws.len() ==> #[trigger] spec_normalize(raws)[i] == raws[i]),
    decreases raws.len(),
{
    if raws.len() > 0 {
        let n = raws.len() as int;
        let prefix = raws.drop_last();
        assert forall|i: int| 0 <= i < prefix.len() implies prefix[i] == raws[i] by {}
        assert forall|i: int, j: int|
            1 <= i < j < prefix.len() && #[trigger] prefix[i] < prefix[i - 1] implies prefix[j
            - 1] <= #[trigger] prefix[j] by {
            assert(raws[i] < raws[i - 1]);
        }
        lemma_normalize_monotone(prefix);
        let p = spec_normalize(prefix);
        let full = spec_normalize(raws);
        assert(full == p.push(if raws[n - 1] < (if p.len() == 0 {
            0
        } else {
            p.last()
        }) {
            raws[n - 1] + 43200
        } else {
            raws[n - 1]
        }));
        if n >= 2 {
            let last_emitted = p[n - 2];
            assert(p.last() == last_emitted);
            if raws[n - 1] < last_emitted {
                // the final entry is shifted; its landing point clears the
                // previously emitted value in either of the two ways the
                // input allows
                if raws[n - 1] >= raws[n - 2] {
                    assert(last_emitted <= raws[n - 2] + 43200);
                    assert(full[n - 1] == raws[n - 1] + 43200 >= last_emitted);
                } else {
                    // the one regression is here, so the prefix never
                    // regresses and was emitted unchanged
                    assert forall|i: int| 1 <= i < prefix.len() implies prefix[i - 1]
                        <= #[trigger] prefix[i] by {
                        assert(raws[i] >= raws[i - 1]);
                    }
                    assert(last_emitted == raws[n - 2]);
                    assert(raws[n - 2] - raws[n - 1] <= 43200);
                    assert(full[n - 1] == raws[n - 1] + 43200 >= last_emitted);
                }
            }
        }
        if (forall|i: int| 1 <= i < raws.len() ==> raws[i - 1] <= #[trigger] raws[i]) {
            assert forall|i: int| 1 <= i < prefix.len() implies prefix[i - 1]
                <= #[trigger] prefix[i] by {
                assert(raws[i] >= raws[i - 1]);
            }
            if n >= 2 {
                assert(p[n - 2] == prefix[n - 2]);
                assert(raws[n - 1] >= raws[n - 2]);
            }
            assert forall|i: int| 0 <= i < raws.len() implies #[trigger] spec_normalize(raws)[i]
                == raws[i] by {
                if i < n - 1 {
                    assert(full[i] == p[i]);
                }
            }
        }
    }
}

/// A built schedule whose raw inputs regress at most once, and then by
/// at most twelve hours, carries non-decreasing wrap-corrected
/// instants. The hypothesis relating instants to `spec_normalize` is
/// exactly what `build_schedule` ensures of its result.
pub proof fn lemma_schedule_monotone(s: Seq<ScheduleEntry>)
    requires
        spec_instants(s) == spec_normalize(spec_raws(s)),
        single_wrap_input(spec_raws(s)),
    ensures
        forall|i: int|
            1 <= i < s.len() ==> #[trigger] s[i - 1].instant <= s[i].instant,
{
    lemma_normalize_monotone(spec_raws(s));
    assert forall|i: int| 1 <= i < s.len() implies #[trigger] s[i - 1].instant
        <= s[i].instant by {
        assert(spec_instants(s)[i - 1] == s[i - 1].instant as int);
        assert(spec_instants(s)[i] == s[i].instant as int);
    }
}

/// One member of the ordered daily schedule: a prayer name, the raw
/// clock value its "HH:MM" string denoted, and the wrap-corrected
/// instant on the extended 0-36h axis.
#[derive(PartialEq, Eq, Structural, Clone, Copy, Debug)]
pub struct ScheduleEntry {
    pub name: PrayerName,
    pub raw: u32,
    pub instant: u32,
}

/// Well-formedness of one schedule entry: the raw value is a time of
/// day, and the instant is that value shifted by twelve hours or not at
/// all.
pub open spec fn entry_wf(e: ScheduleEntry) -> bool {
    &&& e.raw < SECONDS_PER_DAY
    &&& (e.instant == e.raw || e.instant == e.raw + HALF_DAY)
}

/// The fixed order of the five canonical prayers within a day.
pub open spec fn spec_prayer_order() -> Seq<PrayerName> {
    seq![
        PrayerName::Fajr,
        PrayerName::Dhuhr,
        PrayerName::Asr,
        PrayerName::Maghrib,
        PrayerName::Isha,
    ]
}

/// The five canonical raw clock strings of a day, in prayer order.
pub open spec fn spec_raw_strings(t: PrayerTimes) -> Seq<Seq<char>> {
    seq![t.fajr@, t.dhuhr@, t.asr@, t.maghrib@, t.isha@]
}

/// The raw time-of-day values of a schedule, in order.
pub open spec fn spec_raws(s: Seq<ScheduleEntry>) -> Seq<int> {
    s.map_values(|e: ScheduleEntry| e.raw as int)
}

/// The wrap-corrected instants of a schedule, in order.
pub open spec fn spec_instants(s: Seq<ScheduleEntry>) -> Seq<int> {
    s.map_values(|e: ScheduleEntry| e.instant as int)
}

/// The full day order of all seven time points, markers included.
pub open spec fn spec_day_order() -> Seq<PrayerName> {
    seq![
        PrayerName::Fajr,
        PrayerName::Sunrise,
        PrayerName::Dhuhr,
        PrayerName::Asr,
        PrayerName::Sunset,
        PrayerName::Maghrib,
        PrayerName::Isha,
    ]
}

/// All seven raw clock strings of a day, in day order.
pub open spec fn spec_all_raw_strings(t: PrayerTimes) -> Seq<Seq<char>> {
    seq![t.fajr@, t.sunrise@, t.dhuhr@, t.asr@, t.sunset@, t.maghrib@, t.isha@]
}

/// Pairs each name with its raw value and wrap-corrected instant.
fn zip_entries(names: &Vec<PrayerName>, raws: &Vec<u32>, instants: &Vec<u32>) -> (r: Vec<
    ScheduleEntry,
>)
    requires
        names@.len() == raws@.len(),
        instants@.len() == raws@.len(),
    ensures
        r@.len() == names@.len(),
        forall|i: int|
            0 <= i < r@.len() ==> #[trigger] r@[i] == (ScheduleEntry {
                name: names@[i],
                raw: raws@[i],
                instant: instants@[i],
            }),
{
    let mut out: Vec<ScheduleEntry> = Vec::new();
    let mut i: usize = 0;
    while i < names.len()
        invariant
            i <= names@.len(),
            names@.len() == raws@.len(),
            instants@.len() == raws@.len(),
            out@.len() == i,
            forall|j: int|
                0 <= j < i ==> #[trigger] out@[j] == (ScheduleEntry {
                    name: names@[j],
                    raw: raws@[j],
                    instant: instants@[j],
                }),
        decreases names@.len() - i,
    {
        out.push(ScheduleEntry { name: names[i], raw: raws[i], instant: instants[i] });
        i += 1;
    }
    out
}

/// Builds the ordered daily schedule from the five canonical "HH:MM"
/// strings: parses each, then applies the wrap correction in prayer
/// order. Fails with `ParseError` exactly when some string is
/// malformed.
pub fn build_schedule(t: &PrayerTimes) -> (r: Result<Vec<ScheduleEntry>, ParseError>)
    ensures
        r is Ok <==> (forall|i: int| 0 <= i < 5 ==> valid_hhmm(spec_raw_strings(*t)[i])),
        r matches Ok(v) ==> {
            &&& v@.len() == 5
            &&& forall|i: int| 0 <= i < 5 ==> v@[i].name == spec_prayer_order()[i]
            &&& forall|i: int|
                0 <= i < 5 ==> v@[i].raw == hhmm_seconds(spec_raw_strings(*t)[i])
            &&& spec_instants(v@) == spec_normalize(spec_raws(v@))
            &&& forall|i: int| 0 <= i < 5 ==> entry_wf(v@[i])
        },
{
    proof {
        assert(spec_raw_strings(*t)[0] == t.fajr@);
        assert(spec_raw_strings(*t)[1] == t.dhuhr@);
        assert(spec_raw_strings(*t)[2] == t.asr@);
        assert(spec_raw_strings(*t)[3] == t.maghrib@);
        assert(spec_raw_strings(*t)[4] == t.isha@);
    }
    let fajr = match parse_time(t.fajr.as_str()) {
        Ok(v) => v,
        Err(e) => {
            proof { assert(!valid_hhmm(spec_raw_strings(*t)[0])); }
            return Err(e);
        },
    };
    let dhuhr = match parse_time(t.dhuhr.as_str()) {
        Ok(v) => v,
        Err(e) => {
            proof { assert(!valid_hhmm(spec_raw_strings(*t)[1])); }
            return Err(e);
        },
    };
    let asr = match parse_time(t.asr.as_str()) {
        Ok(v) => v,
        Err(e) => {
            proof { assert(!valid_hhmm(spec_raw_strings(*t)[2])); }
            return Err(e);
        },
    };
    let maghrib = match parse_time(t.maghrib.as_str()) {
        Ok(v) => v,
        Err(e) => {
            proof { assert(!valid_hhmm(spec_raw_strings(*t)[3])); }
            return Err(e);
        },
    };
    let isha = match parse_time(t.isha.as_str()) {
        Ok(v) => v,
        Err(e) => {
            proof { assert(!valid_hhmm(spec_raw_strings(*t)[4])); }
            return Err(e);
        },
    };
    let names: Vec<PrayerName> = vec![
        PrayerName::Fajr,
        PrayerName::Dhuhr,
        PrayerName::Asr,
        PrayerName::Maghrib,
        PrayerName::Isha,
    ];
    let raws: Vec<u32> = vec![fajr, dhuhr, asr, maghrib, isha];
    let instants = normalize_times(&raws);
    let entries = zip_entries(&names, &raws, &instants);
    proof {
        assert(spec_raws(entries@) =~= raws@.map_values(|v: u32| v as int));
        assert(spec_instants(entries@) =~= instants@.map_values(|v: u32| v as int));
    }
    Ok(entries)
}

/// Builds the full seven-entry variant of the daily sequence, Sunrise
/// and Sunset included as ordinary entries, in day order and with the
/// same wrap correction. Fails with `ParseError` exactly when some
/// string is malformed.
pub fn build_full_schedule(t: &PrayerTimes) -> (r: Result<Vec<ScheduleEntry>, ParseError>)
    ensures
        r is Ok <==> (forall|i: int| 0 <= i < 7 ==> valid_hhmm(spec_all_raw_strings(*t)[i])),
        r matches Ok(v) ==> {
            &&& v@.len() == 7
            &&& forall|i: int| 0 <= i < 7 ==> v@[i].name == spec_day_order()[i]
            &&& forall|i: int|
                0 <= i < 7 ==> v@[i].raw == hhmm_seconds(spec_all_raw_strings(*t)[i])
            &&& spec_instants(v@) == spec_normalize(spec_raws(v@))
            &&& forall|i: int| 0 <= i < 7 ==> entry_wf(v@[i])
        },
{
    proof {
        assert(spec_all_raw_strings(*t)[0] == t.fajr@);
        assert(spec_all_raw_strings(*t)[1] == t.sunrise@);
        assert(spec_all_raw_strings(*t)[2] == t.dhuhr@);
        assert(spec_all_raw_strings(*t)[3] == t.asr@);
        assert(spec_all_raw_strings(*t)[4] == t.sunset@);
        assert(spec_all_raw_strings(*t)[5] == t.maghrib@);
        assert(spec_all_raw_strings(*t)[6] == t.isha@);
    }
    let fajr = match parse_time(t.fajr.as_str()) {
        Ok(v) => v,
        Err(e) => {
            proof { assert(!valid_hhmm(spec_all_raw_strings(*t)[0])); }
            return Err(e);
        },
    };
    let sunrise = match parse_time(t.sunrise.as_str()) {
        Ok(v) => v,
        Err(e) => {
            proof { assert(!valid_hhmm(spec_all_raw_strings(*t)[1])); }
            return Err(e);
        },
    };
    let dhuhr = match parse_time(t.dhuhr.as_str()) {
        Ok(v) => v,
        Err(e) => {
            proof { assert(!valid_hhmm(spec_all_raw_strings(*t)[2])); }
            return Err(e);
        },
    };
    let asr = match parse_time(t.asr.as_str()) {
        Ok(v) => v,
        Err(e) => {
            proof { assert(!valid_hhmm(spec_all_raw_strings(*t)[3])); }
            return Err(e);
        },
    };
    let sunset = match parse_time(t.sunset.as_str()) {
        Ok(v) => v,
        Err(e) => {
            proof { assert(!valid_hhmm(spec_all_raw_strings(*t)[4])); }
            return Err(e);
        },
    };
    let maghrib = match parse_time(t.maghrib.as_str()) {
        Ok(v) => v,
        Err(e) => {
            proof { assert(!valid_hhmm(spec_all_raw_strings(*t)[5])); }
            return Err(e);
        },
    };
    let isha = match parse_time(t.isha.as_str()) {
        Ok(v) => v,
        Err(e) => {
            proof { assert(!valid_hhmm(spec_all_raw_strings(*t)[6])); }
            return Err(e);
        },
    };
    let names: Vec<PrayerName> = vec![
        PrayerName::Fajr,
        PrayerName::Sunrise,
        PrayerName::Dhuhr,
        PrayerName::Asr,
        PrayerName::Sunset,
        PrayerName::Maghrib,
        PrayerName::Isha,
    ];
    let raws: Vec<u32> = vec![fajr, sunrise, dhuhr, asr, sunset, maghrib, isha];
    let instants = normalize_times(&raws);
    let entries = zip_entries(&names, &raws, &instants);
    proof {
        assert(spec_raws(entries@) =~= raws@.map_values(|v: u32| v as int));
        assert(spec_instants(entries@) =~= instants@.map_values(|v: u32| v as int));
    }
    Ok(entries)
}

/// The index of the first entry whose raw value lies strictly in the
/// future of `now`, or the length of the sequence when every entry has
/// already passed.
pub open spec fn spec_first_future(raws: Seq<int>, now: int) -> int
    decreases raws.len(),
{
    if raws.len() == 0 {
        0
    } else if raws[0] > now {
        0
    } else {
        1 + spec_first_future(raws.drop_first(), now)
    }
}

/// The active prayer for `now`: the last entry of the initial run of
/// entries whose raw value has already passed. When no entry has passed
/// yet, today's cycle is considered to have started with yesterday's
/// final prayer, so the last index is active.
pub open spec fn spec_current_index(raws: Seq<int>, now: int) -> int {
    if spec_first_future(raws, now) == 0 {
        raws.len() - 1
    } else {
        spec_first_future(raws, now) - 1
    }
}

/// Any index with the boundary shape — passed entries before it, a
/// future entry at it or the end of the sequence — is the first-future
/// index.
pub proof fn lemma_first_future_unique(raws: Seq<int>, now: int, k: int)
    requires
        0 <= k <= raws.len(),
        forall|j: int| 0 <= j < k ==> raws[j] <= now,
        k < raws.len() ==> raws[k] > now,
    ensures
        spec_first_future(raws, now) == k,
    decreases raws.len(),
{
    if raws.len() > 0 && !(raws[0] > now) {
        assert forall|j: int| 0 <= j < k - 1 implies raws.drop_first()[j] <= now by {
            assert(raws.drop_first()[j] == raws[j + 1]);
        }
        if k - 1 < raws.drop_first().len() {
            assert(raws.drop_first()[k - 1] == raws[k]);
        }
        lemma_first_future_unique(raws.drop_first(), now, k - 1);
    }
}

/// Finds the active and the next prayer for `now` in the ordered
/// schedule. The active one is the last entry of the initial run whose
/// raw clock value is not after `now`, defaulting to the final entry
/// when none has passed yet; the next one follows it cyclically.
pub fn resolve_position(entries: &Vec<ScheduleEntry>, now: u32) -> (r: (usize, usize))
    requires
        entries@.len() > 0,
    ensures
        r.0 < entries@.len(),
        r.1 < entries@.len(),
        r.0 == spec_current_index(spec_raws(entries@), now as int),
        r.1 == (r.0 + 1) % (entries@.len() as int),
{
    let n = entries.len();
    let mut i: usize = 0;
    while i < n && entries[i].raw <= now
        invariant
            n == entries@.len(),
            i <= n,
            forall|j: int| 0 <= j < i ==> spec_raws(entries@)[j] <= now,
        decreases n - i,
    {
        proof {
            assert(spec_raws(entries@)[i as int] == entries@[i as int].raw as int);
        }
        i += 1;
    }
    proof {
        if i < n {
            assert(spec_raws(entries@)[i as int] == entries@[i as int].raw as int);
        }
        lemma_first_future_unique(spec_raws(entries@), now as int, i as int);
    }
    let current = if i == 0 {
        n - 1
    } else {
        i - 1
    };
    let next = (current + 1) % n;
    (current, next)
}

/// Within a schedule whose raw values are strictly increasing, a `now`
/// exactly equal to an entry's raw instant makes that entry the active
/// one: the boundary is inclusive.
pub proof fn lemma_boundary_is_current(raws: Seq<int>, now: int, i: int)
    requires
        0 <= i < raws.len(),
        forall|j: int| 1 <= j < raws.len() ==> raws[j - 1] < #[trigger] raws[j],
        raws[i] == now,
    ensures
        spec_current_index(raws, now) == i,
{
    assert forall|j: int| 0 <= j < i + 1 implies raws[j] <= now by {
        lemma_increasing_chain(raws, j, i);
    }
    lemma_first_future_unique(raws, now, i + 1);
}

/// Transitivity of the adjacent-pairs ordering: in a sequence whose
/// neighbours are strictly increasing, any earlier entry is at most any
/// later one.
pub proof fn lemma_increasing_chain(raws: Seq<int>, j: int, k: int)
    requires
        forall|m: int| 1 <= m < raws.len() ==> raws[m - 1] < #[trigger] raws[m],
        0 <= j <= k < raws.len(),
    ensures
        raws[j] <= raws[k],
    decreases k - j,
{
    if j < k {
        lemma_increasing_chain(raws, j, k - 1);
    }
}

/// The countdown from `now` to `next`, both time-of-day values in
/// seconds since midnight, never negative. When `next` is numerically
/// greater than `now` the next prayer is later today; otherwise it
/// belongs to the following calendar day and the countdown runs through
/// midnight.
pub open spec fn spec_countdown(now: int, next: int) -> int {
    if next > now {
        next - now
    } else {
        86400 - now + next
    }
}

/// Seconds remaining from `now` until the next prayer at `next`, wrapping
/// through midnight when the next prayer's clock value is not later than
/// `now`. A next prayer exactly at `now` counts as already passed, so the
/// countdown is one full day.
pub fn countdown(now: u32, next: u32) -> (r: u32)
    requires
        now < SECONDS_PER_DAY,
        next < SECONDS_PER_DAY,
    ensures
        r == spec_countdown(now as int, next as int),
        0 < r <= SECONDS_PER_DAY,
{
    if next > now {
        next - now
    } else {
        SECONDS_PER_DAY - now + next
    }
}

/// The boundary convention of the countdown, pinned: a next prayer
/// whose instant equals `now` has already passed, so the countdown is
/// the full-day wrap value, never zero.
pub proof fn lemma_countdown_at_boundary(t: int)
    ensures
        spec_countdown(t, t) == 86400,
{
}

/// Splits a duration in seconds into whole hours, minutes and seconds
/// for display.
pub fn split_duration(d: u32) -> (r: (u32, u32, u32))
    ensures
        r.0 == d as int / 3600,
        r.1 == (d as int / 60) % 60,
        r.2 == d as int % 60,
        r.0 * 3600 + r.1 * 60 + r.2 == d,
{
    let h = d / 3600;
    let m = (d / 60) % 60;
    let s = d % 60;
    (h, m, s)
}

/// Everything one tick derives from the schedule and the clock: the
/// active and next prayer, and the countdown to the next one, whole and
/// decomposed for display.
#[derive(PartialEq, Eq, Structural, Clone, Copy, Debug)]
pub struct TickView {
    pub current_index: usize,
    pub next_index: usize,
    pub countdown_seconds: u32,
    pub hours: u32,
    pub minutes: u32,
    pub seconds: u32,
}

/// Re-derives the tick view from the ordered schedule and the current
/// time of day: position first, then the countdown to the next entry's
/// raw instant, split into hours, minutes and seconds.
pub fn compute_tick(entries: &Vec<ScheduleEntry>, now: u32) -> (r: TickView)
    requires
        entries@.len() > 0,
        now < SECONDS_PER_DAY,
        forall|i: int| 0 <= i < entries@.len() ==> entry_wf(#[trigger] entries@[i]),
    ensures
        r.current_index < entries@.len(),
        r.next_index < entries@.len(),
        r.current_index == spec_current_index(spec_raws(entries@), now as int),
        r.next_index == (r.current_index + 1) % (entries@.len() as int),
        r.countdown_seconds == spec_countdown(
            now as int,
            entries@[r.next_index as int].raw as int,
        ),
        0 < r.countdown_seconds <= SECONDS_PER_DAY,
        r.hours == r.countdown_seconds as int / 3600,
        r.minutes == (r.countdown_seconds as int / 60) % 60,
        r.seconds == r.countdown_seconds as int % 60,
{
    let (current, next) = resolve_position(entries, now);
    proof {
        assert(entry_wf(entries@[next as int]));
    }
    let cd = countdown(now, entries[next].raw);
    let (h, m, s) = split_duration(cd);
    TickView {
        current_index: current,
        next_index: next,
        countdown_seconds: cd,
        hours: h,
        minutes: m,
        seconds: s,
    }
}

} // verus!
