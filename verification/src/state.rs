//! Persistent per-day state: the calendar date and the prayers already
//! notified on it, with the rollover and dedup rules.

use vstd::prelude::*;
use crate::prayers::PrayerName;
use crate::schedule::ScheduleEntry;

verus! {

broadcast use vstd::seq_lib::group_seq_properties;

/// A calendar date as plain year, month and day numbers. The core only
/// compares dates; reading the clock and formatting dates belong to
/// external collaborators.
#[derive(PartialEq, Eq, Structural, Clone, Copy, Debug)]
pub struct Date {
    pub year: i32,
    pub month: u8,
    pub day: u8,
}

/// The persisted state: the date it belongs to and the prayers already
/// notified on that date. A prayer appears at most once.
#[derive(Debug)]
pub struct AppState {
    pub notified_prayers: Vec<PrayerName>,
    pub date: Date,
}

/// Marking a prayer notified: appends the name unless it is already
/// present.
pub open spec fn spec_mark(s: Seq<PrayerName>, p: PrayerName) -> Seq<PrayerName> {
    if s.contains(p) {
        s
    } else {
        s.push(p)
    }
}

/// The day-rollover step on the state's components: a date change
/// installs today's date and clears the notified set; a matching date
/// leaves the state untouched.
pub open spec fn spec_rollover(date: Date, notified: Seq<PrayerName>, today: Date) -> (
    Date,
    Seq<PrayerName>,
) {
    if date != today {
        (today, Seq::<PrayerName>::empty())
    } else {
        (date, notified)
    }
}

/// How many times `p` occurs in `s`.
pub open spec fn count_of(s: Seq<PrayerName>, p: PrayerName) -> nat
    decreases s.len(),
{
    if s.len() == 0 {
        0
    } else {
        count_of(s.drop_last(), p) + if s.last() == p {
            1nat
        } else {
            0nat
        }
    }
}

/// Whether `p` occurs in `v`.
fn contains_prayer(v: &Vec<PrayerName>, p: PrayerName) -> (r: bool)
    ensures
        r == v@.contains(p),
{
    let mut i: usize = 0;
    while i < v.len()
        invariant
            i <= v@.len(),
            forall|j: int| 0 <= j < i ==> v@[j] != p,
        decreases v@.len() - i,
    {
        if v[i] == p {
            return true;
        }
        i += 1;
    }
    false
}

impl AppState {
    /// The state invariant: no prayer is recorded as notified twice.
    pub open spec fn wf(self) -> bool {
        self.notified_prayers@.no_duplicates()
    }

    /// The fresh state for a date on which nothing has been notified
    /// yet: the default when no prior state exists.
    pub fn new(date: Date) -> (r: AppState)
        ensures
            r.date == date,
            r.notified_prayers@ == Seq::<PrayerName>::empty(),
            r.wf(),
    {
        AppState { notified_prayers: Vec::new(), date }
    }

    /// Rebuilds a state from recovered parts, dropping duplicate
    /// notified entries so the invariant holds whatever the recovered
    /// record contained. A prayer is notified in the result exactly
    /// when it occurred among the recovered names.
    pub fn from_parts(date: Date, names: Vec<PrayerName>) -> (r: AppState)
        ensures
            r.date == date,
            r.wf(),
            forall|p: PrayerName| r.notified_prayers@.contains(p) == names@.contains(p),
    {
        let mut kept: Vec<PrayerName> = Vec::new();
        let mut i: usize = 0;
        while i < names.len()
            invariant
                i <= names@.len(),
                kept@.no_duplicates(),
                forall|p: PrayerName|
                    kept@.contains(p) == names@.take(i as int).contains(p),
            decreases names@.len() - i,
        {
            let p = names[i];
            proof {
                assert(names@.take(i + 1) =~= names@.take(i as int).push(names@[i as int]));
            }
            if !contains_prayer(&kept, p) {
                proof {
                    lemma_push_keeps_no_duplicates(kept@, p);
                }
                kept.push(p);
            }
            i += 1;
        }
        proof {
            assert(names@.take(names@.len() as int) =~= names@);
        }
        AppState { notified_prayers: kept, date }
    }

    /// Whether `p` is still eligible for a notification today: true
    /// exactly when it has not been marked yet.
    pub fn should_notify(&self, p: PrayerName) -> (r: bool)
        ensures
            r == !self.notified_prayers@.contains(p),
    {
        !contains_prayer(&self.notified_prayers, p)
    }

    /// Records that `p` has been notified today. Idempotent: a prayer
    /// already recorded is not recorded again.
    pub fn mark_notified(&mut self, p: PrayerName)
        ensures
            final(self).date == old(self).date,
            final(self).notified_prayers@ == spec_mark(old(self).notified_prayers@, p),
            old(self).wf() ==> final(self).wf(),
    {
        if !contains_prayer(&self.notified_prayers, p) {
            proof {
                if old(self).wf() {
                    lemma_push_keeps_no_duplicates(self.notified_prayers@, p);
                }
            }
            self.notified_prayers.push(p);
        }
    }

    /// Clears the notified set; invoked only by the day-rollover
    /// controller.
    pub fn reset(&mut self)
        ensures
            final(self).date == old(self).date,
            final(self).notified_prayers@ == Seq::<PrayerName>::empty(),
            final(self).wf(),
    {
        self.notified_prayers = Vec::new();
    }

    /// Whether the stored date has fallen behind the current calendar
    /// date, so that a rollover — schedule refetch, dedup reset — is
    /// owed.
    pub fn needs_rollover(&self, today: Date) -> (r: bool)
        ensures
            r == (self.date != today),
    {
        self.date != today
    }

    /// Installs today's date and clears the notified set. The caller
    /// invokes this only on a date change, and only once the fresh
    /// schedule has been fetched, so a failed fetch leaves the date
    /// behind and the rollover is retried on the next tick.
    pub fn apply_rollover(&mut self, today: Date)
        requires
            old(self).date != today,
        ensures
            (final(self).date, final(self).notified_prayers@) == spec_rollover(
                old(self).date,
                old(self).notified_prayers@,
                today,
            ),
            final(self).wf(),
    {
        self.date = today;
        self.notified_prayers = Vec::new();
    }
}

/// The prayers owed a notification now: those schedule entries whose
/// raw clock value has passed and whose name is not yet in the notified
/// set, in schedule order.
pub open spec fn spec_due(
    entries: Seq<ScheduleEntry>,
    now: int,
    notified: Seq<PrayerName>,
) -> Seq<PrayerName>
    decreases entries.len(),
{
    if entries.len() == 0 {
        Seq::empty()
    } else {
        let prev = spec_due(entries.drop_last(), now, notified);
        let e = entries.last();
        if e.raw <= now && !notified.contains(e.name) {
            prev.push(e.name)
        } else {
            prev
        }
    }
}

/// Walks the schedule and collects, in order, every entry whose raw
/// clock value has passed `now` and that the state has not yet
/// notified.
pub fn due_prayers(entries: &Vec<ScheduleEntry>, now: u32, state: &AppState) -> (r: Vec<
    PrayerName,
>)
    ensures
        r@ == spec_due(entries@, now as int, state.notified_prayers@),
{
    let mut out: Vec<PrayerName> = Vec::new();
    let mut i: usize = 0;
    while i < entries.len()
        invariant
            i <= entries@.len(),
            out@ == spec_due(entries@.take(i as int), now as int, state.notified_prayers@),
        decreases entries@.len() - i,
    {
        proof {
            assert(entries@.take(i + 1).drop_last() =~= entries@.take(i as int));
            assert(entries@.take(i + 1).last() == entries@[i as int]);
        }
        let e = entries[i];
        if e.raw <= now && state.should_notify(e.name) {
            out.push(e.name);
        }
        i += 1;
    }
    proof {
        assert(entries@.take(entries@.len() as int) =~= entries@);
    }
    out
}

/// How many times a prayer occurs in a duplicate-free record: once if
/// present, never otherwise.
pub proof fn lemma_count_in_nodup(s: Seq<PrayerName>, p: PrayerName)
    requires
        s.no_duplicates(),
    ensures
        count_of(s, p) == if s.contains(p) {
            1nat
        } else {
            0nat
        },
    decreases s.len(),
{
    if s.len() > 0 {
        assert(s.drop_last() =~= s.take(s.len() - 1));
        assert forall|i: int, j: int|
            0 <= i < s.drop_last().len() && 0 <= j < s.drop_last().len() && i != j implies s
            .drop_last()[i] != s.drop_last()[j] by {
            assert(s.drop_last()[i] == s[i] && s.drop_last()[j] == s[j]);
        }
        lemma_count_in_nodup(s.drop_last(), p);
        if s.last() == p {
            // the last occurrence is the only one: an earlier one would
            // duplicate it
            if s.drop_last().contains(p) {
                let w = choose|w: int| 0 <= w < s.len() - 1 && #[trigger] s.drop_last()[w] == p;
                assert(s[w] == p && s[s.len() - 1] == p);
                assert(false);
            }
        } else {
            if s.contains(p) {
                let w = choose|w: int| 0 <= w < s.len() && #[trigger] s[w] == p;
                assert(s.drop_last()[w] == p);
            }
            if s.drop_last().contains(p) {
                let w = choose|w: int| 0 <= w < s.len() - 1 && #[trigger] s.drop_last()[w] == p;
                assert(s[w] == p);
            }
        }
    }
}

/// Marking a prayer notified is idempotent: marking it twice is the
/// same as marking it once, and a duplicate-free record then holds it
/// exactly once.
pub proof fn lemma_mark_idempotent(s: Seq<PrayerName>, p: PrayerName)
    requires
        s.no_duplicates(),
    ensures
        spec_mark(spec_mark(s, p), p) == spec_mark(s, p),
        spec_mark(s, p).no_duplicates(),
        count_of(spec_mark(s, p), p) == 1,
{
    if !s.contains(p) {
        lemma_push_keeps_no_duplicates(s, p);
        assert(s.push(p).contains(p)) by {
            assert(s.push(p)[s.len() as int] == p);
        }
    }
    lemma_count_in_nodup(spec_mark(s, p), p);
}

/// The rollover runs exactly once per calendar date: the first tick of
/// a new date installs it and clears the notified record, and every
/// further tick of the same date — however many there are — leaves the
/// state untouched.
pub proof fn lemma_rollover_exactly_once(date: Date, notified: Seq<PrayerName>, today: Date)
    ensures
        spec_rollover(date, notified, today).0 == today,
        date != today ==> spec_rollover(date, notified, today) == (
            today,
            Seq::<PrayerName>::empty(),
        ),
        date == today ==> spec_rollover(date, notified, today) == (date, notified),
        spec_rollover(
            spec_rollover(date, notified, today).0,
            spec_rollover(date, notified, today).1,
            today,
        ) == spec_rollover(date, notified, today),
{
}

/// Appending a fresh element preserves the no-duplicates invariant.
proof fn lemma_push_keeps_no_duplicates(s: Seq<PrayerName>, p: PrayerName)
    requires
        s.no_duplicates(),
        !s.contains(p),
    ensures
        s.push(p).no_duplicates(),
{
    assert forall|i: int, j: int|
        0 <= i < s.push(p).len() && 0 <= j < s.push(p).len() && i != j implies s.push(p)[i]
        != s.push(p)[j] by {
        if i < s.len() && j < s.len() {
            assert(s.push(p)[i] == s[i] && s.push(p)[j] == s[j]);
        } else if i < s.len() {
            assert(s.push(p)[i] == s[i] && s.push(p)[j] == p);
        } else if j < s.len() {
            assert(s.push(p)[i] == p && s.push(p)[j] == s[j]);
        }
    }
}

} // verus!
