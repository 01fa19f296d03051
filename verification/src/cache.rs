//! The cached catalogue: how long it counts, and when it is fetched anew.

use vstd::prelude::*;

use crate::catalog::{clone_games, Game, GameView};
use crate::catalog::{game_views, optional_view};

verus! {

/// The name of the file that holds the cached catalogue.
pub const CACHE_FILE_NAME: &'static str = "disactivity_games_cache.json";

/// How many days a cached catalogue counts.
pub const CACHE_EXPIRY_DAYS: i64 = 2;

/// Whether a number of seconds since 1970 and of nanoseconds within the second
/// name a point in time of the calendar. A leap second takes the nanoseconds
/// beyond the last second of its minute.
pub open spec fn on_calendar(secs: int, nanos: int) -> bool {
    &&& -8_334_601_228_800 <= secs <= 8_210_266_876_799
    &&& 0 <= nanos < 2_000_000_000
    &&& nanos >= 1_000_000_000 ==> secs % 60 == 59
}

/// Whether a point in time can be a reading of the clock: the calendar has it,
/// it does not lie before 1970, and it is not written as a leap second.
pub open spec fn clock_reading(t: Moment) -> bool {
    on_calendar(t.secs, t.nanos) && 0 <= t.secs && t.nanos < 1_000_000_000
}

/// A point in time, in UTC.
#[derive(Debug, Clone, Copy)]
pub struct Timestamp {
    secs: i64,
    nanos: u32,
}

/// What a `Timestamp` says: seconds since 1970, and nanoseconds.
pub struct Moment {
    pub secs: int,
    pub nanos: int,
}

impl View for Timestamp {
    type V = Moment;

    closed spec fn view(&self) -> Moment {
        Moment { secs: self.secs as int, nanos: self.nanos as int }
    }
}

impl Timestamp {
    #[verifier::type_invariant]
    spec fn valid(self) -> bool {
        on_calendar(self.secs as int, self.nanos as int)
    }

    /// The point in time a number of seconds after 1970, if the calendar has it.
    pub fn new(secs: i64, nanos: u32) -> (r: Option<Timestamp>)
        ensures
            match r {
                Some(t) => t@ == (Moment { secs: secs as int, nanos: nanos as int }),
                None => true,
            },
            r is Some <==> on_calendar(secs as int, nanos as int),
    {
        if -8_334_601_228_800 <= secs && secs <= 8_210_266_876_799 && nanos < 2_000_000_000 && (
        nanos < 1_000_000_000 || second_of_minute(secs) == 59) {
            Some(Timestamp { secs, nanos })
        } else {
            None
        }
    }

    /// The seconds since 1970.
    pub fn secs(&self) -> (r: i64)
        ensures
            r == self@.secs,
    {
        self.secs
    }

    /// The nanoseconds within the second; a billion or more in a leap second.
    pub fn nanos(&self) -> (r: u32)
        ensures
            r == self@.nanos,
    {
        self.nanos
    }

    /// The time now, which never lies before 1970 and is never a leap second. It
    /// is one that the clock gave.
    pub fn now() -> (r: Timestamp)
        ensures
            clock_reading(r@),
            clock_gave(r@),
    {
        let (secs, nanos) = ask(utc_now);
        Timestamp { secs, nanos }
    }
}

fn second_of_minute(secs: i64) -> (r: i64)
    requires
        -8_334_601_228_800 <= secs <= 8_210_266_876_799,
    ensures
        r == secs as int % 60,
{
    // Whole minutes that lift every point in time of the calendar above zero.
    let minutes: i64 = 138_910_020_480;
    let shifted: i64 = secs + minutes * 60;
    assert(shifted as int % 60 == secs as int % 60);
    shifted % 60
}

/// `chrono::Utc::now`: the time of the machine's clock, as seconds and
/// nanoseconds. All that is claimed is that the calendar has it, that it does
/// not lie before 1970 and that it is not written as a leap second; which time
/// it is, the machine decides. The call takes the time since 1970 from the
/// system, and panics when the clock stands before it.
#[verifier::external_body]
fn utc_now() -> (r: (i64, u32))
    ensures
        clock_reading(Moment { secs: r.0 as int, nanos: r.1 as int }),
{
    let now = chrono::Utc::now();
    (now.timestamp(), now.timestamp_subsec_nanos())
}

/// Whether a point in time is one that a call of the clock gave.
pub closed spec fn clock_gave(t: Moment) -> bool {
    exists|secs: i64, nanos: u32| #[trigger]
        call_ensures(utc_now, (), (secs, nanos)) && t == (Moment {
            secs: secs as int,
            nanos: nanos as int,
        })
}

/// Calls a clock: the result is one that this clock gave.
fn ask<F: Fn() -> (i64, u32)>(clock: F) -> (r: (i64, u32))
    requires
        call_requires(clock, ()),
    ensures
        call_ensures(clock, (), r),
{
    clock()
}

/// A time that the clock gave is the result of a call of `utc_now` and of
/// nothing else; it is a reading of the clock.
proof fn clock_times_are_readings(t: Moment)
    requires
        clock_gave(t),
    ensures
        call_ensures(utc_now, (), (t.secs as i64, t.nanos as u32)),
        clock_reading(t),
{
}

/// The second of the day, from 0 to 86399.
pub open spec fn second_of_day(t: Moment) -> int {
    t.secs % 86_400
}

/// A leap second that lies between two points in time, by the time of the day.
pub open spec fn leap_between(now: Moment, then: Moment) -> int {
    if second_of_day(now) > second_of_day(then) && then.nanos >= 1_000_000_000 {
        1
    } else if second_of_day(now) < second_of_day(then) && now.nanos >= 1_000_000_000 {
        -1
    } else {
        0
    }
}

/// The nanoseconds from `then` to `now`; negative when `then` lies ahead.
pub open spec fn elapsed(now: Moment, then: Moment) -> int {
    (now.secs - then.secs + leap_between(now, then)) * 1_000_000_000 + (now.nanos - then.nanos)
}

/// The nanoseconds in a day.
pub open spec fn day() -> int {
    86_400_000_000_000
}

/// The whole days in a number of nanoseconds, towards zero.
pub open spec fn whole_days(nanos: int) -> int {
    if nanos >= 0 {
        nanos / day()
    } else {
        -((-nanos) / day())
    }
}

/// `chrono::DateTime::signed_duration_since` and `TimeDelta::num_days` on two
/// points in time: the whole days between them, towards zero. A leap second is
/// counted where it is written in one of the two, as the source of
/// `NaiveTime::signed_duration_since` does it.
#[verifier::external_body]
fn days_between(now_secs: i64, now_nanos: u32, then_secs: i64, then_nanos: u32) -> (r: i64)
    requires
        on_calendar(now_secs as int, now_nanos as int),
        on_calendar(then_secs as int, then_nanos as int),
    ensures
        r == whole_days(
            elapsed(
                Moment { secs: now_secs as int, nanos: now_nanos as int },
                Moment { secs: then_secs as int, nanos: then_nanos as int },
            ),
        ),
{
    let now = chrono::DateTime::from_timestamp(now_secs, now_nanos).unwrap();
    let then = chrono::DateTime::from_timestamp(then_secs, then_nanos).unwrap();
    now.signed_duration_since(then).num_days()
}

/// The text of a point in time in the format of RFC 3339.
pub uninterp spec fn rfc3339_text(secs: i64, nanos: u32) -> Seq<char>;

/// `chrono::DateTime::to_rfc3339` on a point in time: a text that depends on
/// the point in time alone.
#[verifier::external_body]
fn rfc3339(secs: i64, nanos: u32) -> (r: String)
    requires
        on_calendar(secs as int, nanos as int),
    ensures
        r@ == rfc3339_text(secs, nanos),
{
    chrono::DateTime::from_timestamp(secs, nanos).unwrap().to_rfc3339()
}

/// A catalogue with the time at which it was fetched.
#[derive(Debug)]
pub struct CacheData {
    pub timestamp: Timestamp,
    pub games: Vec<Game>,
}

/// What a `CacheData` says.
pub struct CacheView {
    pub timestamp: Moment,
    pub games: Seq<GameView>,
}

impl View for CacheData {
    type V = CacheView;

    open spec fn view(&self) -> CacheView {
        CacheView { timestamp: self.timestamp@, games: game_views(self.games@) }
    }
}

/// Whether a catalogue of a given time still counts.
pub open spec fn still_valid(now: Moment, timestamp: Moment) -> bool {
    whole_days(elapsed(now, timestamp)) < CACHE_EXPIRY_DAYS
}

/// Whether a cached catalogue still counts at a given time.
pub fn is_cache_valid_at(cache: &CacheData, now: Timestamp) -> (r: bool)
    ensures
        r == still_valid(now@, cache@.timestamp),
{
    let then = cache.timestamp;
    proof {
        use_type_invariant(&now);
        use_type_invariant(&then);
    }
    days_between(now.secs, now.nanos, then.secs, then.nanos) < CACHE_EXPIRY_DAYS
}

/// Whether a cached catalogue still counts now.
pub fn is_cache_valid(cache: &CacheData) -> (r: bool)
    ensures
        exists|now: Moment|
            clock_reading(now) && clock_gave(now) && r == #[trigger] still_valid(
                now,
                cache@.timestamp,
            ),
{
    let now = Timestamp::now();
    let valid = is_cache_valid_at(cache, now);
    assert(clock_gave(now@) && valid == still_valid(now@, cache@.timestamp));
    valid
}

/// When the cached catalogue was fetched, in the format of RFC 3339; nothing
/// when there is no cached catalogue.
pub fn get_cache_info(cache: Option<&CacheData>) -> (r: Option<String>)
    ensures
        optional_view(r) == match cache {
            Some(data) => Some(
                rfc3339_text(data@.timestamp.secs as i64, data@.timestamp.nanos as u32),
            ),
            None => None,
        },
{
    match cache {
        Some(data) => {
            let time = data.timestamp;
            proof {
                use_type_invariant(&time);
            }
            Some(rfc3339(time.secs, time.nanos))
        },
        None => None,
    }
}

/// The record that is written for a catalogue fetched at a given time.
pub fn cache_record(games: &[Game], now: Timestamp) -> (r: CacheData)
    ensures
        r@ == (CacheView { timestamp: now@, games: game_views(games@) }),
{
    CacheData { timestamp: now, games: clone_games(games) }
}

/// The record that is written for a catalogue fetched now, when the directory
/// for the cache is known. Only then is the clock read.
pub fn write_cache(games: &[Game], dir_known: bool) -> (r: Result<CacheData, String>)
    ensures
        match r {
            Ok(data) => {
                &&& dir_known
                &&& clock_reading(data@.timestamp)
                &&& clock_gave(data@.timestamp)
                &&& data@.games == game_views(games@)
            },
            Err(error) => !dir_known && error@ == "Could not determine cache directory"@,
        },
{
    if !dir_known {
        return Err("Could not determine cache directory".to_owned());
    }
    let now = Timestamp::now();
    Ok(cache_record(games, now))
}

/// A cached catalogue counts exactly as long as it is less than
/// `CACHE_EXPIRY_DAYS` days old. One from the future counts.
pub proof fn valid_until_two_days_old(now: Moment, timestamp: Moment)
    ensures
        still_valid(now, timestamp) <==> elapsed(now, timestamp) < CACHE_EXPIRY_DAYS * day(),
{
    let e = elapsed(now, timestamp);
    if e >= 0 {
        assert(e / day() < 2 <==> e < 2 * day());
    } else {
        assert((-e) / day() >= 0);
    }
}

/// A catalogue counts at the time at which it was fetched.
pub proof fn fresh_cache_is_valid(timestamp: Moment)
    ensures
        still_valid(timestamp, timestamp),
{
}

/// Outside of leap seconds the age of a catalogue is the difference of the
/// two times.
pub proof fn age_is_difference(now: Moment, timestamp: Moment)
    requires
        now.nanos < 1_000_000_000,
        timestamp.nanos < 1_000_000_000,
    ensures
        elapsed(now, timestamp) == (now.secs * 1_000_000_000 + now.nanos) - (timestamp.secs
            * 1_000_000_000 + timestamp.nanos),
{
}

/// A catalogue that does not count any more never counts again later. The
/// earlier time is not written as a leap second.
pub proof fn expired_stays_expired(timestamp: Moment, now: Moment, later: Moment)
    requires
        on_calendar(timestamp.secs, timestamp.nanos),
        on_calendar(now.secs, now.nanos),
        on_calendar(later.secs, later.nanos),
        now.nanos < 1_000_000_000,
        now.secs < later.secs || (now.secs == later.secs && now.nanos <= later.nanos),
        !still_valid(now, timestamp),
    ensures
        !still_valid(later, timestamp),
{
    valid_until_two_days_old(now, timestamp);
    valid_until_two_days_old(later, timestamp);
    let gap = now.secs - timestamp.secs;
    let of_day = second_of_day(timestamp);
    if leap_between(now, timestamp) == 1 && leap_between(later, timestamp) < 1 && later.secs
        == now.secs + 1 {
        // Only midnight lies between the two times. The catalogue is then at
        // least a minute older than the limit.
        assert(second_of_day(now) == 86_399);
        assert(of_day % 60 == 59);
        assert(of_day <= 86_339);
        assert((gap + of_day - 86_399) % 86_400 == 0);
        assert(gap + 1 > 172_800);
        assert(gap + 1 >= 172_861);
    } else if leap_between(later, timestamp) == -1 && later.secs == now.secs {
        // The later time is the leap second that follows the earlier one, and
        // again the catalogue is well beyond the limit.
        assert(second_of_day(now) % 60 == 59);
        assert((gap + of_day - second_of_day(now)) % 86_400 == 0);
        assert(gap >= 172_800);
        assert(gap >= 172_860);
    } else {
        assert(elapsed(now, timestamp) <= elapsed(later, timestamp));
    }
}

/// A cached catalogue counts exactly as long as less than 172800 seconds have
/// passed since its time. Neither time is written as a leap second.
pub proof fn counts_for_two_days(now: Moment, timestamp: Moment)
    requires
        now.nanos < 1_000_000_000,
        timestamp.nanos < 1_000_000_000,
    ensures
        still_valid(now, timestamp) <==> (now.secs - timestamp.secs) * 1_000_000_000 + (now.nanos
            - timestamp.nanos) < 172_800_000_000_000,
{
    valid_until_two_days_old(now, timestamp);
    age_is_difference(now, timestamp);
}

} // verus!
