use chrono::DateTime;
use disactivity::cache::{
    cache_record, get_cache_info, is_cache_valid, is_cache_valid_at, write_cache, CacheData,
    Timestamp,
};
use disactivity::Game;

const DAY: i64 = 86_400;

fn at(secs: i64, nanos: u32) -> Timestamp {
    Timestamp::new(secs, nanos).unwrap()
}

fn cache_of(timestamp: Timestamp) -> CacheData {
    CacheData { timestamp, games: vec![] }
}

#[test]
fn timestamps_are_those_of_the_calendar() {
    for (secs, nanos) in [
        (0, 0),
        (-8_334_601_228_800, 0),
        (-8_334_601_228_801, 999_999_999),
        (8_210_266_876_799, 999_999_999),
        (8_210_266_876_800, 0),
        (59, 1_500_000_000),
        (-1, 1_999_999_999),
        (58, 1_000_000_000),
        (59, 2_000_000_000),
        (i64::MAX, 0),
        (i64::MIN, 0),
    ] {
        assert_eq!(
            Timestamp::new(secs, nanos).is_some(),
            DateTime::from_timestamp(secs, nanos).is_some(),
            "{} {}",
            secs,
            nanos
        );
    }
    assert_eq!(at(59, 1_500_000_000).secs(), 59);
    assert_eq!(at(59, 1_500_000_000).nanos(), 1_500_000_000);
}

#[test]
fn counts_for_less_than_two_days() {
    let cache = cache_of(at(1_000_000, 5));
    assert!(is_cache_valid_at(&cache, at(1_000_000, 5)));
    assert!(is_cache_valid_at(&cache, at(1_000_000 + DAY, 5)));
    assert!(is_cache_valid_at(&cache, at(1_000_000 + 2 * DAY, 4)));
    assert!(!is_cache_valid_at(&cache, at(1_000_000 + 2 * DAY, 5)));
    assert!(!is_cache_valid_at(&cache, at(1_000_000 + 100 * DAY, 0)));
}

#[test]
fn catalogue_from_the_future_counts() {
    let cache = cache_of(at(1_000_000, 0));
    assert!(is_cache_valid_at(&cache, at(0, 0)));
    assert!(is_cache_valid_at(&cache, at(-1_000_000_000, 0)));
}

#[test]
fn catalogue_of_now_counts_and_those_of_1970_and_1960_do_not() {
    assert!(is_cache_valid(&cache_of(Timestamp::now())));
    assert!(!is_cache_valid(&cache_of(at(0, 0))));
    assert!(!is_cache_valid(&cache_of(at(-315_619_200, 0))));
}

#[test]
fn age_is_that_of_the_calendar_also_in_leap_seconds() {
    let points = [
        (0, 0),
        (59, 999_999_999),
        (59, 1_000_000_000),
        (59, 1_700_000_000),
        (60, 0),
        (86_399, 1_300_000_000),
        (86_399, 600_000_000),
        (86_400, 0),
        (172_799, 999_999_999),
        (172_799, 1_999_999_999),
        (172_800, 0),
        (172_859, 1_000_000_000),
        (172_860, 3),
        (-1, 1_250_000_000),
        (-86_341, 1_500_000_000),
        (1_000_000_000, 17),
    ];
    for (now_secs, now_nanos) in points {
        for (then_secs, then_nanos) in points {
            let now = DateTime::from_timestamp(now_secs, now_nanos).unwrap();
            let then = DateTime::from_timestamp(then_secs, then_nanos).unwrap();
            let now_of_day = now_secs.rem_euclid(DAY);
            let then_of_day = then_secs.rem_euclid(DAY);
            let leap = if now_of_day > then_of_day && then_nanos >= 1_000_000_000 {
                1
            } else if now_of_day < then_of_day && now_nanos >= 1_000_000_000 {
                -1
            } else {
                0
            };
            let elapsed = (now_secs - then_secs + leap) as i128 * 1_000_000_000
                + (now_nanos as i128 - then_nanos as i128);
            let days = now.signed_duration_since(then).num_days();
            assert_eq!(days as i128, elapsed / 86_400_000_000_000);
            let cache = cache_of(at(then_secs, then_nanos));
            assert_eq!(is_cache_valid_at(&cache, at(now_secs, now_nanos)), days < 2);
        }
    }
}

#[test]
fn a_leap_second_can_be_older_than_the_second_after_it() {
    let cache = cache_of(at(0, 300_000_000));
    assert!(!is_cache_valid_at(&cache, at(172_799, 1_500_000_000)));
    assert!(is_cache_valid_at(&cache, at(172_800, 0)));
}

#[test]
fn tells_when_the_catalogue_was_fetched() {
    assert_eq!(get_cache_info(None), None);
    let cache = cache_of(at(1_700_000_000, 0));
    assert_eq!(get_cache_info(Some(&cache)), Some("2023-11-14T22:13:20+00:00".to_string()));
    let fraction = cache_of(at(0, 1_000_000));
    assert_eq!(
        get_cache_info(Some(&fraction)),
        Some("1970-01-01T00:00:00.001+00:00".to_string())
    );
}

#[test]
fn record_keeps_the_games_and_the_time() {
    let game = Game {
        id: "1".to_string(),
        name: "One".to_string(),
        icon_hash: None,
        executables: None,
        aliases: vec![],
        third_party_skus: None,
    };
    let record = cache_record(&[game], at(5, 6));
    assert_eq!(record.games.len(), 1);
    assert_eq!(record.games[0].name, "One");
    assert_eq!((record.timestamp.secs(), record.timestamp.nanos()), (5, 6));
}

#[test]
fn the_clock_goes_on_and_reads_no_leap_second() {
    let before = chrono::Utc::now();
    let now = Timestamp::now();
    let after = chrono::Utc::now();
    let reading = DateTime::from_timestamp(now.secs(), now.nanos()).unwrap();
    assert!(before <= reading && reading <= after);
    assert!(now.secs() >= 0 && now.nanos() < 1_000_000_000);
}

#[test]
fn a_cache_is_written_only_where_its_directory_is_known() {
    let data = write_cache(&[], true).unwrap();
    assert!(data.games.is_empty());
    assert!(is_cache_valid(&data));
    assert_eq!(
        write_cache(&[], false).unwrap_err(),
        "Could not determine cache directory"
    );
}
