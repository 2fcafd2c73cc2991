use locutus_core::datetime::DateTimeUtc;
use locutus_core::tier::Tier;

fn get_date(y: i64, m: u32, d: u32) -> DateTimeUtc {
    DateTimeUtc::from_ymd(y, m, d).unwrap()
}

fn with_hour(dt: DateTimeUtc, h: u32) -> DateTimeUtc {
    DateTimeUtc::new(dt.year, dt.month, dt.day, h, dt.minute, dt.second, dt.nanosecond).unwrap()
}

fn with_minute(dt: DateTimeUtc, mi: u32) -> DateTimeUtc {
    DateTimeUtc::new(dt.year, dt.month, dt.day, dt.hour, mi, dt.second, dt.nanosecond).unwrap()
}

#[test]
fn is_correct_minute() {
    let day7_tier = Tier::Day7;
    assert!(day7_tier.is_valid_slot(get_date(2023, 1, 7)));
    assert!(!day7_tier.is_valid_slot(get_date(2023, 1, 8)));

    let day30_tier = Tier::Day30;
    assert!(day30_tier.is_valid_slot(get_date(2023, 1, 30)));
    assert!(day30_tier.is_valid_slot(get_date(2023, 3, 1)));
    assert!(!day30_tier.is_valid_slot(get_date(2023, 3, 30)));
}

#[test]
fn is_correct_hour() {
    let hour3_tier = Tier::Hour3;
    assert!(hour3_tier.is_valid_slot(with_hour(get_date(2023, 1, 7), 6)));
    assert!(!hour3_tier.is_valid_slot(with_hour(get_date(2023, 1, 8), 7)));

    let hour12_tier = Tier::Hour12;
    assert!(hour12_tier.is_valid_slot(with_hour(get_date(2023, 1, 30), 12)));
    assert!(hour12_tier.is_valid_slot(get_date(2023, 3, 1)));
    assert!(!hour12_tier.is_valid_slot(with_hour(get_date(2023, 3, 30), 13)));
}

#[test]
fn is_correct_day() {
    let day7_tier = Tier::Day7;
    assert!(day7_tier.is_valid_slot(get_date(2023, 1, 7)));
    assert!(!day7_tier.is_valid_slot(get_date(2023, 1, 8)));

    let day30_tier = Tier::Day30;
    assert!(day30_tier.is_valid_slot(get_date(2023, 1, 30)));
    assert!(day30_tier.is_valid_slot(get_date(2023, 3, 1)));
    assert!(!day30_tier.is_valid_slot(get_date(2023, 3, 30)));
}

#[test]
fn minute_tier_normalization() {
    let min5_tier = Tier::Min5;
    let min5_normalized = min5_tier.normalize_to_next(with_minute(get_date(2023, 1, 1), 37));
    assert_eq!(min5_normalized, with_minute(get_date(2023, 1, 1), 40));
    let min5_normalized = min5_tier.normalize_to_next(with_minute(get_date(2023, 1, 1), 8));
    assert_eq!(min5_normalized, with_minute(get_date(2023, 1, 1), 10));

    let min10_tier = Tier::Min10;
    let min10_normalized = min10_tier.normalize_to_next(with_minute(get_date(2023, 1, 1), 22));
    assert_eq!(min10_normalized, with_minute(get_date(2023, 1, 1), 30));
    let min10_tier = Tier::Min10;
    let min10_normalized = min10_tier.normalize_to_next(with_minute(get_date(2023, 1, 1), 38));
    assert_eq!(min10_normalized, with_minute(get_date(2023, 1, 1), 40));
}

#[test]
fn hour_tier_normalization() {
    let hour6_tier = Tier::Hour6;
    let hour6_normalized = hour6_tier.normalize_to_next(with_hour(get_date(2023, 1, 1), 4));
    assert_eq!(hour6_normalized, with_hour(get_date(2023, 1, 1), 6));
    let hour6_normalized = hour6_tier.normalize_to_next(with_hour(get_date(2023, 1, 1), 17));
    assert_eq!(hour6_normalized, with_hour(get_date(2023, 1, 1), 18));

    let hour12_tier = Tier::Hour12;
    let hour12_normalized = hour12_tier.normalize_to_next(with_hour(get_date(2023, 1, 1), 4));
    assert_eq!(hour12_normalized, with_hour(get_date(2023, 1, 1), 12));
    let hour12_normalized = hour12_tier.normalize_to_next(with_hour(get_date(2023, 1, 1), 17));
    assert_eq!(hour12_normalized, get_date(2023, 1, 2));
}

#[test]
fn day_tier_normalization() {
    let day7_tier = Tier::Day7;
    let day7_normalized = day7_tier.normalize_to_next(get_date(2023, 1, 17));
    assert_eq!(day7_normalized, get_date(2023, 1, 21));
    let day15_normalized = day7_tier.normalize_to_next(get_date(2023, 1, 31));
    assert_eq!(day15_normalized, get_date(2023, 2, 4));

    let day15_tier = Tier::Day15;
    let day15_normalized = day15_tier.normalize_to_next(get_date(2023, 1, 17));
    assert_eq!(day15_normalized, get_date(2023, 1, 30));
    let day15_normalized = day15_tier.normalize_to_next(get_date(2023, 1, 31));
    assert_eq!(day15_normalized, get_date(2023, 2, 14));
}

#[test]
fn normalized_slots_are_valid() {
    // Every tier, from an arbitrary instant: the normalized slot is valid,
    // not earlier than the input, and normalizing a valid slot is a no-op.
    let tiers = [
        Tier::Min1,
        Tier::Min5,
        Tier::Min10,
        Tier::Min30,
        Tier::Hour1,
        Tier::Hour3,
        Tier::Hour6,
        Tier::Hour12,
        Tier::Day1,
        Tier::Day7,
        Tier::Day15,
        Tier::Day30,
        Tier::Day90,
        Tier::Day180,
        Tier::Day365,
    ];
    let t = DateTimeUtc::new(2023, 5, 19, 13, 37, 21, 500).unwrap();
    for tier in tiers {
        let slot = tier.normalize_to_next(t);
        assert!(tier.is_valid_slot(slot));
        assert!(t.le(&slot));
        assert_eq!(tier.normalize_to_next(slot), slot);
    }
}

#[test]
fn timestamp_matches_epoch_seconds() {
    assert_eq!(get_date(1970, 1, 1).timestamp(), 0);
    assert_eq!(get_date(2021, 7, 28).timestamp(), 1627430400);
    assert_eq!(
        DateTimeUtc::new(2023, 1, 1, 0, 37, 0, 0).unwrap().timestamp(),
        1672533420
    );
}

#[test]
fn min30_normalizes_against_thirty() {
    // The half-hour tier advances to the next multiple of 30 minutes.
    let t = with_minute(get_date(2023, 1, 1), 16);
    assert_eq!(
        Tier::Min30.normalize_to_next(t),
        with_minute(get_date(2023, 1, 1), 30)
    );
    let t = with_minute(get_date(2023, 1, 1), 44);
    assert_eq!(
        Tier::Min30.normalize_to_next(t),
        DateTimeUtc::new(2023, 1, 1, 1, 0, 0, 0).unwrap()
    );
}
