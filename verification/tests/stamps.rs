//! Stamps.
use cardbox::stamp::{civil_from_days, utc_stamp};

#[test]
fn the_stamp_is_utc_and_sorts_as_it_reads() {
    assert_eq!(utc_stamp(0), "19700101T000000Z");
    assert_eq!(utc_stamp(1_757_592_000_000), "20250911T120000Z");
    // A leap day, which the era arithmetic is the reason to trust.
    assert_eq!(utc_stamp(1_709_164_800_000), "20240229T000000Z");
}

#[test]
fn a_moment_before_the_epoch_is_the_day_before() {
    assert_eq!(utc_stamp(-1), "19691231T235959Z");
    assert_eq!(civil_from_days(-1), (1969, 12, 31));
    assert_eq!(civil_from_days(-719_528), (0, 1, 1));
    assert_eq!(civil_from_days(-719_529), (-1, 12, 31));
    assert_eq!(civil_from_days(11_016), (2000, 2, 29));
    assert_eq!(civil_from_days(47_540), (2100, 2, 28));
    assert_eq!(civil_from_days(47_541), (2100, 3, 1));
}

#[test]
fn later_seconds_have_later_stamps() {
    let mut last = utc_stamp(-62_167_219_200_000);
    assert_eq!(last, "00000101T000000Z");
    let mut ms: i64 = -62_167_219_200_000;
    while ms < 253_402_300_799_000 {
        ms += 86_399_999_000;
        if ms < 253_402_300_799_000 {
            let next = utc_stamp(ms);
            assert!(last < next, "{last} {next}");
            last = next;
        }
    }
    assert_eq!(utc_stamp(253_402_300_799_999), "99991231T235959Z");
    assert_eq!(utc_stamp(i64::MAX).len(), utc_stamp(i64::MAX).trim().len());
    assert!(utc_stamp(i64::MIN).starts_with('-'));
}
