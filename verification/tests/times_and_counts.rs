use geopq::calendar::{current_year, year_at, year_of_day};
use geopq::cancel::{fresh_cancel, CancelFlags};
use geopq::counts::fmt_count;
use std::collections::HashMap;

#[test]
fn current_year_is_sane() {
    let y = current_year();
    assert!((2026..2200).contains(&y), "{y}");
}

#[test]
fn days_fall_in_their_years() {
    assert_eq!(year_of_day(0), 1970);
    assert_eq!(year_of_day(364), 1970);
    assert_eq!(year_of_day(365), 1971);
    // 1972 is a leap year: its last day is day 1095.
    assert_eq!(year_of_day(1095), 1972);
    assert_eq!(year_of_day(1096), 1973);
    // 31 December 1999 and 1 January 2000.
    assert_eq!(year_of_day(10956), 1999);
    assert_eq!(year_of_day(10957), 2000);
    // 2100 is not a leap year.
    assert_eq!(year_of_day(47481), 2099);
    assert_eq!(year_of_day(47482), 2100);
    assert_eq!(year_of_day(47846), 2100);
    assert_eq!(year_of_day(47847), 2101);
}

#[test]
fn seconds_fall_in_their_years() {
    assert_eq!(year_at(Some(946_684_799)), 1999);
    assert_eq!(year_at(Some(946_684_800)), 2000);
    assert_eq!(year_at(None), 1970);
}

#[test]
fn counts_are_shown_in_short() {
    assert_eq!(fmt_count(0), "0");
    assert_eq!(fmt_count(9_999), "9999");
    assert_eq!(fmt_count(10_000), "10k");
    assert_eq!(fmt_count(12_499), "12k");
    assert_eq!(fmt_count(12_500), "12k");
    assert_eq!(fmt_count(13_500), "14k");
    assert_eq!(fmt_count(999_499), "999k");
    assert_eq!(fmt_count(999_999), "1000k");
    assert_eq!(fmt_count(1_000_000), "1.00M");
    assert_eq!(fmt_count(1_234_567), "1.23M");
    assert_eq!(fmt_count(123_456_789), "123.46M");
}

#[test]
fn counts_agree_with_the_standard_formatting() {
    let mut n: u64 = 1;
    for k in 0..4000u64 {
        n = n.wrapping_mul(6364136223846793005).wrapping_add(1442695040888963407 + k);
        for shift in [0, 13, 30, 40, 44] {
            let m = (n >> shift) as usize;
            let want = if m >= 1_000_000 {
                format!("{:.2}M", m as f64 / 1e6)
            } else if m >= 10_000 {
                format!("{:.0}k", m as f64 / 1e3)
            } else {
                m.to_string()
            };
            assert_eq!(fmt_count(m), want, "{m}");
        }
    }
}

#[test]
fn a_new_flag_raises_the_one_before() {
    let mut flags = CancelFlags::new();
    let mut map = HashMap::new();
    let first = fresh_cancel(&mut map, 7, &mut flags);
    assert!(!flags.is_raised(first));
    let other = fresh_cancel(&mut map, 8, &mut flags);
    let second = fresh_cancel(&mut map, 7, &mut flags);
    assert!(flags.is_raised(first));
    assert!(!flags.is_raised(other) && !flags.is_raised(second));
    assert_eq!(map.get(&7), Some(&second));
    flags.raise_values(&map);
    assert!(flags.is_raised(other) && flags.is_raised(second));
}
