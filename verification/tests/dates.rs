use timetable_calendar::calendar::find_first_weekday;
use timetable_calendar::dates::{add_days, next_day, weekday, Date};

#[test]
fn weekday_of_known_dates() {
    // 2024-01-01 was a Monday, 2025-01-05 a Sunday, 1970-01-01 a Thursday.
    assert_eq!(weekday(&Date { year: 2024, month: 1, day: 1 }), 1);
    assert_eq!(weekday(&Date { year: 2025, month: 1, day: 5 }), 0);
    assert_eq!(weekday(&Date { year: 1970, month: 1, day: 1 }), 4);
    assert_eq!(weekday(&Date { year: 2024, month: 2, day: 29 }), 4);
}

#[test]
fn next_day_handles_boundaries() {
    assert_eq!(
        next_day(&Date { year: 2024, month: 2, day: 28 }),
        Some(Date { year: 2024, month: 2, day: 29 })
    );
    assert_eq!(
        next_day(&Date { year: 2023, month: 2, day: 28 }),
        Some(Date { year: 2023, month: 3, day: 1 })
    );
    assert_eq!(
        next_day(&Date { year: 2023, month: 12, day: 31 }),
        Some(Date { year: 2024, month: 1, day: 1 })
    );
    assert_eq!(next_day(&Date { year: 9999, month: 12, day: 31 }), None);
}

#[test]
fn add_days_walks_forward() {
    assert_eq!(
        add_days(&Date { year: 2024, month: 12, day: 30 }, 3),
        Some(Date { year: 2025, month: 1, day: 2 })
    );
    assert_eq!(add_days(&Date { year: 9999, month: 12, day: 29 }, 6), None);
}

#[test]
fn first_weekday_on_matching_day_is_start() {
    // The start date falls on a Sunday; projecting Sunday returns it.
    let start = Date { year: 2024, month: 1, day: 7 };
    assert_eq!(find_first_weekday(&start, 0), Some(start));
}

#[test]
fn first_weekday_lands_within_six_days() {
    let start = Date { year: 2024, month: 1, day: 7 };
    for target in 0u8..7 {
        let d = find_first_weekday(&start, target).unwrap();
        assert_eq!(weekday(&d), target);
        // Within the following six days: same month here, day 7..=13.
        assert_eq!(d.year, 2024);
        assert_eq!(d.month, 1);
        assert!(d.day >= 7 && d.day <= 13);
    }
}

#[test]
fn first_weekday_rejects_bad_index_and_overflow() {
    let start = Date { year: 2024, month: 1, day: 7 };
    assert_eq!(find_first_weekday(&start, 7), None);
    // Too close to the end of the supported calendar to reach a Friday.
    let late = Date { year: 9999, month: 12, day: 30 };
    let w = weekday(&late);
    let unreachable_target = (w + 9) % 7; // more than two days ahead
    assert_eq!(find_first_weekday(&late, unreachable_target), None);
}
