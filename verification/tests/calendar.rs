use timetable_calendar::calendar::{build_timetable, get_two_letter_weekday, render_timetable};
use timetable_calendar::courses::{parse_courses, Course, RawRecord};
use timetable_calendar::dates::Date;
use timetable_calendar::periods::{Period, Time};

fn uid_lines(doc: &str) -> Vec<String> {
    doc.lines()
        .filter(|l| l.starts_with("UID:"))
        .map(|l| l.to_string())
        .collect()
}

#[test]
fn two_letter_weekday_tokens() {
    let tokens = ["SU", "MO", "TU", "WE", "TH", "FR", "SA"];
    for (i, t) in tokens.iter().enumerate() {
        assert_eq!(get_two_letter_weekday(i as u8), Some(*t));
    }
    assert_eq!(get_two_letter_weekday(7), None);
}

#[test]
fn end_to_end_two_events() {
    // One raw record on Monday and Wednesday mornings, semester starting
    // on a Sunday and ending four weeks later.
    let records = vec![RawRecord {
        drop_status: "No".to_string(),
        withdraw_status: "No".to_string(),
        time_slot: "MW 9:25AM-10:40AM".to_string(),
        room: "Room 301".to_string(),
        course_code: "CSE101".to_string(),
        section: 1,
        faculty: "Dr. X".to_string(),
    }];
    let courses = parse_courses(&records).unwrap();
    assert_eq!(courses.len(), 1);
    assert_eq!(courses[0].periods.len(), 2);
    assert_eq!(courses[0].periods[0].day, 1);
    assert_eq!(courses[0].periods[1].day, 3);
    assert_eq!(courses[0].periods[0].start_time, Time::new(9, 25));
    assert_eq!(courses[0].periods[0].end_time, Time::new(10, 40));

    let start = Date { year: 2024, month: 1, day: 7 }; // a Sunday
    let end = Date { year: 2024, month: 2, day: 4 };
    let doc = render_timetable(&courses, "Spring 2024", &start, &end, "20240107T000000").unwrap();

    assert_eq!(doc.matches("BEGIN:VEVENT").count(), 2);
    assert_eq!(doc.matches("END:VEVENT").count(), 2);
    // First occurrences: the Monday and the Wednesday after the start.
    assert!(doc.contains("DTSTART;TZID=Asia/Dhaka:20240108T092500"));
    assert!(doc.contains("DTEND;TZID=Asia/Dhaka:20240108T104000"));
    assert!(doc.contains("DTSTART;TZID=Asia/Dhaka:20240110T092500"));
    assert!(doc.contains("RRULE:FREQ=WEEKLY;BYDAY=MO;UNTIL=20240204"));
    assert!(doc.contains("RRULE:FREQ=WEEKLY;BYDAY=WE;UNTIL=20240204"));
    assert!(doc.contains("SUMMARY:CSE101 (1)"));
    assert!(doc.contains("LOCATION:Room 301"));
    assert!(doc.contains("DESCRIPTION:Lecturer: Dr. X"));
    assert!(doc.contains("TZID:Asia/Dhaka"));
    assert!(doc.contains("CALSCALE:GREGORIAN"));
    assert!(doc.contains("METHOD:PUBLISH"));
    assert!(doc.contains("X-WR-CALNAME:Spring 2024"));
    assert!(doc.starts_with("BEGIN:VCALENDAR\r\n"));
    assert!(doc.ends_with("END:VCALENDAR\r\n"));

    // The two events differ only in weekday, so their identities differ.
    let uids = uid_lines(&doc);
    assert_eq!(uids.len(), 2);
    assert_ne!(uids[0], uids[1]);

    // The identity is the XXH3 digest of code, room and weekday digit.
    let expected_monday =
        format!("UID:{:x}", xxhash_rust::xxh3::xxh3_64("CSE101Room 3011".as_bytes()));
    let expected_wednesday =
        format!("UID:{:x}", xxhash_rust::xxh3::xxh3_64("CSE101Room 3013".as_bytes()));
    assert_eq!(uids[0], expected_monday);
    assert_eq!(uids[1], expected_wednesday);
}

#[test]
fn identities_stable_across_compilations() {
    let courses = vec![Course {
        course_code: "EEE201".to_string(),
        section: 7,
        lecturer: "Dr. Y".to_string(),
        periods: vec![Period {
            day: 5,
            start_time: Time::new(14, 0),
            end_time: Time::new(15, 15),
            room: "AB1-302".to_string(),
        }],
    }];
    let start = Date { year: 2025, month: 5, day: 11 };
    let end = Date { year: 2025, month: 8, day: 21 };
    // Two builds stamp the documents with the clock, which may differ;
    // the identity tokens must be byte-identical all the same.
    let doc1 = build_timetable(&courses, "Summer", &start, &end).unwrap();
    let doc2 = build_timetable(&courses, "Summer", &start, &end).unwrap();
    assert_eq!(uid_lines(&doc1), uid_lines(&doc2));
    // And a run with an explicitly different stamp agrees as well.
    let doc3 = render_timetable(&courses, "Summer", &start, &end, "19990101T000000").unwrap();
    assert_eq!(uid_lines(&doc1), uid_lines(&doc3));
}

#[test]
fn projection_failure_is_reported() {
    let courses = vec![Course {
        course_code: "X".to_string(),
        section: 1,
        lecturer: "L".to_string(),
        periods: vec![Period {
            day: 9, // no such weekday
            start_time: Time::new(9, 0),
            end_time: Time::new(10, 0),
            room: "R".to_string(),
        }],
    }];
    let start = Date { year: 2024, month: 1, day: 7 };
    let end = Date { year: 2024, month: 2, day: 4 };
    assert!(render_timetable(&courses, "S", &start, &end, "20240107T000000").is_err());
}

#[test]
fn empty_course_list_still_makes_a_document() {
    let start = Date { year: 2024, month: 1, day: 7 };
    let end = Date { year: 2024, month: 2, day: 4 };
    let doc = render_timetable(&Vec::new(), "Empty", &start, &end, "20240107T000000").unwrap();
    assert_eq!(doc.matches("BEGIN:VEVENT").count(), 0);
    assert!(doc.contains("NAME:Empty"));
    assert!(doc.contains("PRODID:-//East West University//Empty//EN"));
    assert!(doc.ends_with("END:VCALENDAR\r\n"));
}
