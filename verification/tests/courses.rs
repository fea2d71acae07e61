use timetable_calendar::courses::{parse_courses, Course, RawRecord};
use timetable_calendar::errors::ParseError;
use timetable_calendar::periods::Time;

fn record(code: &str, section: u8, cell: &str, room: &str) -> RawRecord {
    RawRecord {
        drop_status: "No".to_string(),
        withdraw_status: "No".to_string(),
        time_slot: cell.to_string(),
        room: room.to_string(),
        course_code: code.to_string(),
        section,
        faculty: "Dr. X".to_string(),
    }
}

#[test]
fn merge_shares_code_and_section() {
    // Two rows of one (code, section) pair with different cells become one
    // course holding both cells' periods, in first-seen order.
    let records = vec![
        record("CSE101", 1, "M 9:25AM-10:40AM", "Room 1"),
        record("CSE101", 1, "W 11:50AM-1:05PM", "Room 2"),
    ];
    let courses = parse_courses(&records).unwrap();
    assert_eq!(courses.len(), 1);
    let c = &courses[0];
    assert_eq!(c.course_code, "CSE101");
    assert_eq!(c.section, 1);
    assert_eq!(c.lecturer, "Dr. X");
    assert_eq!(c.periods.len(), 2);
    assert_eq!(c.periods[0].day, 1);
    assert_eq!(c.periods[0].room, "Room 1");
    assert_eq!(c.periods[1].day, 3);
    assert_eq!(c.periods[1].room, "Room 2");
    assert_eq!(c.periods[1].start_time, Time::new(11, 50));
    assert_eq!(c.periods[1].end_time, Time::new(13, 5));
}

#[test]
fn different_sections_stay_apart() {
    let records = vec![
        record("CSE101", 1, "M 9:25AM-10:40AM", "Room 1"),
        record("CSE101", 2, "M 9:25AM-10:40AM", "Room 1"),
        record("MAT102", 1, "T 9:25AM-10:40AM", "Room 2"),
    ];
    let courses = parse_courses(&records).unwrap();
    assert_eq!(courses.len(), 3);
    assert_eq!(courses[0].section, 1);
    assert_eq!(courses[1].section, 2);
    assert_eq!(courses[2].course_code, "MAT102");
}

#[test]
fn dropped_and_withdrawn_rows_vanish() {
    // An affirmative flag, in any letter case, removes the row entirely —
    // even when its schedule cell is garbage.
    let mut dropped = record("CSE101", 1, "this cell never parses", "R");
    dropped.drop_status = "YES".to_string();
    let mut withdrawn = record("EEE201", 1, "@@@", "R");
    withdrawn.withdraw_status = "yEs".to_string();
    let kept = record("MAT102", 1, "F 8:00AM-9:15AM", "Room 2");
    let records = vec![dropped, kept, withdrawn];
    let courses = parse_courses(&records).unwrap();
    assert_eq!(courses.len(), 1);
    assert_eq!(courses[0].course_code, "MAT102");
    assert_eq!(courses[0].periods.len(), 1);
}

#[test]
fn first_bad_cell_aborts_with_its_error() {
    let records = vec![
        record("CSE101", 1, "M 9:25AM-10:40AM", "Room 1"),
        record("EEE201", 1, "MX 9:25AM-10:40AM", "Room 2"),
    ];
    assert!(matches!(
        parse_courses(&records),
        Err(ParseError::InvalidDayLetter)
    ));
    let records = vec![record("CSE101", 1, "nospacehere", "Room 1")];
    assert!(matches!(
        parse_courses(&records),
        Err(ParseError::MissingField)
    ));
}

#[test]
fn empty_roster_yields_no_courses() {
    let courses = parse_courses(&Vec::new()).unwrap();
    assert!(courses.is_empty());
}

#[test]
fn error_messages_name_the_failure() {
    assert_eq!(ParseError::MissingField.message(), "Missing required field");
    assert_eq!(ParseError::InvalidDayLetter.message(), "Invalid day letter");
    assert_eq!(ParseError::InvalidTime.message(), "Invalid time string");
    assert_eq!(
        timetable_calendar::errors::CompileError::DateOutOfRange.message(),
        "Error finding first date of course"
    );
}
