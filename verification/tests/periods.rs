use timetable_calendar::errors::ParseError;
use timetable_calendar::periods::{Period, Time};

#[test]
fn test_time_from() {
    let time = Time::parse("12:00AM").unwrap();
    assert_eq!(time.hours, 0);
    assert_eq!(time.minutes, 0);

    let time = Time::parse("12:00PM").unwrap();
    assert_eq!(time.hours, 12);
    assert_eq!(time.minutes, 0);

    let time = Time::parse("1:00AM").unwrap();
    assert_eq!(time.hours, 1);
    assert_eq!(time.minutes, 0);

    let time = Time::parse("1:00PM").unwrap();
    assert_eq!(time.hours, 13);
    assert_eq!(time.minutes, 0);

    let time = Time::parse("6:30PM").unwrap();
    assert_eq!(time.hours, 18);
    assert_eq!(time.minutes, 30);
}

#[test]
fn parse_time_slots() {
    let period = Period::parse_periods("MW 9:25AM-10:40AM", "Room 1").unwrap();

    assert_eq!(
        period,
        vec![
            Period {
                day: 1,
                start_time: Time::new(9, 25),
                end_time: Time::new(10, 40),
                room: "Room 1".to_string(),
            },
            Period {
                day: 3,
                start_time: Time::new(9, 25),
                end_time: Time::new(10, 40),
                room: "Room 1".to_string(),
            }
        ]
    );
}

#[test]
fn time_parse_rejects_bad_tokens() {
    assert_eq!(Time::parse("13:00PM"), Err(ParseError::InvalidTime));
    assert_eq!(Time::parse("0:30AM"), Err(ParseError::InvalidTime));
    assert_eq!(Time::parse("9:60AM"), Err(ParseError::InvalidTime));
    assert_eq!(Time::parse("9:25am"), Err(ParseError::InvalidTime));
    assert_eq!(Time::parse("9:25"), Err(ParseError::InvalidTime));
    assert_eq!(Time::parse("925AM"), Err(ParseError::InvalidTime));
    assert_eq!(Time::parse("x9:25AMy"), Err(ParseError::InvalidTime));
}

#[test]
fn time_label_round_trip() {
    // Every padded label comes back unchanged through parse and render.
    for label in ["09:25AM", "12:00AM", "12:00PM", "11:59PM", "01:00AM", "10:40AM"] {
        let t = Time::parse(label).unwrap();
        assert_eq!(t.render(), label);
    }
    // A one-digit hour is the one shape that renders back padded.
    let t = Time::parse("9:25AM").unwrap();
    assert_eq!(t.render(), "09:25AM");
    // Hours 0 and 12 both show a 12 on the clock face, told apart by the
    // meridiem marker.
    assert_eq!(Time::new(0, 0).render(), "12:00AM");
    assert_eq!(Time::new(12, 0).render(), "12:00PM");
    assert_eq!(Time::new(18, 30).render(), "06:30PM");
}

#[test]
fn weekday_letters_map_in_order() {
    let letters = ['S', 'M', 'T', 'W', 'R', 'F', 'A'];
    for (i, c) in letters.iter().enumerate() {
        assert_eq!(Period::parse_weekday_letter(*c), Some(i as u8));
    }
    assert_eq!(Period::parse_weekday_letter('X'), None);
    assert_eq!(Period::parse_weekday_letter('m'), None);
}

#[test]
fn weekday_names_cover_the_week() {
    assert_eq!(Period::weekday_name(0), Some("Sunday".to_string()));
    assert_eq!(Period::weekday_name(3), Some("Wednesday".to_string()));
    assert_eq!(Period::weekday_name(6), Some("Saturday".to_string()));
    assert_eq!(Period::weekday_name(7), None);
}

#[test]
fn parse_periods_keeps_letter_order_and_bounds() {
    let ps = Period::parse_periods("SRA 6:30PM-7:45PM", "FUB 601").unwrap();
    assert_eq!(ps.len(), 3);
    assert_eq!(ps[0].day, 0);
    assert_eq!(ps[1].day, 4);
    assert_eq!(ps[2].day, 6);
    for p in &ps {
        assert_eq!(p.start_time, Time::new(18, 30));
        assert_eq!(p.end_time, Time::new(19, 45));
        assert_eq!(p.room, "FUB 601");
    }
}

#[test]
fn parse_periods_keeps_repeated_letters() {
    // Repeated letters are not deduplicated: two identical periods.
    let ps = Period::parse_periods("MM 9:00AM-10:00AM", "R1").unwrap();
    assert_eq!(ps.len(), 2);
    assert_eq!(ps[0], ps[1]);
}

#[test]
fn parse_periods_error_cases() {
    assert_eq!(
        Period::parse_periods("M9:00AM-10:00AM", "R1"),
        Err(ParseError::MissingField)
    );
    assert_eq!(
        Period::parse_periods("M 9:00AM", "R1"),
        Err(ParseError::InvalidTime)
    );
    assert_eq!(
        Period::parse_periods("M 9:00-10:00", "R1"),
        Err(ParseError::InvalidTime)
    );
    assert_eq!(
        Period::parse_periods("MX 9:00AM-10:00AM", "R1"),
        Err(ParseError::InvalidDayLetter)
    );
}
