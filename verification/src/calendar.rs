//! Compiling aggregated courses into a recurring-event calendar document.

use vstd::prelude::*;
use vstd::string::StrSliceExecFns;
use vstd::string::StringExecFns;
use vstd::string::StringSliceAdditionalSpecFns;
use vstd::utf8::encode_utf8;

use crate::courses::Course;
use crate::courses::CourseModel;
use crate::courses::PeriodModel;
use crate::courses::course_model;
use crate::courses::course_models;
use crate::courses::period_model;
use crate::dates::Date;
use crate::dates::date_weekday;
use crate::dates::date_wf;
use crate::dates::day_number;
use crate::dates::max_day_number;
use crate::dates::period_projectable;
use crate::dates::projected_first;
use crate::dates::target_offset;
use crate::dates::add_days;
use crate::dates::lemma_target_offset;
use crate::dates::weekday;
use crate::errors::CompileError;
use crate::periods::Period;
use crate::periods::Time;
use crate::periods::period_wf;
use crate::periods::time_wf;
use crate::text::dec_digits;
use crate::text::dec_string;
use crate::text::digit_char;
use crate::text::digit_str;
use crate::text::four_digit_string;
use crate::text::four_digits;
use crate::text::hex_digits;
use crate::text::hex_string;
use crate::text::two_digit_string;
use crate::text::two_digits;

verus! {

/// The 64-bit digest an unseeded XXH3 run assigns to a byte string.
pub uninterp spec fn xxh3_of(bytes: Seq<u8>) -> u64;

/// Relies on xxhash_rust::xxh3::xxh3_64: the unseeded 64-bit XXH3 digest,
/// a pure function of the input bytes alone.
#[verifier::external_body]
fn xxh3(data: &[u8]) -> (r: u64)
    ensures
        r == xxh3_of(data@),
{
    xxhash_rust::xxh3::xxh3_64(data)
}

/// Relies on chrono's Utc::now: the current civil date by the system
/// clock, rendered as `YYYYMMDDT000000`. Nothing is assumed of its value,
/// which changes from run to run.
#[verifier::external_body]
fn current_stamp() -> String {
    chrono::Utc::now().format("%Y%m%dT000000").to_string()
}

/// The text hashed into an event's identity: the course code, the room,
/// and the weekday index as one digit. Section, instructor and time bounds
/// stay out on purpose, so a time correction keeps the same identity.
pub open spec fn identity_input(code: Seq<char>, room: Seq<char>, day: int) -> Seq<char> {
    code + room + seq![digit_char(day)]
}

/// An event's identity token: the XXH3 digest of its identity text, in
/// lower-case hexadecimal.
pub open spec fn event_identity(code: Seq<char>, room: Seq<char>, day: int) -> Seq<char> {
    hex_digits(xxh3_of(encode_utf8(identity_input(code, room, day))) as int)
}

/// Renders the identity token of one (course code, room, weekday) group.
fn event_identity_string(code: &str, room: &str, day: u8) -> (s: String)
    requires
        day < 7,
    ensures
        s@ == event_identity(code@, room@, day as int),
{
    let mut input = code.to_owned();
    input.append(room);
    input.append(digit_str(day));
    proof {
        assert(input@ =~= identity_input(code@, room@, day as int));
    }
    let h = xxh3(input.as_str().as_bytes());
    hex_string(h)
}

/// A date as `YYYYMMDD`.
pub open spec fn date_text(d: Date) -> Seq<char> {
    four_digits(d.year as int) + two_digits(d.month as int) + two_digits(d.day as int)
}

/// A date and a time of day as `YYYYMMDDTHHMM00`.
pub open spec fn datetime_text(d: Date, t: Time) -> Seq<char> {
    date_text(d) + seq!['T'] + two_digits(t.hours as int) + two_digits(t.minutes as int) + seq![
        '0',
        '0',
    ]
}

/// Renders a date as `YYYYMMDD`.
fn date_string(d: &Date) -> (s: String)
    requires
        date_wf(*d),
    ensures
        s@ == date_text(*d),
{
    let mut s = four_digit_string(d.year);
    s.append(two_digit_string(d.month).as_str());
    s.append(two_digit_string(d.day).as_str());
    proof {
        assert(s@ =~= date_text(*d));
    }
    s
}

/// Renders a date and time as `YYYYMMDDTHHMM00`.
fn datetime_string(d: &Date, t: &Time) -> (s: String)
    requires
        date_wf(*d),
        time_wf(*t),
    ensures
        s@ == datetime_text(*d, *t),
{
    let mut s = date_string(d);
    s.append("T");
    s.append(two_digit_string(t.hours).as_str());
    s.append(two_digit_string(t.minutes).as_str());
    s.append("00");
    proof {
        reveal_strlit("T");
        reveal_strlit("00");
        assert(s@ =~= datetime_text(*d, *t));
    }
    s
}

/// The two-letter recurrence token of a weekday index in 0..=6.
pub open spec fn two_letter_weekday(day: int) -> Seq<char> {
    if day == 0 {
        "SU"@
    } else if day == 1 {
        "MO"@
    } else if day == 2 {
        "TU"@
    } else if day == 3 {
        "WE"@
    } else if day == 4 {
        "TH"@
    } else if day == 5 {
        "FR"@
    } else {
        "SA"@
    }
}

/// The two-letter token of a weekday index known to be in range.
fn two_letter(day: u8) -> (r: &'static str)
    requires
        day < 7,
    ensures
        r@ == two_letter_weekday(day as int),
{
    match day {
        0 => "SU",
        1 => "MO",
        2 => "TU",
        3 => "WE",
        4 => "TH",
        5 => "FR",
        _ => "SA",
    }
}

/// The two-letter recurrence token of a weekday index, or nothing for an
/// index past Saturday.
pub fn get_two_letter_weekday(day_index: u8) -> (r: Option<&'static str>)
    ensures
        r is Some <==> day_index <= 6,
        r is Some ==> r->Some_0@ == two_letter_weekday(day_index as int),
{
    if day_index <= 6 {
        Some(two_letter(day_index))
    } else {
        None
    }
}

/// The first calendar date on or after a start date that falls on the
/// given weekday, or nothing when the index names no weekday or the date
/// would leave the supported range.
pub fn find_first_weekday(start_date: &Date, day_index: u8) -> (r: Option<Date>)
    requires
        date_wf(*start_date),
    ensures
        day_index > 6 ==> r is None,
        day_index <= 6 ==> ({
            let off = target_offset(date_weekday(*start_date), day_index as int);
            &&& (r is Some <==> day_number(*start_date) + off <= max_day_number())
            &&& (r is Some ==> ({
                let e = r->Some_0;
                &&& e == projected_first(*start_date, day_index as int)
                &&& date_wf(e)
                &&& day_number(e) == day_number(*start_date) + off
                &&& day_number(e) <= day_number(*start_date) + 6
                &&& date_weekday(e) == day_index as int
            }))
        }),
{
    if day_index > 6 {
        return None;
    }
    let w = weekday(start_date);
    let off: u8 = (7 + day_index - w) % 7;
    proof {
        lemma_target_offset(day_number(*start_date), day_index as int);
    }
    add_days(start_date, off)
}

/// The line terminator of the interchange format.
pub open spec fn crlf() -> Seq<char> {
    seq!['\r', '\n']
}

/// One content line: its text followed by the line terminator.
pub open spec fn content_line(s: Seq<char>) -> Seq<char> {
    s + crlf()
}

/// The opening of an event: its begin marker and its identity line. This
/// much of every event is untouched by the creation stamp.
pub open spec fn event_prefix(code: Seq<char>, room: Seq<char>, day: int) -> Seq<char> {
    content_line("BEGIN:VEVENT"@) + content_line("UID:"@ + event_identity(code, room, day))
}

/// Everything of an event after its creation stamp line: summary,
/// location, description, the timezone-qualified bounds of the first
/// occurrence, the weekly recurrence rule, and the end marker.
pub open spec fn event_body(
    code: Seq<char>,
    section: u8,
    lecturer: Seq<char>,
    p: PeriodModel,
    first: Date,
    end: Date,
) -> Seq<char> {
    content_line("SUMMARY:"@ + code + " ("@ + dec_digits(section as int) + ")"@) + content_line(
        "LOCATION:"@ + p.room,
    ) + content_line("DESCRIPTION:Lecturer: "@ + lecturer) + content_line(
        "DTSTART;TZID=Asia/Dhaka:"@ + datetime_text(first, p.start_time),
    ) + content_line("DTEND;TZID=Asia/Dhaka:"@ + datetime_text(first, p.end_time)) + content_line(
        "RRULE:FREQ=WEEKLY;BYDAY="@ + two_letter_weekday(p.day) + ";UNTIL="@ + date_text(end),
    ) + content_line("END:VEVENT"@)
}

/// One whole event block.
pub open spec fn event_text(
    code: Seq<char>,
    section: u8,
    lecturer: Seq<char>,
    p: PeriodModel,
    first: Date,
    end: Date,
    stamp: Seq<char>,
) -> Seq<char> {
    event_prefix(code, p.room, p.day) + content_line("DTSTAMP:"@ + stamp) + event_body(
        code,
        section,
        lecturer,
        p,
        first,
        end,
    )
}

/// The event blocks of one course's periods, in period order.
pub open spec fn periods_events(
    code: Seq<char>,
    section: u8,
    lecturer: Seq<char>,
    ps: Seq<PeriodModel>,
    start: Date,
    end: Date,
    stamp: Seq<char>,
) -> Seq<char>
    decreases ps.len(),
{
    if ps.len() == 0 {
        Seq::empty()
    } else {
        event_text(code, section, lecturer, ps[0], projected_first(start, ps[0].day), end, stamp)
            + periods_events(code, section, lecturer, ps.drop_first(), start, end, stamp)
    }
}

/// The event blocks of all courses, in course order.
pub open spec fn courses_events(
    cs: Seq<CourseModel>,
    start: Date,
    end: Date,
    stamp: Seq<char>,
) -> Seq<char>
    decreases cs.len(),
{
    if cs.len() == 0 {
        Seq::empty()
    } else {
        periods_events(cs[0].code, cs[0].section, cs[0].lecturer, cs[0].periods, start, end, stamp)
            + courses_events(cs.drop_first(), start, end, stamp)
    }
}

/// The document's opening: version and product lines, the fixed-offset
/// timezone block, and the calendar name, scale and method properties.
pub open spec fn document_header(name: Seq<char>) -> Seq<char> {
    content_line("BEGIN:VCALENDAR"@) + content_line("VERSION:2.0"@) + content_line(
        "PRODID:-//East West University//"@ + name + "//EN"@,
    ) + content_line("BEGIN:VTIMEZONE"@) + content_line("TZID:Asia/Dhaka"@) + content_line(
        "BEGIN:STANDARD"@,
    ) + content_line("DTSTART:19700101T000000"@) + content_line("TZOFFSETFROM:+0600"@)
        + content_line("TZOFFSETTO:+0600"@) + content_line("END:STANDARD"@) + content_line(
        "END:VTIMEZONE"@,
    ) + content_line("NAME:"@ + name) + content_line("X-WR-CALNAME:"@ + name) + content_line(
        "CALSCALE:GREGORIAN"@,
    ) + content_line("METHOD:PUBLISH"@)
}

/// The whole document.
pub open spec fn document_text(
    cs: Seq<CourseModel>,
    name: Seq<char>,
    start: Date,
    end: Date,
    stamp: Seq<char>,
) -> Seq<char> {
    document_header(name) + courses_events(cs, start, end, stamp) + content_line("END:VCALENDAR"@)
}

/// Every period of every course carries clock-valid times.
pub open spec fn course_periods_wf(cs: Seq<CourseModel>) -> bool {
    forall|i: int, j: int|
        0 <= i < cs.len() && 0 <= j < cs[i].periods.len() ==> time_wf(
            (#[trigger] cs[i].periods[j]).start_time,
        ) && time_wf(cs[i].periods[j].end_time)
}

/// Every period of every course projects to a first occurrence inside the
/// supported calendar range.
pub open spec fn all_projectable(cs: Seq<CourseModel>, start: Date) -> bool {
    forall|i: int, j: int|
        0 <= i < cs.len() && 0 <= j < cs[i].periods.len() ==> period_projectable(
            start,
            (#[trigger] cs[i].periods[j]).day,
        )
}

/// The line terminator as a string slice.
fn crlf_str() -> (r: &'static str)
    ensures
        r@ == crlf(),
{
    proof {
        reveal_strlit("\r\n");
        assert(("\r\n")@ =~= crlf());
    }
    "\r\n"
}

/// Appends one content line.
fn push_line(out: &mut String, line: &str)
    ensures
        final(out)@ == old(out)@ + content_line(line@),
{
    out.append(line);
    out.append(crlf_str());
    proof {
        assert(out@ =~= old(out)@ + content_line(line@));
    }
}

/// Appends one content line made of a property name and its value.
fn push_kv(out: &mut String, key: &str, value: &str)
    ensures
        final(out)@ == old(out)@ + content_line(key@ + value@),
{
    out.append(key);
    out.append(value);
    out.append(crlf_str());
    proof {
        assert(out@ =~= old(out)@ + content_line(key@ + value@));
    }
}

/// Appends one event block.
#[verifier::rlimit(100)]
fn push_event(
    out: &mut String,
    code: &String,
    section: u8,
    lecturer: &String,
    p: &Period,
    first: &Date,
    end: &Date,
    stamp: &str,
)
    requires
        period_wf(*p),
        date_wf(*first),
        date_wf(*end),
    ensures
        final(out)@ == old(out)@ + event_text(
            code@,
            section,
            lecturer@,
            period_model(*p),
            *first,
            *end,
            stamp@,
        ),
{
    let ghost m = period_model(*p);
    push_line(out, "BEGIN:VEVENT");
    let uid = event_identity_string(code.as_str(), p.room.as_str(), p.day);
    push_kv(out, "UID:", uid.as_str());
    proof {
        assert(out@ =~= old(out)@ + event_prefix(code@, m.room, m.day));
    }
    let ghost with_prefix = out@;
    push_kv(out, "DTSTAMP:", stamp);
    let ghost with_stamp = out@;
    out.append("SUMMARY:");
    out.append(code.as_str());
    out.append(" (");
    let sec = dec_string(section);
    out.append(sec.as_str());
    out.append(")");
    out.append(crlf_str());
    proof {
        assert(out@ =~= with_stamp + content_line(
            "SUMMARY:"@ + code@ + " ("@ + dec_digits(section as int) + ")"@,
        ));
    }
    let ghost acc1 = out@;
    push_kv(out, "LOCATION:", p.room.as_str());
    push_kv(out, "DESCRIPTION:Lecturer: ", lecturer.as_str());
    let ghost acc2 = out@;
    let st = datetime_string(first, &p.start_time);
    push_kv(out, "DTSTART;TZID=Asia/Dhaka:", st.as_str());
    let en = datetime_string(first, &p.end_time);
    push_kv(out, "DTEND;TZID=Asia/Dhaka:", en.as_str());
    let ghost acc3 = out@;
    out.append("RRULE:FREQ=WEEKLY;BYDAY=");
    out.append(two_letter(p.day));
    out.append(";UNTIL=");
    let until = date_string(end);
    out.append(until.as_str());
    out.append(crlf_str());
    proof {
        assert(out@ =~= acc3 + content_line(
            "RRULE:FREQ=WEEKLY;BYDAY="@ + two_letter_weekday(m.day) + ";UNTIL="@ + date_text(*end),
        ));
    }
    push_line(out, "END:VEVENT");
    proof {
        assert(out@ =~= with_stamp + event_body(code@, section, lecturer@, m, *first, *end));
        assert(out@ =~= old(out)@ + event_text(code@, section, lecturer@, m, *first, *end, stamp@));
    }
}

/// Appending a period at the end appends its event block at the end.
#[verifier::rlimit(100)]
proof fn lemma_periods_events_snoc(
    code: Seq<char>,
    section: u8,
    lecturer: Seq<char>,
    ps: Seq<PeriodModel>,
    p: PeriodModel,
    start: Date,
    end: Date,
    stamp: Seq<char>,
)
    ensures
        periods_events(code, section, lecturer, ps.push(p), start, end, stamp) == periods_events(
            code,
            section,
            lecturer,
            ps,
            start,
            end,
            stamp,
        ) + event_text(code, section, lecturer, p, projected_first(start, p.day), end, stamp),
    decreases ps.len(),
{
    let ev = |q: PeriodModel| event_text(
        code,
        section,
        lecturer,
        q,
        projected_first(start, q.day),
        end,
        stamp,
    );
    if ps.len() == 0 {
        assert(ps.push(p)[0] == p);
        assert(ps.push(p).drop_first() =~= Seq::<PeriodModel>::empty());
        assert(periods_events(code, section, lecturer, Seq::<PeriodModel>::empty(), start, end, stamp)
            == Seq::<char>::empty());
        assert(periods_events(code, section, lecturer, ps.push(p), start, end, stamp) =~= ev(p));
        assert(periods_events(code, section, lecturer, ps, start, end, stamp) + ev(p) =~= ev(p));
    } else {
        assert(ps.push(p)[0] == ps[0]);
        assert(ps.push(p).drop_first() =~= ps.drop_first().push(p));
        lemma_periods_events_snoc(code, section, lecturer, ps.drop_first(), p, start, end, stamp);
        assert(periods_events(code, section, lecturer, ps.push(p), start, end, stamp) =~= (ev(ps[0])
            + periods_events(code, section, lecturer, ps.drop_first(), start, end, stamp)) + ev(p));
    }
}

/// Appending a course at the end appends its event blocks at the end.
#[verifier::rlimit(100)]
proof fn lemma_courses_events_snoc(
    cs: Seq<CourseModel>,
    c: CourseModel,
    start: Date,
    end: Date,
    stamp: Seq<char>,
)
    ensures
        courses_events(cs.push(c), start, end, stamp) == courses_events(cs, start, end, stamp)
            + periods_events(c.code, c.section, c.lecturer, c.periods, start, end, stamp),
    decreases cs.len(),
{
    let pe = |d: CourseModel| periods_events(
        d.code,
        d.section,
        d.lecturer,
        d.periods,
        start,
        end,
        stamp,
    );
    if cs.len() == 0 {
        assert(cs.push(c)[0] == c);
        assert(cs.push(c).drop_first() =~= Seq::<CourseModel>::empty());
        assert(courses_events(Seq::<CourseModel>::empty(), start, end, stamp) == Seq::<char>::empty());
        assert(courses_events(cs.push(c), start, end, stamp) =~= pe(c));
        assert(courses_events(cs, start, end, stamp) + pe(c) =~= pe(c));
    } else {
        assert(cs.push(c)[0] == cs[0]);
        assert(cs.push(c).drop_first() =~= cs.drop_first().push(c));
        lemma_courses_events_snoc(cs.drop_first(), c, start, end, stamp);
        assert(courses_events(cs.push(c), start, end, stamp) =~= (pe(cs[0]) + courses_events(
            cs.drop_first(),
            start,
            end,
            stamp,
        )) + pe(c));
    }
}

/// Appends the document's opening lines.
fn push_header(out: &mut String, name: &str)
    ensures
        final(out)@ == old(out)@ + document_header(name@),
{
    push_line(out, "BEGIN:VCALENDAR");
    push_line(out, "VERSION:2.0");
    out.append("PRODID:-//East West University//");
    out.append(name);
    out.append("//EN");
    out.append(crlf_str());
    proof {
        assert(out@ =~= old(out)@ + content_line("BEGIN:VCALENDAR"@) + content_line("VERSION:2.0"@)
            + content_line("PRODID:-//East West University//"@ + name@ + "//EN"@));
    }
    let ghost acc1 = out@;
    push_line(out, "BEGIN:VTIMEZONE");
    push_line(out, "TZID:Asia/Dhaka");
    push_line(out, "BEGIN:STANDARD");
    push_line(out, "DTSTART:19700101T000000");
    let ghost acc2 = out@;
    push_line(out, "TZOFFSETFROM:+0600");
    push_line(out, "TZOFFSETTO:+0600");
    push_line(out, "END:STANDARD");
    push_line(out, "END:VTIMEZONE");
    let ghost acc3 = out@;
    push_kv(out, "NAME:", name);
    push_kv(out, "X-WR-CALNAME:", name);
    push_line(out, "CALSCALE:GREGORIAN");
    push_line(out, "METHOD:PUBLISH");
    proof {
        assert(out@ =~= old(out)@ + document_header(name@));
    }
}

/// Renders the whole calendar document for a given creation stamp. The
/// result is a pure function of the courses, the calendar name, the
/// semester bounds and the stamp; compilation fails exactly when some
/// period's weekday cannot be projected inside the supported range.
#[verifier::rlimit(100)]
pub fn render_timetable(
    courses: &Vec<Course>,
    name: &str,
    start_date: &Date,
    end_date: &Date,
    stamp: &str,
) -> (r: Result<String, CompileError>)
    requires
        date_wf(*start_date),
        date_wf(*end_date),
        course_periods_wf(course_models(courses@)),
    ensures
        r is Ok <==> all_projectable(course_models(courses@), *start_date),
        r is Ok ==> r->Ok_0@ == document_text(
            course_models(courses@),
            name@,
            *start_date,
            *end_date,
            stamp@,
        ),
        r is Err ==> r->Err_0 == CompileError::DateOutOfRange,
{
    let ghost cs = course_models(courses@);
    let mut out = String::new();
    push_header(&mut out, name);
    let nc = courses.len();
    let mut ci: usize = 0;
    while ci < nc
        invariant
            nc == courses@.len(),
            cs == course_models(courses@),
            date_wf(*start_date),
            date_wf(*end_date),
            course_periods_wf(cs),
            ci <= nc,
            forall|i: int, j: int|
                0 <= i < ci && 0 <= j < cs[i].periods.len() ==> period_projectable(
                    *start_date,
                    (#[trigger] cs[i].periods[j]).day,
                ),
            out@ == document_header(name@) + courses_events(
                cs.take(ci as int),
                *start_date,
                *end_date,
                stamp@,
            ),
        decreases nc - ci,
    {
        let course = &courses[ci];
        proof {
            assert(cs[ci as int] == course_model(*course));
        }
        let np = course.periods.len();
        let mut pi: usize = 0;
        while pi < np
            invariant
                nc == courses@.len(),
                cs == course_models(courses@),
                date_wf(*start_date),
                date_wf(*end_date),
                course_periods_wf(cs),
                ci < nc,
                *course == courses@[ci as int],
                cs[ci as int] == course_model(*course),
                np == course.periods@.len(),
                pi <= np,
                forall|j: int|
                    0 <= j < pi ==> period_projectable(
                        *start_date,
                        (#[trigger] cs[ci as int].periods[j]).day,
                    ),
                out@ == document_header(name@) + courses_events(
                    cs.take(ci as int),
                    *start_date,
                    *end_date,
                    stamp@,
                ) + periods_events(
                    cs[ci as int].code,
                    cs[ci as int].section,
                    cs[ci as int].lecturer,
                    cs[ci as int].periods.take(pi as int),
                    *start_date,
                    *end_date,
                    stamp@,
                ),
            decreases np - pi,
        {
            let p = &course.periods[pi];
            proof {
                assert(cs[ci as int].periods[pi as int] == period_model(*p));
                assert(time_wf(p.start_time) && time_wf(p.end_time));
            }
            let first = match find_first_weekday(start_date, p.day) {
                Some(d) => d,
                None => {
                    proof {
                        assert(!period_projectable(*start_date, period_model(*p).day));
                        assert(!all_projectable(cs, *start_date));
                    }
                    return Err(CompileError::DateOutOfRange);
                },
            };
            push_event(
                &mut out,
                &course.course_code,
                course.section,
                &course.lecturer,
                p,
                &first,
                end_date,
                stamp,
            );
            proof {
                assert(cs[ci as int].periods.take(pi as int + 1) =~= cs[ci as int].periods.take(
                    pi as int,
                ).push(period_model(*p)));
                lemma_periods_events_snoc(
                    cs[ci as int].code,
                    cs[ci as int].section,
                    cs[ci as int].lecturer,
                    cs[ci as int].periods.take(pi as int),
                    period_model(*p),
                    *start_date,
                    *end_date,
                    stamp@,
                );
            }
            pi += 1;
        }
        proof {
            assert(cs[ci as int].periods.take(np as int) =~= cs[ci as int].periods);
            assert(cs.take(ci as int + 1) =~= cs.take(ci as int).push(cs[ci as int]));
            lemma_courses_events_snoc(
                cs.take(ci as int),
                cs[ci as int],
                *start_date,
                *end_date,
                stamp@,
            );
        }
        ci += 1;
    }
    push_line(&mut out, "END:VCALENDAR");
    proof {
        assert(cs.take(nc as int) =~= cs);
        assert(out@ =~= document_text(cs, name@, *start_date, *end_date, stamp@));
    }
    Ok(out)
}

/// Compiles aggregated courses into the finished calendar document, with
/// a creation stamp drawn from the clock. The event identities inside are
/// a pure function of each event's course code, room and weekday; only
/// the stamp varies between two compilations of the same input.
pub fn build_timetable(
    courses: &Vec<Course>,
    name: &str,
    start_date: &Date,
    end_date: &Date,
) -> (r: Result<String, CompileError>)
    requires
        date_wf(*start_date),
        date_wf(*end_date),
        course_periods_wf(course_models(courses@)),
    ensures
        r is Ok <==> all_projectable(course_models(courses@), *start_date),
        r is Ok ==> exists|stamp: Seq<char>|
            r->Ok_0@ == document_text(
                course_models(courses@),
                name@,
                *start_date,
                *end_date,
                stamp,
            ),
        r is Err ==> r->Err_0 == CompileError::DateOutOfRange,
{
    let stamp = current_stamp();
    let r = render_timetable(courses, name, start_date, end_date, stamp.as_str());
    proof {
        if r is Ok {
            assert(r->Ok_0@ == document_text(
                course_models(courses@),
                name@,
                *start_date,
                *end_date,
                stamp@,
            ));
        }
    }
    r
}

/// Compiling the same input twice yields the same event identities. Each
/// event's opening — its begin marker and its whole identity line — is
/// the same under any two creation stamps, because the identity depends
/// only on the course code, the room and the weekday; the stamp touches
/// nothing before the creation-stamp line and nothing after it.
pub proof fn lemma_identity_idempotent(
    code: Seq<char>,
    section: u8,
    lecturer: Seq<char>,
    p: PeriodModel,
    first: Date,
    end: Date,
    stamp1: Seq<char>,
    stamp2: Seq<char>,
)
    ensures
        ({
            let pl = event_prefix(code, p.room, p.day).len() as int;
            let t1 = event_text(code, section, lecturer, p, first, end, stamp1);
            let t2 = event_text(code, section, lecturer, p, first, end, stamp2);
            &&& t1.take(pl) == event_prefix(code, p.room, p.day)
            &&& t2.take(pl) == event_prefix(code, p.room, p.day)
            &&& t1.take(pl) == t2.take(pl)
            &&& t1.skip(pl + content_line("DTSTAMP:"@ + stamp1).len()) == event_body(
                code,
                section,
                lecturer,
                p,
                first,
                end,
            )
            &&& t2.skip(pl + content_line("DTSTAMP:"@ + stamp2).len()) == event_body(
                code,
                section,
                lecturer,
                p,
                first,
                end,
            )
        }),
{
    let pre = event_prefix(code, p.room, p.day);
    let pl = pre.len() as int;
    let t1 = event_text(code, section, lecturer, p, first, end, stamp1);
    let t2 = event_text(code, section, lecturer, p, first, end, stamp2);
    assert(t1.take(pl) =~= pre);
    assert(t2.take(pl) =~= pre);
    assert(t1.skip(pl + content_line("DTSTAMP:"@ + stamp1).len()) =~= event_body(
        code,
        section,
        lecturer,
        p,
        first,
        end,
    ));
    assert(t2.skip(pl + content_line("DTSTAMP:"@ + stamp2).len()) =~= event_body(
        code,
        section,
        lecturer,
        p,
        first,
        end,
    ));
}

} // verus!
