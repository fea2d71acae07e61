//! Times of day and weekly period slots, parsed from compact schedule cells.

use vstd::prelude::*;
use vstd::string::StrSliceExecFns;
use vstd::string::StringExecFns;

use crate::errors::ParseError;
use crate::text::digit_char;
use crate::text::two_digit_string;
use crate::text::two_digits;

verus! {

/// A wall-clock time of day, stored in 24-hour form.
#[derive(Debug, Clone, Copy, PartialEq, Eq, Structural)]
pub struct Time {
    pub hours: u8,
    pub minutes: u8,
}

/// A time of day is well formed when it fits the clock.
pub open spec fn time_wf(t: Time) -> bool {
    t.hours < 24 && t.minutes < 60
}

/// Whether a character is a decimal digit (codes 48..=57 are '0'..='9').
pub open spec fn is_digit(c: char) -> bool {
    48 <= c as int && c as int <= 57
}

/// The numeric value of a decimal digit character.
pub open spec fn digit_val(c: char) -> int {
    c as int - 48
}

/// The 24-hour hour named by a 12-hour hour and a meridiem: under `AM`
/// hour 12 wraps to 0; under `PM` every hour but 12 is shifted by 12.
pub open spec fn hour24(h12: int, pm: bool) -> int {
    if pm {
        if h12 == 12 {
            12
        } else {
            h12 + 12
        }
    } else {
        if h12 == 12 {
            0
        } else {
            h12
        }
    }
}

/// A valid one-digit-hour label: `H:MMAM` or `H:MMPM`.
pub open spec fn valid_time_label1(s: Seq<char>) -> bool {
    &&& s.len() == 6
    &&& is_digit(s[0])
    &&& s[1] == ':'
    &&& is_digit(s[2])
    &&& is_digit(s[3])
    &&& (s[4] == 'A' || s[4] == 'P')
    &&& s[5] == 'M'
    &&& 1 <= digit_val(s[0])
    &&& 10 * digit_val(s[2]) + digit_val(s[3]) <= 59
}

/// A valid two-digit-hour label: `HH:MMAM` or `HH:MMPM`.
pub open spec fn valid_time_label2(s: Seq<char>) -> bool {
    &&& s.len() == 7
    &&& is_digit(s[0])
    &&& is_digit(s[1])
    &&& s[2] == ':'
    &&& is_digit(s[3])
    &&& is_digit(s[4])
    &&& (s[5] == 'A' || s[5] == 'P')
    &&& s[6] == 'M'
    &&& 1 <= 10 * digit_val(s[0]) + digit_val(s[1]) <= 12
    &&& 10 * digit_val(s[3]) + digit_val(s[4]) <= 59
}

/// A token of the exact shape `H{1,2}:MM` followed by `AM` or `PM`,
/// case-sensitive, naming an hour in 1..=12 and minutes in 0..=59.
pub open spec fn valid_time_label(s: Seq<char>) -> bool {
    valid_time_label1(s) || valid_time_label2(s)
}

/// The 12-hour hour a valid label names.
pub open spec fn label_hour12(s: Seq<char>) -> int {
    if s.len() == 6 {
        digit_val(s[0])
    } else {
        10 * digit_val(s[0]) + digit_val(s[1])
    }
}

/// The minutes a valid label names.
pub open spec fn label_minutes(s: Seq<char>) -> int {
    if s.len() == 6 {
        10 * digit_val(s[2]) + digit_val(s[3])
    } else {
        10 * digit_val(s[3]) + digit_val(s[4])
    }
}

/// Whether a valid label carries the `PM` marker.
pub open spec fn label_is_pm(s: Seq<char>) -> bool {
    s[s.len() - 2] == 'P'
}

/// The time of day a valid 12-hour label names.
pub open spec fn time_of_label(s: Seq<char>) -> Time {
    Time {
        hours: hour24(label_hour12(s), label_is_pm(s)) as u8,
        minutes: label_minutes(s) as u8,
    }
}

/// The hour shown on a 12-hour clock face: 0 and 12 both show as 12.
pub open spec fn display_hour12(h: int) -> int {
    if h == 0 || h == 12 {
        12
    } else {
        h % 12
    }
}

/// The canonical 12-hour label of a time of day: zero-padded two-digit
/// hour and minutes, then `AM` below noon and `PM` from noon on.
pub open spec fn time_label(t: Time) -> Seq<char> {
    two_digits(display_hour12(t.hours as int)) + seq![':'] + two_digits(t.minutes as int) + (if t.hours
        < 12 {
        seq!['A']
    } else {
        seq!['P']
    }) + seq!['M']
}

/// The numeric value of a digit character, or nothing for any other character.
fn digit_of(c: char) -> (r: Option<u8>)
    ensures
        r is Some <==> is_digit(c),
        r is Some ==> r->Some_0 == digit_val(c),
{
    let v = c as u32;
    if 48 <= v && v <= 57 {
        Some((v - 48) as u8)
    } else {
        None
    }
}

impl Time {
    /// Wraps an already 24-hour pair.
    pub fn new(hours: u8, minutes: u8) -> (t: Time)
        requires
            hours < 24,
            minutes < 60,
        ensures
            t == (Time { hours, minutes }),
            time_wf(t),
    {
        Time { hours, minutes }
    }

    /// Parses a 12-hour label such as `9:25AM` or `12:00PM` into 24-hour form.
    pub fn parse(s: &str) -> (r: Result<Time, ParseError>)
        ensures
            r is Ok <==> valid_time_label(s@),
            r is Ok ==> r->Ok_0 == time_of_label(s@) && time_wf(r->Ok_0),
            r is Err ==> r->Err_0 == ParseError::InvalidTime,
    {
        let n = s.unicode_len();
        if n == 6 {
            let h = match digit_of(s.get_char(0)) {
                Some(v) => v,
                None => { return Err(ParseError::InvalidTime) },
            };
            if s.get_char(1) != ':' {
                return Err(ParseError::InvalidTime);
            }
            let m1 = match digit_of(s.get_char(2)) {
                Some(v) => v,
                None => { return Err(ParseError::InvalidTime) },
            };
            let m0 = match digit_of(s.get_char(3)) {
                Some(v) => v,
                None => { return Err(ParseError::InvalidTime) },
            };
            let mer = s.get_char(4);
            if !(mer == 'A' || mer == 'P') {
                return Err(ParseError::InvalidTime);
            }
            if s.get_char(5) != 'M' {
                return Err(ParseError::InvalidTime);
            }
            if h < 1 {
                return Err(ParseError::InvalidTime);
            }
            let minutes = m1 * 10 + m0;
            if minutes > 59 {
                return Err(ParseError::InvalidTime);
            }
            let hours = if mer == 'P' {
                if h == 12 {
                    12
                } else {
                    h + 12
                }
            } else {
                if h == 12 {
                    0
                } else {
                    h
                }
            };
            Ok(Time { hours, minutes })
        } else if n == 7 {
            let h1 = match digit_of(s.get_char(0)) {
                Some(v) => v,
                None => { return Err(ParseError::InvalidTime) },
            };
            let h0 = match digit_of(s.get_char(1)) {
                Some(v) => v,
                None => { return Err(ParseError::InvalidTime) },
            };
            if s.get_char(2) != ':' {
                return Err(ParseError::InvalidTime);
            }
            let m1 = match digit_of(s.get_char(3)) {
                Some(v) => v,
                None => { return Err(ParseError::InvalidTime) },
            };
            let m0 = match digit_of(s.get_char(4)) {
                Some(v) => v,
                None => { return Err(ParseError::InvalidTime) },
            };
            let mer = s.get_char(5);
            if !(mer == 'A' || mer == 'P') {
                return Err(ParseError::InvalidTime);
            }
            if s.get_char(6) != 'M' {
                return Err(ParseError::InvalidTime);
            }
            let h12 = h1 * 10 + h0;
            if h12 < 1 || h12 > 12 {
                return Err(ParseError::InvalidTime);
            }
            let m = m1 * 10 + m0;
            if m > 59 {
                return Err(ParseError::InvalidTime);
            }
            let hours = if mer == 'P' {
                if h12 == 12 {
                    12
                } else {
                    h12 + 12
                }
            } else {
                if h12 == 12 {
                    0
                } else {
                    h12
                }
            };
            Ok(Time { hours, minutes: m })
        } else {
            Err(ParseError::InvalidTime)
        }
    }

    /// Renders the canonical 12-hour label of this time of day.
    pub fn render(&self) -> (s: String)
        requires
            time_wf(*self),
        ensures
            s@ == time_label(*self),
    {
        let dh: u8 = if self.hours == 0 || self.hours == 12 {
            12
        } else {
            self.hours % 12
        };
        let mut s = two_digit_string(dh);
        s.append(":");
        let m = two_digit_string(self.minutes);
        s.append(m.as_str());
        s.append(if self.hours < 12 { "AM" } else { "PM" });
        proof {
            reveal_strlit(":");
            reveal_strlit("AM");
            reveal_strlit("PM");
            assert(s@ =~= time_label(*self));
        }
        s
    }
}

/// The index of the first occurrence of a character, or -1 when absent.
pub open spec fn find_char(s: Seq<char>, c: char) -> int
    decreases s.len(),
{
    if s.len() == 0 {
        -1
    } else if s[0] == c {
        0
    } else {
        let r = find_char(s.drop_first(), c);
        if r == -1 {
            -1
        } else {
            r + 1
        }
    }
}

/// `find_char` names the first occurrence and nothing earlier.
pub proof fn lemma_find_char(s: Seq<char>, c: char)
    ensures
        find_char(s, c) == -1 ==> forall|i: int| 0 <= i < s.len() ==> s[i] != c,
        find_char(s, c) != -1 ==> 0 <= find_char(s, c) < s.len() && s[find_char(s, c)] == c
            && forall|i: int| 0 <= i < find_char(s, c) ==> s[i] != c,
    decreases s.len(),
{
    if s.len() > 0 && s[0] != c {
        let t = s.drop_first();
        lemma_find_char(t, c);
        let f = find_char(s, c);
        if find_char(t, c) == -1 {
            assert forall|i: int| 0 <= i < s.len() implies s[i] != c by {
                if i > 0 {
                    assert(t[i - 1] == s[i]);
                }
            }
        } else {
            assert(s[f] == t[f - 1]);
            assert forall|i: int| 0 <= i < f implies s[i] != c by {
                if i > 0 {
                    assert(t[i - 1] == s[i]);
                }
            }
        }
    }
}

/// A first occurrence pins `find_char` down.
pub proof fn lemma_find_char_unique(s: Seq<char>, c: char, i: int)
    requires
        0 <= i < s.len(),
        s[i] == c,
        forall|j: int| 0 <= j < i ==> s[j] != c,
    ensures
        find_char(s, c) == i,
{
    lemma_find_char(s, c);
    let f = find_char(s, c);
    if f == -1 {
    } else if f < i {
    } else if f > i {
    }
}

/// Every digit character carries its own value back.
proof fn lemma_digit_char(d: int)
    requires
        0 <= d <= 9,
    ensures
        is_digit(digit_char(d)),
        digit_val(digit_char(d)) == d,
{
}

/// Rendering a well-formed time and parsing the label back returns the
/// same 24-hour pair; the label is always valid and seven characters long.
pub proof fn lemma_render_parse_roundtrip(t: Time)
    requires
        time_wf(t),
    ensures
        valid_time_label(time_label(t)),
        time_label(t).len() == 7,
        time_of_label(time_label(t)) == t,
{
    let s = time_label(t);
    let dh = display_hour12(t.hours as int);
    assert(1 <= dh <= 12);
    lemma_digit_char(dh / 10);
    lemma_digit_char(dh % 10);
    lemma_digit_char(t.minutes as int / 10);
    lemma_digit_char(t.minutes as int % 10);
    assert(s[0] == digit_char(dh / 10));
    assert(s[1] == digit_char(dh % 10));
    assert(s[2] == ':');
    assert(s[3] == digit_char(t.minutes as int / 10));
    assert(s[4] == digit_char(t.minutes as int % 10));
    assert(s[6] == 'M');
    assert(valid_time_label2(s));
    assert(label_hour12(s) == dh);
    assert(label_minutes(s) == t.minutes as int);
    assert(label_is_pm(s) == (t.hours >= 12));
    assert(hour24(dh, t.hours >= 12) == t.hours as int);
}

/// Each digit character is determined by its value.
proof fn lemma_char_of_digit(c: char)
    requires
        is_digit(c),
    ensures
        digit_char(digit_val(c)) == c,
{
}

/// Parsing a valid two-digit-hour label and rendering the result yields the
/// original label unchanged. (A one-digit-hour label such as `9:25AM` comes
/// back zero-padded as `09:25AM`, so only the padded shape round-trips.)
pub proof fn lemma_parse_render_roundtrip(s: Seq<char>)
    requires
        valid_time_label(s),
        s.len() == 7,
    ensures
        time_label(time_of_label(s)) == s,
{
    let t = time_of_label(s);
    let h12 = label_hour12(s);
    let pm = label_is_pm(s);
    assert(valid_time_label2(s));
    assert(1 <= h12 <= 12);
    assert(t.hours as int == hour24(h12, pm));
    assert(display_hour12(t.hours as int) == h12);
    assert(t.hours < 12 <==> !pm);
    lemma_char_of_digit(s[0]);
    lemma_char_of_digit(s[1]);
    lemma_char_of_digit(s[3]);
    lemma_char_of_digit(s[4]);
    assert(digit_val(s[0]) == h12 / 10);
    assert(digit_val(s[1]) == h12 % 10);
    assert(digit_val(s[3]) == t.minutes as int / 10);
    assert(digit_val(s[4]) == t.minutes as int % 10);
    assert(time_label(t) =~= s);
}

/// The fixed seven-symbol weekday alphabet of schedule cells.
pub open spec fn is_day_letter(c: char) -> bool {
    c == 'S' || c == 'M' || c == 'T' || c == 'W' || c == 'R' || c == 'F' || c == 'A'
}

/// The weekday index a letter encodes: 0 is Sunday, 6 is Saturday.
pub open spec fn day_of_letter(c: char) -> int {
    if c == 'S' {
        0
    } else if c == 'M' {
        1
    } else if c == 'T' {
        2
    } else if c == 'W' {
        3
    } else if c == 'R' {
        4
    } else if c == 'F' {
        5
    } else {
        6
    }
}

/// The English name of a weekday index in 0..=6.
pub open spec fn weekday_name_seq(d: int) -> Seq<char> {
    if d == 0 {
        "Sunday"@
    } else if d == 1 {
        "Monday"@
    } else if d == 2 {
        "Tuesday"@
    } else if d == 3 {
        "Wednesday"@
    } else if d == 4 {
        "Thursday"@
    } else if d == 5 {
        "Friday"@
    } else {
        "Saturday"@
    }
}

/// One weekly occurrence slot of a course: a weekday, a time range within
/// that day, and a room.
#[derive(Debug, PartialEq, Clone)]
pub struct Period {
    /// A weekday index from 0 to 6, where 0 is Sunday and 6 is Saturday.
    pub day: u8,
    pub start_time: Time,
    pub end_time: Time,
    pub room: String,
}

/// A period is well formed when its weekday index and both clock times fit.
pub open spec fn period_wf(p: Period) -> bool {
    p.day < 7 && time_wf(p.start_time) && time_wf(p.end_time)
}

/// Whether a schedule cell has the mandatory space between the day letters
/// and the time range.
pub open spec fn cell_has_two_fields(s: Seq<char>) -> bool {
    find_char(s, ' ') >= 0
}

/// The day letters of a cell: everything before the first space.
pub open spec fn cell_letters(s: Seq<char>) -> Seq<char> {
    s.take(find_char(s, ' '))
}

/// The second space-separated field of a cell; any later fields are ignored.
pub open spec fn cell_time_range(s: Seq<char>) -> Seq<char> {
    let r = s.skip(find_char(s, ' ') + 1);
    if find_char(r, ' ') == -1 {
        r
    } else {
        r.take(find_char(r, ' '))
    }
}

/// Whether a time range field carries a hyphen separating start from end.
pub open spec fn range_has_end(r: Seq<char>) -> bool {
    find_char(r, '-') >= 0
}

/// The start token of a time range: everything before the first hyphen.
pub open spec fn range_start_tok(r: Seq<char>) -> Seq<char> {
    if find_char(r, '-') == -1 {
        r
    } else {
        r.take(find_char(r, '-'))
    }
}

/// The end token of a time range: between the first hyphen and the second,
/// or the rest of the field when there is no second hyphen.
pub open spec fn range_end_tok(r: Seq<char>) -> Seq<char> {
    let rest = r.skip(find_char(r, '-') + 1);
    if find_char(rest, '-') == -1 {
        rest
    } else {
        rest.take(find_char(rest, '-'))
    }
}

/// Whether both time tokens of a cell parse as 12-hour labels.
pub open spec fn cell_times_ok(s: Seq<char>) -> bool {
    let r = cell_time_range(s);
    range_has_end(r) && valid_time_label(range_start_tok(r)) && valid_time_label(range_end_tok(r))
}

/// Whether every day letter of a cell lies in the weekday alphabet.
pub open spec fn cell_letters_ok(s: Seq<char>) -> bool {
    forall|i: int| 0 <= i < cell_letters(s).len() ==> is_day_letter(#[trigger] cell_letters(s)[i])
}

/// A schedule cell the parser accepts: two fields, valid times, and day
/// letters drawn from the alphabet. Repeated letters are allowed and kept.
pub open spec fn valid_cell(s: Seq<char>) -> bool {
    cell_has_two_fields(s) && cell_times_ok(s) && cell_letters_ok(s)
}

/// The error a rejected cell earns: missing fields are noticed first, then
/// the time tokens, and the day letters last.
pub open spec fn cell_error(s: Seq<char>) -> ParseError {
    if !cell_has_two_fields(s) {
        ParseError::MissingField
    } else if !cell_times_ok(s) {
        ParseError::InvalidTime
    } else {
        ParseError::InvalidDayLetter
    }
}

/// The position of the first occurrence of a character in a string slice.
fn find_in(s: &str, c: char) -> (r: Option<usize>)
    ensures
        r is Some <==> find_char(s@, c) >= 0,
        r is Some ==> r->Some_0 as int == find_char(s@, c) && r->Some_0 < s@.len(),
        r is None ==> find_char(s@, c) == -1,
{
    let n = s.unicode_len();
    let mut i: usize = 0;
    while i < n
        invariant
            n == s@.len(),
            i <= n,
            forall|j: int| 0 <= j < i ==> s@[j] != c,
        decreases n - i,
    {
        if s.get_char(i) == c {
            proof {
                lemma_find_char_unique(s@, c, i as int);
            }
            return Some(i);
        }
        i += 1;
    }
    proof {
        lemma_find_char(s@, c);
    }
    None
}

impl Period {
    /// Maps one weekday letter of the schedule alphabet to its index;
    /// letters outside the alphabet are rejected.
    pub fn parse_weekday_letter(day: char) -> (r: Option<u8>)
        ensures
            r is Some <==> is_day_letter(day),
            r is Some ==> r->Some_0 as int == day_of_letter(day) && r->Some_0 <= 6,
    {
        match day {
            'S' => Some(0),
            'M' => Some(1),
            'T' => Some(2),
            'W' => Some(3),
            'R' => Some(4),
            'F' => Some(5),
            'A' => Some(6),
            _ => None,
        }
    }

    /// Names a weekday index in English; indices past Saturday are rejected.
    pub fn weekday_name(day: u8) -> (r: Option<String>)
        ensures
            r is Some <==> day < 7,
            r is Some ==> r->Some_0@ == weekday_name_seq(day as int),
    {
        match day {
            0 => Some("Sunday".to_owned()),
            1 => Some("Monday".to_owned()),
            2 => Some("Tuesday".to_owned()),
            3 => Some("Wednesday".to_owned()),
            4 => Some("Thursday".to_owned()),
            5 => Some("Friday".to_owned()),
            6 => Some("Saturday".to_owned()),
            _ => None,
        }
    }

    /// Parses one schedule cell `"<dayletters> <start>-<end>"` together with
    /// a room name into one period per day letter, in the letters' order.
    /// Repeated letters yield repeated periods; no deduplication happens.
    pub fn parse_periods(value: &str, room: &str) -> (r: Result<Vec<Period>, ParseError>)
        ensures
            r is Ok <==> valid_cell(value@),
            r is Ok ==> ({
                let letters = cell_letters(value@);
                let range = cell_time_range(value@);
                &&& r->Ok_0@.len() == letters.len()
                &&& forall|i: int|
                    0 <= i < letters.len() ==> {
                        let p = #[trigger] r->Ok_0@[i];
                        &&& p.day as int == day_of_letter(letters[i])
                        &&& p.start_time == time_of_label(range_start_tok(range))
                        &&& p.end_time == time_of_label(range_end_tok(range))
                        &&& p.room@ == room@
                        &&& period_wf(p)
                    }
            }),
            r is Err ==> r->Err_0 == cell_error(value@),
    {
        let n = s_len(value);
        let sp = match find_in(value, ' ') {
            Some(i) => i,
            None => { return Err(ParseError::MissingField) },
        };
        let letters_str = value.substring_char(0, sp);
        let rest = value.substring_char(sp + 1, n);
        proof {
            assert(letters_str@ =~= cell_letters(value@));
            assert(rest@ =~= value@.skip(find_char(value@, ' ') + 1));
        }
        let time_str = match find_in(rest, ' ') {
            Some(i) => rest.substring_char(0, i),
            None => rest,
        };
        proof {
            assert(time_str@ =~= cell_time_range(value@));
        }
        let dash = match find_in(time_str, '-') {
            Some(i) => i,
            None => { return Err(ParseError::InvalidTime) },
        };
        let start_str = time_str.substring_char(0, dash);
        let after_dash = time_str.substring_char(dash + 1, s_len(time_str));
        proof {
            assert(start_str@ =~= range_start_tok(time_str@));
            assert(after_dash@ =~= time_str@.skip(find_char(time_str@, '-') + 1));
        }
        let end_str = match find_in(after_dash, '-') {
            Some(i) => after_dash.substring_char(0, i),
            None => after_dash,
        };
        proof {
            assert(end_str@ =~= range_end_tok(time_str@));
        }
        let start_time = match Time::parse(start_str) {
            Ok(t) => t,
            Err(e) => { return Err(e) },
        };
        let end_time = match Time::parse(end_str) {
            Ok(t) => t,
            Err(e) => { return Err(e) },
        };
        let letters_len = s_len(letters_str);
        let mut periods: Vec<Period> = Vec::new();
        let mut i: usize = 0;
        while i < letters_len
            invariant
                letters_len == letters_str@.len(),
                letters_str@ == cell_letters(value@),
                cell_has_two_fields(value@),
                cell_times_ok(value@),
                i <= letters_len,
                periods@.len() == i,
                time_wf(start_time),
                time_wf(end_time),
                start_time == time_of_label(range_start_tok(cell_time_range(value@))),
                end_time == time_of_label(range_end_tok(cell_time_range(value@))),
                forall|j: int|
                    0 <= j < i ==> {
                        let p = #[trigger] periods@[j];
                        &&& p.day as int == day_of_letter(letters_str@[j])
                        &&& is_day_letter(letters_str@[j])
                        &&& p.start_time == start_time
                        &&& p.end_time == end_time
                        &&& p.room@ == room@
                        &&& period_wf(p)
                    },
            decreases letters_len - i,
        {
            let c = letters_str.get_char(i);
            let day = match Self::parse_weekday_letter(c) {
                Some(d) => d,
                None => {
                    proof {
                        assert(!is_day_letter(cell_letters(value@)[i as int]));
                        assert(!cell_letters_ok(value@));
                    }
                    return Err(ParseError::InvalidDayLetter);
                },
            };
            periods.push(
                Period { day, start_time, end_time, room: room.to_owned() },
            );
            i += 1;
        }
        proof {
            assert forall|k: int|
                0 <= k < cell_letters(value@).len() implies is_day_letter(
                #[trigger] cell_letters(value@)[k],
            ) by {
                assert(periods@[k].day >= 0);
            }
        }
        Ok(periods)
    }
}

/// The character length of a string slice.
pub(crate) fn s_len(s: &str) -> (n: usize)
    ensures
        n == s@.len(),
{
    s.unicode_len()
}

} // verus!
