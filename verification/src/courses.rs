//! Raw session rows and their aggregation into courses.

use vstd::prelude::*;

use crate::errors::ParseError;
use crate::periods::Period;
use crate::periods::Time;
use crate::periods::cell_error;
use crate::periods::cell_letters;
use crate::periods::cell_time_range;
use crate::periods::day_of_letter;
use crate::periods::period_wf;
use crate::periods::range_end_tok;
use crate::periods::range_start_tok;
use crate::periods::s_len;
use crate::periods::time_of_label;
use crate::periods::valid_cell;
use vstd::string::StrSliceExecFns;

verus! {

/// One raw session row, as the upstream roster hands it over: two textual
/// flags, the compact schedule cell, and the course's naming fields.
#[derive(Debug, Clone)]
pub struct RawRecord {
    pub drop_status: String,
    pub withdraw_status: String,
    pub time_slot: String,
    pub room: String,
    pub course_code: String,
    pub section: u8,
    pub faculty: String,
}

/// One aggregated course: every period of every kept row that shares this
/// course code and section, in first-seen order.
#[derive(Debug)]
pub struct Course {
    pub course_code: String,
    pub section: u8,
    pub lecturer: String,
    pub periods: Vec<Period>,
}

/// The mathematical shadow of a period: plain values only.
#[verifier::ext_equal]
pub ghost struct PeriodModel {
    pub day: int,
    pub start_time: Time,
    pub end_time: Time,
    pub room: Seq<char>,
}

/// The mathematical shadow of a course.
#[verifier::ext_equal]
pub ghost struct CourseModel {
    pub code: Seq<char>,
    pub section: u8,
    pub lecturer: Seq<char>,
    pub periods: Seq<PeriodModel>,
}

/// Reads a period as its model.
pub open spec fn period_model(p: Period) -> PeriodModel {
    PeriodModel {
        day: p.day as int,
        start_time: p.start_time,
        end_time: p.end_time,
        room: p.room@,
    }
}

/// Reads a course as its model.
pub open spec fn course_model(c: Course) -> CourseModel {
    CourseModel {
        code: c.course_code@,
        section: c.section,
        lecturer: c.lecturer@,
        periods: c.periods@.map_values(|p: Period| period_model(p)),
    }
}

/// Reads a list of courses as its model.
pub open spec fn course_models(cs: Seq<Course>) -> Seq<CourseModel> {
    cs.map_values(|c: Course| course_model(c))
}

/// A case-insensitive match against the affirmative flag value `yes`.
pub open spec fn is_yes(s: Seq<char>) -> bool {
    &&& s.len() == 3
    &&& (s[0] == 'y' || s[0] == 'Y')
    &&& (s[1] == 'e' || s[1] == 'E')
    &&& (s[2] == 's' || s[2] == 'S')
}

/// A row is skipped when its drop flag or its withdrawal flag says yes;
/// its schedule cell is then never even parsed.
pub open spec fn record_skipped(r: RawRecord) -> bool {
    is_yes(r.drop_status@) || is_yes(r.withdraw_status@)
}

/// A row passes aggregation when it is skipped or its cell parses.
pub open spec fn record_ok(r: RawRecord) -> bool {
    record_skipped(r) || valid_cell(r.time_slot@)
}

/// The periods a kept row contributes: one per day letter of its cell.
pub open spec fn record_periods(r: RawRecord) -> Seq<PeriodModel> {
    let letters = cell_letters(r.time_slot@);
    let range = cell_time_range(r.time_slot@);
    Seq::new(
        letters.len(),
        |i: int|
            PeriodModel {
                day: day_of_letter(letters[i]),
                start_time: time_of_label(range_start_tok(range)),
                end_time: time_of_label(range_end_tok(range)),
                room: r.room@,
            },
    )
}

/// Whether a course answers to a code and section pair.
pub open spec fn course_matches(c: CourseModel, code: Seq<char>, section: u8) -> bool {
    c.code == code && c.section == section
}

/// The index of the first course answering to a code and section, or -1.
pub open spec fn find_course(cs: Seq<CourseModel>, code: Seq<char>, section: u8) -> int
    decreases cs.len(),
{
    if cs.len() == 0 {
        -1
    } else if course_matches(cs[0], code, section) {
        0
    } else {
        let r = find_course(cs.drop_first(), code, section);
        if r == -1 {
            -1
        } else {
            r + 1
        }
    }
}

/// `find_course` names the first match and nothing earlier.
pub proof fn lemma_find_course(cs: Seq<CourseModel>, code: Seq<char>, section: u8)
    ensures
        find_course(cs, code, section) == -1 ==> forall|i: int|
            0 <= i < cs.len() ==> !course_matches(#[trigger] cs[i], code, section),
        find_course(cs, code, section) != -1 ==> {
            let f = find_course(cs, code, section);
            &&& 0 <= f < cs.len()
            &&& course_matches(cs[f], code, section)
            &&& forall|i: int| 0 <= i < f ==> !course_matches(#[trigger] cs[i], code, section)
        },
    decreases cs.len(),
{
    if cs.len() > 0 && !course_matches(cs[0], code, section) {
        let t = cs.drop_first();
        lemma_find_course(t, code, section);
        let f = find_course(cs, code, section);
        if find_course(t, code, section) == -1 {
            assert forall|i: int| 0 <= i < cs.len() implies !course_matches(
                #[trigger] cs[i],
                code,
                section,
            ) by {
                if i > 0 {
                    assert(t[i - 1] == cs[i]);
                }
            }
        } else {
            assert(cs[f] == t[f - 1]);
            assert forall|i: int| 0 <= i < f implies !course_matches(
                #[trigger] cs[i],
                code,
                section,
            ) by {
                if i > 0 {
                    assert(t[i - 1] == cs[i]);
                }
            }
        }
    }
}

/// A first match pins `find_course` down.
proof fn lemma_find_course_unique(cs: Seq<CourseModel>, code: Seq<char>, section: u8, i: int)
    requires
        0 <= i < cs.len(),
        course_matches(cs[i], code, section),
        forall|j: int| 0 <= j < i ==> !course_matches(#[trigger] cs[j], code, section),
    ensures
        find_course(cs, code, section) == i,
{
    lemma_find_course(cs, code, section);
}

/// No two courses of an aggregated list share a code and section.
pub open spec fn courses_unique(cs: Seq<CourseModel>) -> bool {
    forall|i: int, j: int|
        0 <= i < j < cs.len() ==> !course_matches(#[trigger] cs[j], (#[trigger] cs[i]).code, cs[i].section)
}

/// The model a kept row adds to a list that holds no course of its pair.
pub open spec fn fresh_course(r: RawRecord) -> CourseModel {
    CourseModel {
        code: r.course_code@,
        section: r.section,
        lecturer: r.faculty@,
        periods: record_periods(r),
    }
}

/// A course with further periods appended; everything else is kept.
pub open spec fn merge_course(c: CourseModel, ps: Seq<PeriodModel>) -> CourseModel {
    CourseModel { code: c.code, section: c.section, lecturer: c.lecturer, periods: c.periods + ps }
}

/// The whole aggregation, read left to right: skipped rows vanish, a row
/// of a known (code, section) pair appends its periods to that course, and
/// any other row founds a new course at the end of the list.
pub open spec fn aggregate(rs: Seq<RawRecord>) -> Seq<CourseModel>
    decreases rs.len(),
{
    if rs.len() == 0 {
        Seq::empty()
    } else {
        let prev = aggregate(rs.drop_last());
        let r = rs.last();
        if record_skipped(r) {
            prev
        } else {
            let f = find_course(prev, r.course_code@, r.section);
            if f == -1 {
                prev.push(fresh_course(r))
            } else {
                prev.update(f, merge_course(prev[f], record_periods(r)))
            }
        }
    }
}

/// A row whose drop or withdrawal flag affirms contributes no course and
/// no period, wherever it stands among the rows and whatever its schedule
/// cell holds: aggregation with it equals aggregation without it. (It can
/// also never fail aggregation, since a skipped row's cell is not parsed.)
pub proof fn lemma_skipped_record_inert(
    before: Seq<RawRecord>,
    r: RawRecord,
    after: Seq<RawRecord>,
)
    requires
        record_skipped(r),
    ensures
        aggregate(before + seq![r] + after) == aggregate(before + after),
        record_ok(r),
    decreases after.len(),
{
    if after.len() == 0 {
        let a = before + seq![r] + after;
        assert(a.drop_last() =~= before);
        assert(a.last() == r);
        assert(before + after =~= before);
    } else {
        lemma_skipped_record_inert(before, r, after.drop_last());
        let a = before + seq![r] + after;
        assert(a.drop_last() =~= before + seq![r] + after.drop_last());
        assert(a.last() == after.last());
        let b = before + after;
        assert(b.drop_last() =~= before + after.drop_last());
        assert(b.last() == after.last());
    }
}

/// Two kept rows sharing a course code and section — however their
/// schedule cells differ — aggregate into exactly one course, whose period
/// list is the first row's periods followed by the second's, and whose
/// naming fields come from the first row.
pub proof fn lemma_merge_two_records(r1: RawRecord, r2: RawRecord)
    requires
        !record_skipped(r1),
        !record_skipped(r2),
        r1.course_code@ == r2.course_code@,
        r1.section == r2.section,
    ensures
        aggregate(seq![r1, r2]).len() == 1,
        aggregate(seq![r1, r2])[0].periods == record_periods(r1) + record_periods(r2),
        aggregate(seq![r1, r2])[0].code == r1.course_code@,
        aggregate(seq![r1, r2])[0].section == r1.section,
        aggregate(seq![r1, r2])[0].lecturer == r1.faculty@,
{
    let s = seq![r1, r2];
    assert(s.drop_last() =~= seq![r1]);
    assert(seq![r1].drop_last() =~= Seq::<RawRecord>::empty());
    assert(aggregate(Seq::<RawRecord>::empty()) == Seq::<CourseModel>::empty());
    assert(seq![r1].last() == r1);
    assert(find_course(Seq::<CourseModel>::empty(), r1.course_code@, r1.section) == -1);
    assert(aggregate(seq![r1]) == Seq::<CourseModel>::empty().push(fresh_course(r1)));
    let one = aggregate(seq![r1]);
    assert(course_matches(one[0], r2.course_code@, r2.section));
    assert(find_course(one, r2.course_code@, r2.section) == 0);
    assert(aggregate(s) == one.update(0, merge_course(one[0], record_periods(r2))));
}

/// Whether a flag string affirms, i.e. reads `yes` in any letter case.
pub fn flag_is_yes(s: &str) -> (r: bool)
    ensures
        r == is_yes(s@),
{
    let n = s_len(s);
    if n != 3 {
        return false;
    }
    let c0 = s.get_char(0);
    let c1 = s.get_char(1);
    let c2 = s.get_char(2);
    (c0 == 'y' || c0 == 'Y') && (c1 == 'e' || c1 == 'E') && (c2 == 's' || c2 == 'S')
}

/// Aggregates raw session rows into courses, in first-seen order.
/// Rows whose drop or withdrawal flag affirms are skipped whole; every
/// other row's schedule cell is parsed and its periods are appended to
/// the course of its (code, section) pair, founding it if absent. The
/// first unparseable cell of a kept row aborts with its parse error.
pub fn parse_courses(records: &Vec<RawRecord>) -> (r: Result<Vec<Course>, ParseError>)
        ensures
            r is Ok <==> (forall|i: int|
                0 <= i < records@.len() ==> record_ok(#[trigger] records@[i])),
            r is Ok ==> course_models(r->Ok_0@) == aggregate(records@) && courses_unique(
                course_models(r->Ok_0@),
            ),
            r is Err ==> (exists|i: int|
                {
                    &&& 0 <= i < records@.len()
                    &&& !record_ok(#[trigger] records@[i])
                    &&& forall|j: int| 0 <= j < i ==> record_ok(#[trigger] records@[j])
                    &&& r->Err_0 == cell_error(records@[i].time_slot@)
                }),
    {
        let ghost rs = records@;
        let n = records.len();
        let mut courses: Vec<Course> = Vec::new();
        let mut idx: usize = 0;
        while idx < n
            invariant
                n == rs.len(),
                rs == records@,
                idx <= n,
                forall|j: int| 0 <= j < idx ==> record_ok(#[trigger] rs[j]),
                course_models(courses@) == aggregate(rs.take(idx as int)),
                courses_unique(course_models(courses@)),
            decreases n - idx,
        {
            let ghost prev = course_models(courses@);
            let rec = &records[idx];
            proof {
                assert(rs.take(idx as int + 1).drop_last() =~= rs.take(idx as int));
                assert(rs.take(idx as int + 1).last() == rs[idx as int]);
            }
            if flag_is_yes(rec.drop_status.as_str()) || flag_is_yes(rec.withdraw_status.as_str()) {
                idx += 1;
                continue ;
            }
            let mut periods = match Period::parse_periods(
                rec.time_slot.as_str(),
                rec.room.as_str(),
            ) {
                Ok(ps) => ps,
                Err(e) => {
                    proof {
                        assert(!record_ok(rs[idx as int]));
                    }
                    return Err(e);
                },
            };
            proof {
                assert(periods@.map_values(|p: Period| period_model(p)) =~= record_periods(
                    rs[idx as int],
                ));
            }
            let m = courses.len();
            let mut k: usize = 0;
            let mut found: bool = false;
            while k < m && !found
                invariant
                    m == courses@.len(),
                    k <= m,
                    course_models(courses@) == prev,
                    forall|j: int|
                        0 <= j < k ==> !course_matches(
                            #[trigger] prev[j],
                            rs[idx as int].course_code@,
                            rs[idx as int].section,
                        ),
                    found ==> k < m && course_matches(
                        prev[k as int],
                        rs[idx as int].course_code@,
                        rs[idx as int].section,
                    ),
                    0 <= idx < rs.len(),
                    rs == records@,
                    *rec == rs[idx as int],
                decreases m - k + if found {
                    0int
                } else {
                    1int
                },
            {
                proof {
                    assert(prev[k as int] == course_model(courses@[k as int]));
                }
                if courses[k].course_code == rec.course_code && courses[k].section == rec.section {
                    found = true;
                } else {
                    k += 1;
                }
            }
            if found {
                proof {
                    lemma_find_course_unique(
                        prev,
                        rs[idx as int].course_code@,
                        rs[idx as int].section,
                        k as int,
                    );
                }
                let mut c = courses.remove(k);
                c.periods.append(&mut periods);
                courses.insert(k, c);
                proof {
                    assert(course_models(courses@) =~~= prev.update(
                        k as int,
                        merge_course(prev[k as int], record_periods(rs[idx as int])),
                    ));
                    assert(course_models(courses@) =~~= aggregate(rs.take(idx as int + 1)));
                }
            } else {
                proof {
                    lemma_find_course(prev, rs[idx as int].course_code@, rs[idx as int].section);
                }
                let c = Course {
                    course_code: rec.course_code.clone(),
                    section: rec.section,
                    lecturer: rec.faculty.clone(),
                    periods,
                };
                courses.push(c);
                proof {
                    assert(course_models(courses@) =~~= prev.push(fresh_course(rs[idx as int])));
                    assert(course_models(courses@) =~~= aggregate(rs.take(idx as int + 1)));
                }
            }
            idx += 1;
        }
        proof {
            assert(rs.take(n as int) =~= rs);
        }
        Ok(courses)
    }

} // verus!
