//! The files of a legacy MarkBook class folder, read from their text.
//!
//! Each reader takes the text of one file; the folder search and the file
//! reading stand in the application around this library.
use vstd::prelude::*;
use crate::lines::{
    find_section, lv, next_keep_empty, next_keep_empty_at, next_non_noise, next_non_noise_at,
    quoted_block, read_quoted_block, section_index, LegacyError,
};
use crate::num::{nat_digits, parse_i32, parse_i32_chars, parse_usize, parse_usize_chars, u64_digits};
use crate::text::{
    chars_eq_str, chars_of, contains_chars, contains_seq, lemma_split_concat, lemma_split_on_nonempty,
    lemma_split_without_sep, lemma_trim_idempotent, lower, lower_chars, lines_of, slice_range, split_chars, split_on, string_of_seq,
    strip_quotes, strip_quotes_chars, text_lines, trim, trim_chars, upper, upper_chars,
};
use vstd::string::StringExecFns;
use crate::csv::{csv_fields, csv_fields_chars};

verus! {

/// The lines of `text`, as every reader of this module sees them.
pub fn read_lines(text: &str) -> (r: Vec<Vec<char>>)
    ensures
        lv(r@) == text_lines(text@),
{
    let r = lines_of(text);
    proof {
        crate::lines::lemma_lv_lines(r@, text_lines(text@));
    }
    r
}

/// `n` values read one after another with `next_non_noise` from line `i`,
/// and the line after the last; nothing if the lines end first.
pub open spec fn non_noise_run(ls: Seq<Seq<char>>, i: int, n: nat) -> Option<
    (Seq<Seq<char>>, int),
>
    decreases n,
{
    if n == 0 {
        Some((Seq::empty(), i))
    } else {
        match non_noise_run(ls, i, (n - 1) as nat) {
            None => None,
            Some((vs, j)) => match next_non_noise(ls, j) {
                (Some(v), k) => Some((vs.push(v), k)),
                (None, _) => None,
            },
        }
    }
}

/// `n` values read one after another with `next_keep_empty` from line `i`:
/// lines `i..i + n`; nothing if the lines end first.
pub open spec fn keep_empty_run(ls: Seq<Seq<char>>, i: int, n: nat) -> Option<
    (Seq<Seq<char>>, int),
>
    decreases n,
{
    if n == 0 {
        Some((Seq::empty(), i))
    } else {
        match keep_empty_run(ls, i, (n - 1) as nat) {
            None => None,
            Some((vs, j)) => match next_keep_empty(ls, j) {
                (Some(v), k) => Some((vs.push(v), k)),
                (None, _) => None,
            },
        }
    }
}

/// The count that follows the header `[name]`: the header's absence, a
/// missing value and a value that is no count are the errors.
pub open spec fn count_after(ls: Seq<Seq<char>>, name: Seq<char>) -> Result<(nat, int), LegacyError> {
    match section_index(ls, name) {
        None => Err(LegacyError::MissingSection),
        Some(idx) => match next_non_noise(ls, idx + 1) {
            (None, _) => Err(LegacyError::MissingValue),
            (Some(v), i) => match parse_usize(trim(v)) {
                None => Err(LegacyError::BadNumber),
                Some(n) => Ok((n as nat, i)),
            },
        },
    }
}

/// `count_after` on lines.
fn read_count_after(lines: &Vec<Vec<char>>, name: &str) -> (r: Result<(usize, usize), LegacyError>)
    ensures
        match r {
            Ok((n, i)) => count_after(lv(lines@), name@) == Ok::<(nat, int), LegacyError>(
                (n as nat, i as int),
            ),
            Err(e) => count_after(lv(lines@), name@) == Err::<(nat, int), LegacyError>(e),
        },
{
    let idx = match find_section(lines, name) {
        Some(x) => x,
        None => return Err(LegacyError::MissingSection),
    };
    if idx >= lines.len() {
        return Err(LegacyError::MissingValue);
    }
    let (v, i) = next_non_noise_at(lines, idx + 1);
    match v {
        None => Err(LegacyError::MissingValue),
        Some(v) => {
            let t = trim_chars(v.as_slice());
            match parse_usize_chars(t.as_slice()) {
                None => Err(LegacyError::BadNumber),
                Some(n) => Ok((n, i)),
            }
        },
    }
}

/// The values of `non_noise_run` from line `i`, read with `read`.
fn read_non_noise_run(lines: &Vec<Vec<char>>, i: usize, n: usize) -> (r: Option<
    (Vec<Vec<char>>, usize),
>)
    ensures
        match r {
            Some((vs, j)) => {
                &&& non_noise_run(lv(lines@), i as int, n as nat) is Some
                &&& non_noise_run(lv(lines@), i as int, n as nat).unwrap().1 == j
                &&& vs@.len() == n
                &&& non_noise_run(lv(lines@), i as int, n as nat).unwrap().0.len() == n
                &&& forall|k: int|
                    0 <= k < n ==> #[trigger] vs@[k]@ == non_noise_run(
                        lv(lines@),
                        i as int,
                        n as nat,
                    ).unwrap().0[k]
            },
            None => non_noise_run(lv(lines@), i as int, n as nat) is None,
        },
{
    let ghost ls = lv(lines@);
    let mut vs: Vec<Vec<char>> = Vec::new();
    let mut j = i;
    let mut c: usize = 0;
    let ghost mut vals: Seq<Seq<char>> = Seq::empty();
    while c < n
        invariant
            ls == lv(lines@),
            c <= n,
            non_noise_run(ls, i as int, c as nat) == Some((vals, j as int)),
            vs@.len() == c == vals.len(),
            forall|k: int| 0 <= k < c ==> #[trigger] vs@[k]@ == vals[k],
        decreases n - c,
    {
        let (v, j2) = next_non_noise_at(lines, j);
        match v {
            None => {
                proof {
                    lemma_non_noise_run_none(ls, i as int, c as nat, n as nat);
                }
                return None;
            },
            Some(v) => {
                proof {
                    vals = vals.push(v@);
                }
                vs.push(v);
                j = j2;
                c += 1;
            },
        }
    }
    Some((vs, j))
}

proof fn lemma_non_noise_run_none(ls: Seq<Seq<char>>, i: int, c: nat, n: nat)
    requires
        c < n,
        non_noise_run(ls, i, (c + 1) as nat) is None,
    ensures
        non_noise_run(ls, i, n) is None,
    decreases n - c,
{
    if c + 1 < n {
        lemma_non_noise_run_none(ls, i, (c + 1) as nat, n);
    }
}

proof fn lemma_keep_empty_run_none(ls: Seq<Seq<char>>, i: int, c: nat, n: nat)
    requires
        c < n,
        keep_empty_run(ls, i, (c + 1) as nat) is None,
    ensures
        keep_empty_run(ls, i, n) is None,
    decreases n - c,
{
    if c + 1 < n {
        lemma_keep_empty_run_none(ls, i, (c + 1) as nat, n);
    }
}

/// The values of `keep_empty_run` from line `i`.
fn read_keep_empty_run(lines: &Vec<Vec<char>>, i: usize, n: usize) -> (r: Option<
    (Vec<Vec<char>>, usize),
>)
    ensures
        match r {
            Some((vs, j)) => {
                &&& keep_empty_run(lv(lines@), i as int, n as nat) is Some
                &&& keep_empty_run(lv(lines@), i as int, n as nat).unwrap().1 == j
                &&& vs@.len() == n
                &&& keep_empty_run(lv(lines@), i as int, n as nat).unwrap().0.len() == n
                &&& forall|k: int|
                    0 <= k < n ==> #[trigger] vs@[k]@ == keep_empty_run(
                        lv(lines@),
                        i as int,
                        n as nat,
                    ).unwrap().0[k]
            },
            None => keep_empty_run(lv(lines@), i as int, n as nat) is None,
        },
{
    let ghost ls = lv(lines@);
    let mut vs: Vec<Vec<char>> = Vec::new();
    let mut j = i;
    let mut c: usize = 0;
    let ghost mut vals: Seq<Seq<char>> = Seq::empty();
    while c < n
        invariant
            ls == lv(lines@),
            c <= n,
            keep_empty_run(ls, i as int, c as nat) == Some((vals, j as int)),
            vs@.len() == c == vals.len(),
            forall|k: int| 0 <= k < c ==> #[trigger] vs@[k]@ == vals[k],
        decreases n - c,
    {
        let (v, j2) = next_keep_empty_at(lines, j);
        match v {
            None => {
                proof {
                    lemma_keep_empty_run_none(ls, i as int, c as nat, n as nat);
                }
                return None;
            },
            Some(v) => {
                proof {
                    vals = vals.push(v@);
                }
                vs.push(v);
                j = j2;
                c += 1;
            },
        }
    }
    Some((vs, j))
}

// ---------------------------------------------------------------------------
// Entry types (.TYP)
// ---------------------------------------------------------------------------

/// The value of a `.TYP` entry line: its integer, or 0.
pub open spec fn typ_value(v: Seq<char>) -> i32 {
    match parse_i32(trim(v)) {
        Some(n) => n,
        None => 0,
    }
}

/// A `.TYP` file: after `[Last Entry]`, a count, then that many entry
/// types.
pub open spec fn typ_spec(ls: Seq<Seq<char>>) -> Result<Seq<i32>, LegacyError> {
    match count_after(ls, "Last Entry"@) {
        Err(e) => Err(e),
        Ok((n, i)) => match non_noise_run(ls, i, n) {
            None => Err(LegacyError::UnexpectedEof),
            Some((vs, _)) => Ok(vs.map_values(|v: Seq<char>| typ_value(v))),
        },
    }
}

/// The entry types of a `.TYP` file.
pub fn parse_legacy_typ_text(text: &str) -> (r: Result<Vec<i32>, LegacyError>)
    ensures
        match r {
            Ok(v) => typ_spec(text_lines(text@)) == Ok::<Seq<i32>, LegacyError>(v@),
            Err(e) => typ_spec(text_lines(text@)) == Err::<Seq<i32>, LegacyError>(e),
        },
{
    let lines = read_lines(text);
    let (n, i) = read_count_after(&lines, "Last Entry")?;
    let vs = match read_non_noise_run(&lines, i, n) {
        None => return Err(LegacyError::UnexpectedEof),
        Some((vs, _)) => vs,
    };
    let ghost run = non_noise_run(lv(lines@), i as int, n as nat).unwrap().0;
    let mut out: Vec<i32> = Vec::new();
    let mut k: usize = 0;
    while k < vs.len()
        invariant
            k <= vs@.len() == n == run.len(),
            forall|j: int| 0 <= j < n ==> #[trigger] vs@[j]@ == run[j],
            out@ == run.take(k as int).map_values(|v: Seq<char>| typ_value(v)),
        decreases vs@.len() - k,
    {
        let t = trim_chars(vs[k].as_slice());
        let x = match parse_i32_chars(t.as_slice()) {
            Some(x) => x,
            None => 0,
        };
        out.push(x);
        k += 1;
        assert(run.take(k as int).map_values(|v: Seq<char>| typ_value(v)) == run.take(
            k - 1,
        ).map_values(|v: Seq<char>| typ_value(v)).push(typ_value(run[k - 1])));
    }
    assert(run.take(n as int) == run);
    Ok(out)
}

// ---------------------------------------------------------------------------
// Class notes and report-card comments (NOTE.TXT, .R1 ...)
// ---------------------------------------------------------------------------

/// `n` quoted texts read one after another from line `i`.
pub open spec fn quoted_run(ls: Seq<Seq<char>>, i: int, n: nat) -> Result<
    (Seq<Seq<char>>, int),
    LegacyError,
>
    decreases n,
{
    if n == 0 {
        Ok((Seq::empty(), i))
    } else {
        match quoted_run(ls, i, (n - 1) as nat) {
            Err(e) => Err(e),
            Ok((vs, j)) => match quoted_block(ls, j) {
                Err(e) => Err(e),
                Ok((v, k)) => Ok((vs.push(v), k)),
            },
        }
    }
}

/// A file of quoted comments: after `[Comments]`, a count, then that many
/// quoted texts.
pub open spec fn comments_spec(ls: Seq<Seq<char>>) -> Result<Seq<Seq<char>>, LegacyError> {
    match count_after(ls, "Comments"@) {
        Err(e) => Err(e),
        Ok((n, i)) => match quoted_run(ls, i, n) {
            Err(e) => Err(e),
            Ok((vs, _)) => Ok(vs),
        },
    }
}

proof fn lemma_quoted_run_err(ls: Seq<Seq<char>>, i: int, c: nat, n: nat, e: LegacyError)
    requires
        c < n,
        quoted_run(ls, i, (c + 1) as nat) == Err::<(Seq<Seq<char>>, int), LegacyError>(e),
    ensures
        quoted_run(ls, i, n) == Err::<(Seq<Seq<char>>, int), LegacyError>(e),
    decreases n - c,
{
    if c + 1 < n {
        lemma_quoted_run_err(ls, i, (c + 1) as nat, n, e);
    }
}

/// The quoted comments of a `[Comments]` file.
fn read_comments(lines: &Vec<Vec<char>>) -> (r: Result<Vec<String>, LegacyError>)
    ensures
        match r {
            Ok(v) => comments_spec(lv(lines@)) is Ok && v@.len() == comments_spec(
                lv(lines@),
            ).unwrap().len() && forall|k: int|
                0 <= k < v@.len() ==> #[trigger] v@[k]@ == comments_spec(lv(lines@)).unwrap()[k],
            Err(e) => comments_spec(lv(lines@)) == Err::<Seq<Seq<char>>, LegacyError>(e),
        },
{
    let ghost ls = lv(lines@);
    let (n, i) = read_count_after(lines, "Comments")?;
    let mut out: Vec<String> = Vec::new();
    let mut j = i;
    let mut c: usize = 0;
    let ghost mut vals: Seq<Seq<char>> = Seq::empty();
    while c < n
        invariant
            ls == lv(lines@),
            count_after(ls, "Comments"@) == Ok::<(nat, int), LegacyError>((n as nat, i as int)),
            c <= n,
            quoted_run(ls, i as int, c as nat) == Ok::<(Seq<Seq<char>>, int), LegacyError>((vals, j as int)),
            out@.len() == c == vals.len(),
            forall|k: int| 0 <= k < c ==> #[trigger] out@[k]@ == vals[k],
        decreases n - c,
    {
        match read_quoted_block(lines, j) {
            Err(e) => {
                proof {
                    lemma_quoted_run_err(ls, i as int, c as nat, n as nat, e);
                }
                return Err(e);
            },
            Ok((v, j2)) => {
                proof {
                    vals = vals.push(v@);
                }
                out.push(string_of_seq(&v));
                j = j2;
                c += 1;
            },
        }
    }
    Ok(out)
}

/// The notes of a class note file, one per student.
pub fn parse_legacy_note_text(text: &str) -> (r: Result<Vec<String>, LegacyError>)
    ensures
        match r {
            Ok(v) => comments_spec(text_lines(text@)) is Ok && v@.len() == comments_spec(
                text_lines(text@),
            ).unwrap().len() && forall|k: int|
                0 <= k < v@.len() ==> #[trigger] v@[k]@ == comments_spec(text_lines(text@)).unwrap()[k],
            Err(e) => comments_spec(text_lines(text@)) == Err::<Seq<Seq<char>>, LegacyError>(e),
        },
{
    let lines = read_lines(text);
    read_comments(&lines)
}

/// A report-card comment file: the count of students and their remarks.
pub struct ParsedRCommentFile {
    pub last_student: usize,
    pub remarks: Vec<String>,
}

/// The remarks of a report-card comment file (`.R1`, `.R2` ...); the
/// student count is the number of remarks.
pub fn parse_legacy_r_comment_text(text: &str) -> (r: Result<ParsedRCommentFile, LegacyError>)
    ensures
        match r {
            Ok(f) => comments_spec(text_lines(text@)) is Ok && f.remarks@.len()
                == comments_spec(text_lines(text@)).unwrap().len() && f.last_student
                == f.remarks@.len() && forall|k: int|
                0 <= k < f.remarks@.len() ==> #[trigger] f.remarks@[k]@ == comments_spec(
                    text_lines(text@),
                ).unwrap()[k],
            Err(e) => comments_spec(text_lines(text@)) == Err::<Seq<Seq<char>>, LegacyError>(e),
        },
{
    let lines = read_lines(text);
    let remarks = read_comments(&lines)?;
    Ok(ParsedRCommentFile { last_student: remarks.len(), remarks })
}


/// The text of each string.
pub open spec fn strs(v: Seq<String>) -> Seq<Seq<char>> {
    v.map_values(|x: String| x@)
}

/// `v` with each string made of the characters of the corresponding vector.
fn strings_of(v: &Vec<Vec<char>>) -> (r: Vec<String>)
    ensures
        r@.len() == v@.len(),
        forall|k: int| 0 <= k < v@.len() ==> #[trigger] r@[k]@ == v@[k]@,
{
    let mut r: Vec<String> = Vec::new();
    let mut k: usize = 0;
    while k < v.len()
        invariant
            k <= v@.len(),
            r@.len() == k,
            forall|j: int| 0 <= j < k ==> #[trigger] r@[j]@ == v@[j]@,
        decreases v@.len() - k,
    {
        r.push(string_of_seq(&v[k]));
        k += 1;
    }
    r
}

/// `next_keep_empty`, where the end of the lines gives a blank value.
pub open spec fn keep_or_blank(ls: Seq<Seq<char>>, i: int) -> (Seq<char>, int) {
    match next_keep_empty(ls, i) {
        (Some(v), j) => (v, j),
        (None, j) => (Seq::empty(), j),
    }
}

/// `n` values read with `keep_or_blank` from line `i`.
pub open spec fn blank_run(ls: Seq<Seq<char>>, i: int, n: nat) -> (Seq<Seq<char>>, int)
    decreases n,
{
    if n == 0 {
        (Seq::empty(), i)
    } else {
        let (vs, j) = blank_run(ls, i, (n - 1) as nat);
        let (v, k) = keep_or_blank(ls, j);
        (vs.push(v), k)
    }
}

proof fn lemma_blank_run_len(ls: Seq<Seq<char>>, i: int, n: nat)
    ensures
        blank_run(ls, i, n).0.len() == n,
    decreases n,
{
    if n > 0 {
        lemma_blank_run_len(ls, i, (n - 1) as nat);
    }
}

/// `keep_or_blank` at line `i`.
fn read_keep_or_blank(lines: &Vec<Vec<char>>, i: usize) -> (r: (Vec<char>, usize))
    ensures
        keep_or_blank(lv(lines@), i as int) == (r.0@, r.1 as int),
{
    let (v, j) = next_keep_empty_at(lines, i);
    match v {
        Some(v) => (v, j),
        None => (Vec::new(), j),
    }
}

/// The strings of `blank_run` from line `i`.
fn read_blank_run(lines: &Vec<Vec<char>>, i: usize, n: usize) -> (r: (Vec<String>, usize))
    ensures
        blank_run(lv(lines@), i as int, n as nat).1 == r.1,
        strs(r.0@) == blank_run(lv(lines@), i as int, n as nat).0,
{
    let ghost ls = lv(lines@);
    let mut vs: Vec<String> = Vec::new();
    let mut j = i;
    let mut c: usize = 0;
    while c < n
        invariant
            ls == lv(lines@),
            c <= n,
            blank_run(ls, i as int, c as nat) == (strs(vs@), j as int),
        decreases n - c,
    {
        let (v, j2) = read_keep_or_blank(lines, j);
        let ghost before = vs@;
        vs.push(string_of_seq(&v));
        assert(strs(vs@) == strs(before).push(v@));
        j = j2;
        c += 1;
    }
    (vs, j)
}

// ---------------------------------------------------------------------------
// Attendance (.ATN)
// ---------------------------------------------------------------------------

/// One month of an attendance file.
pub struct ParsedAttendanceMonth {
    pub month: i32,
    pub type_of_day_codes: String,
    pub student_day_codes: Vec<String>,
}

/// An attendance file: the student count, the month the school year starts
/// in, and the twelve months.
pub struct ParsedAttendanceFile {
    pub last_student: usize,
    pub school_year_start_month: i32,
    pub months: Vec<ParsedAttendanceMonth>,
}

/// What a month of an attendance file holds.
pub struct AttendanceMonthModel {
    pub month: int,
    pub type_of_day_codes: Seq<char>,
    pub student_day_codes: Seq<Seq<char>>,
}

/// What an attendance file holds.
pub struct AttendanceModel {
    pub last_student: nat,
    pub school_year_start_month: int,
    pub months: Seq<AttendanceMonthModel>,
}

impl View for ParsedAttendanceMonth {
    type V = AttendanceMonthModel;

    open spec fn view(&self) -> AttendanceMonthModel {
        AttendanceMonthModel {
            month: self.month as int,
            type_of_day_codes: self.type_of_day_codes@,
            student_day_codes: strs(self.student_day_codes@),
        }
    }
}

impl View for ParsedAttendanceFile {
    type V = AttendanceModel;

    open spec fn view(&self) -> AttendanceModel {
        AttendanceModel {
            last_student: self.last_student as nat,
            school_year_start_month: self.school_year_start_month as int,
            months: self.months@.map_values(|m: ParsedAttendanceMonth| m@),
        }
    }
}

/// Months `m`, `m + 1` ... 12 of the attendance data from line `k`: each a
/// label, the type-of-day codes, and one line of codes per student.
pub open spec fn attendance_months(ls: Seq<Seq<char>>, k: int, m: int, n: nat) -> Option<
    Seq<AttendanceMonthModel>,
>
    decreases 13 - m,
{
    if m > 12 {
        Some(Seq::empty())
    } else {
        match next_non_noise(ls, k) {
            (None, _) => None,
            (Some(_), k1) => {
                let (types, k2) = keep_or_blank(ls, k1);
                let (codes, k3) = blank_run(ls, k2, n);
                match attendance_months(ls, k3, m + 1, n) {
                    None => None,
                    Some(rest) => Some(
                        seq![
                            AttendanceMonthModel {
                                month: m,
                                type_of_day_codes: types,
                                student_day_codes: codes,
                            },
                        ] + rest,
                    ),
                }
            },
        }
    }
}

/// An attendance file: `[LastStudent]` and its count, `[School Year
/// Starts]` and its month (9 where it is no number), and after `[Attendance
/// Data - DO NOT EDIT!!!]` the twelve months.
pub open spec fn attendance_spec(ls: Seq<Seq<char>>) -> Result<AttendanceModel, LegacyError> {
    match count_after(ls, "LastStudent"@) {
        Err(e) => Err(e),
        Ok((n, _)) => match section_index(ls, "School Year Starts"@) {
            None => Err(LegacyError::MissingSection),
            Some(si) => {
                let start = match next_non_noise(ls, si + 1) {
                    (Some(v), _) => match parse_i32(trim(v)) {
                        Some(x) => x as int,
                        None => 9,
                    },
                    (None, _) => 9,
                };
                match section_index(ls, "Attendance Data - DO NOT EDIT!!!"@) {
                    None => Err(LegacyError::MissingSection),
                    Some(di) => match attendance_months(ls, di + 1, 1, n) {
                        None => Err(LegacyError::UnexpectedEof),
                        Some(months) => Ok(
                            AttendanceModel {
                                last_student: n,
                                school_year_start_month: start,
                                months,
                            },
                        ),
                    },
                }
            },
        },
    }
}

/// The twelve months of attendance data from line `start_line`.
fn read_attendance_months(lines: &Vec<Vec<char>>, start_line: usize, n: usize) -> (r: Option<Vec<ParsedAttendanceMonth>>)
    ensures
        match r {
            Some(ms) => attendance_months(lv(lines@), start_line as int, 1, n as nat) == Some(ms@.map_values(|x: ParsedAttendanceMonth| x@)),
            None => attendance_months(lv(lines@), start_line as int, 1, n as nat) is None,
        },
{
    let ghost ls = lv(lines@);
    let mut k = start_line;
    let mut months: Vec<ParsedAttendanceMonth> = Vec::new();
    let mut m: i32 = 1;
    while m <= 12
        invariant
            ls == lv(lines@),
            1 <= m <= 13,
            months@.len() == m - 1,
            attendance_months(ls, start_line as int, 1, n as nat) is Some <==> attendance_months(
                ls,
                k as int,
                m as int,
                n as nat,
            ) is Some,
            attendance_months(ls, k as int, m as int, n as nat) is Some ==> attendance_months(
                ls,
                start_line as int,
                1,
                n as nat,
            ).unwrap() == months@.map_values(|x: ParsedAttendanceMonth| x@) + attendance_months(
                ls,
                k as int,
                m as int,
                n as nat,
            ).unwrap(),
        decreases 13 - m,
    {
        let (label, k1) = next_non_noise_at(&lines, k);
        if label.is_none() {
            return None;
        }
        let (types, k2) = read_keep_or_blank(&lines, k1);
        let (codes, k3) = read_blank_run(&lines, k2, n);
        let month = ParsedAttendanceMonth {
            month: m,
            type_of_day_codes: string_of_seq(&types),
            student_day_codes: codes,
        };
        let ghost before = months@.map_values(|x: ParsedAttendanceMonth| x@);
        let ghost mm = month@;
        months.push(month);
        proof {
            assert(months@.map_values(|x: ParsedAttendanceMonth| x@) == before.push(mm));
            let rest = attendance_months(ls, k3 as int, m + 1, n as nat);
            if rest is Some {
                assert(before + attendance_months(ls, k as int, m as int, n as nat).unwrap()
                    == before.push(mm) + rest.unwrap());
            }
        }
        k = k3;
        m += 1;
    }
    proof {
        assert(months@.map_values(|x: ParsedAttendanceMonth| x@) + Seq::<AttendanceMonthModel>::empty()
            == months@.map_values(|x: ParsedAttendanceMonth| x@));
    }
    Some(months)
}

/// The attendance file of a class.
pub fn parse_legacy_attendance_text(text: &str) -> (r: Result<ParsedAttendanceFile, LegacyError>)
    ensures
        match r {
            Ok(f) => attendance_spec(text_lines(text@)) == Ok::<AttendanceModel, LegacyError>(f@),
            Err(e) => attendance_spec(text_lines(text@)) == Err::<AttendanceModel, LegacyError>(e),
        },
{
    let lines = read_lines(text);
    let ghost ls = lv(lines@);
    let (n, _) = read_count_after(&lines, "LastStudent")?;
    let si = match find_section(&lines, "School Year Starts") {
        Some(x) => x,
        None => return Err(LegacyError::MissingSection),
    };
    let start: i32 = if si >= lines.len() {
        9
    } else {
        match next_non_noise_at(&lines, si + 1).0 {
            Some(v) => {
                let t = trim_chars(v.as_slice());
                match parse_i32_chars(t.as_slice()) {
                    Some(x) => x,
                    None => 9,
                }
            },
            None => 9,
        }
    };
    let di = match find_section(&lines, "Attendance Data - DO NOT EDIT!!!") {
        Some(x) => x,
        None => return Err(LegacyError::MissingSection),
    };
    match read_attendance_months(&lines, di + 1, n) {
        None => Err(LegacyError::UnexpectedEof),
        Some(months) => Ok(ParsedAttendanceFile { last_student: n, school_year_start_month: start, months }),
    }
}


// ---------------------------------------------------------------------------
// Numbers in comma-separated lines
// ---------------------------------------------------------------------------

/// The first `n` fields of the record `s` as `i32`s, if it has that many and
/// each of them is one.
pub open spec fn csv_i32(s: Seq<char>, n: nat) -> Option<Seq<i32>> {
    let f = csv_fields(s);
    if f.len() < n {
        None
    } else if forall|k: int| 0 <= k < n ==> #[trigger] parse_i32(trim(f[k])) is Some {
        Some(Seq::new(n, |k: int| parse_i32(trim(f[k])).unwrap()))
    } else {
        None
    }
}

/// `parse_csv_i32`.
fn parse_csv_i32(s: &[char], n: usize) -> (r: Option<Vec<i32>>)
    ensures
        match r {
            Some(v) => csv_i32(s@, n as nat) == Some(v@),
            None => csv_i32(s@, n as nat) is None,
        },
{
    let f = csv_fields_chars(s);
    let ghost fs = csv_fields(s@);
    if f.len() < n {
        return None;
    }
    let mut out: Vec<i32> = Vec::new();
    let mut k: usize = 0;
    while k < n
        invariant
            k <= n <= f@.len() == fs.len(),
            fs == csv_fields(s@),
            forall|j: int| 0 <= j < f@.len() ==> #[trigger] f@[j]@ == fs[j],
            out@.len() == k,
            forall|j: int| 0 <= j < k ==> parse_i32(trim(fs[j])) == Some(#[trigger] out@[j]),
        decreases n - k,
    {
        let t = trim_chars(f[k].as_slice());
        match parse_i32_chars(t.as_slice()) {
            None => {
                assert(parse_i32(trim(fs[k as int])) is None);
                return None;
            },
            Some(x) => out.push(x),
        }
        k += 1;
    }
    assert forall|j: int| 0 <= j < n implies #[trigger] parse_i32(trim(fs[j])) is Some by {
        assert(parse_i32(trim(fs[j])) == Some(out@[j]));
    }
    assert(out@ =~= Seq::new(n as nat, |j: int| parse_i32(trim(fs[j])).unwrap()));
    Some(out)
}

// ---------------------------------------------------------------------------
// Seating plan (.SPL)
// ---------------------------------------------------------------------------

/// A seating plan: the room's shape, which seats are blocked, and each
/// student's seat code.
pub struct ParsedSeatingFile {
    pub rows: i32,
    pub seats_per_row: i32,
    pub last_student: usize,
    pub blocked_mask: String,
    pub seat_codes: Vec<i32>,
}

/// What a seating plan holds.
pub struct SeatingModel {
    pub rows: int,
    pub seats_per_row: int,
    pub last_student: nat,
    pub blocked_mask: Seq<char>,
    pub seat_codes: Seq<i32>,
}

impl View for ParsedSeatingFile {
    type V = SeatingModel;

    open spec fn view(&self) -> SeatingModel {
        SeatingModel {
            rows: self.rows as int,
            seats_per_row: self.seats_per_row as int,
            last_student: self.last_student as nat,
            blocked_mask: self.blocked_mask@,
            seat_codes: self.seat_codes@,
        }
    }
}

/// A mask of blocked seats: each `1` stays, any other character becomes `0`.
pub open spec fn zero_one_mask(s: Seq<char>) -> Seq<char> {
    s.map_values(|c: char| if c == '1' { '1' } else { '0' })
}

/// The integer of a line, or 0.
pub open spec fn int_or_zero(v: Seq<char>) -> i32 {
    match parse_i32(trim(v)) {
        Some(x) => x,
        None => 0,
    }
}

/// A seating plan: after `[Number of Rows / Seats per Row]` a line
/// `rows,seats`; after `[LastStudent]` the student count, the blocked-seat
/// mask on the next line, then one seat code per student.
pub open spec fn seating_spec(ls: Seq<Seq<char>>) -> Result<SeatingModel, LegacyError> {
    match seating_head(ls) {
        Err(e) => Err(e),
        Ok((rs, n, j)) => {
            let (mask, j2) = keep_or_blank(ls, j);
            match non_noise_run(ls, j2, n) {
                None => Err(LegacyError::UnexpectedEof),
                Some((codes, _)) => Ok(
                    SeatingModel {
                        rows: rs[0] as int,
                        seats_per_row: rs[1] as int,
                        last_student: n,
                        blocked_mask: zero_one_mask(mask),
                        seat_codes: codes.map_values(|v: Seq<char>| int_or_zero(v)),
                    },
                ),
            }
        },
    }
}

/// The head of a seating plan: the rows and seats per row, the student
/// count, and the line after the count.
pub open spec fn seating_head(ls: Seq<Seq<char>>) -> Result<(Seq<i32>, nat, int), LegacyError> {
    match section_index(ls, "Number of Rows / Seats per Row"@) {
        None => Err(LegacyError::MissingSection),
        Some(ri) => match next_non_noise(ls, ri + 1) {
            (None, _) => Err(LegacyError::MissingValue),
            (Some(row_line), _) => match csv_i32(row_line, 2) {
                None => Err(LegacyError::BadLine),
                Some(rs) => match count_after(ls, "LastStudent"@) {
                    Err(e) => Err(e),
                    Ok((n, j)) => Ok((rs, n, j)),
                },
            },
        },
    }
}

/// `seating_head` on lines.
fn read_seating_head(lines: &Vec<Vec<char>>) -> (r: Result<(Vec<i32>, usize, usize), LegacyError>)
    ensures
        match r {
            Ok((rs, n, j)) => seating_head(lv(lines@)) == Ok::<(Seq<i32>, nat, int), LegacyError>(
                (rs@, n as nat, j as int),
            ) && rs@.len() == 2,
            Err(e) => seating_head(lv(lines@)) == Err::<(Seq<i32>, nat, int), LegacyError>(e),
        },
{
    let ri = match find_section(lines, "Number of Rows / Seats per Row") {
        Some(x) => x,
        None => return Err(LegacyError::MissingSection),
    };
    let row_line = match next_non_noise_at(lines, ri + 1).0 {
        Some(v) => v,
        None => return Err(LegacyError::MissingValue),
    };
    let rs = match parse_csv_i32(row_line.as_slice(), 2) {
        Some(v) => v,
        None => return Err(LegacyError::BadLine),
    };
    let (n, j) = read_count_after(lines, "LastStudent")?;
    Ok((rs, n, j))
}

/// `zero_one_mask` on characters.
fn zero_one_mask_chars(s: &[char]) -> (r: String)
    ensures
        r@ == zero_one_mask(s@),
{
    let mut v: Vec<char> = Vec::new();
    let mut k: usize = 0;
    while k < s.len()
        invariant
            k <= s@.len(),
            v@ == zero_one_mask(s@.take(k as int)),
        decreases s@.len() - k,
    {
        v.push(if s[k] == '1' { '1' } else { '0' });
        k += 1;
        assert(zero_one_mask(s@.take(k as int)) == zero_one_mask(s@.take(k - 1)).push(
            if s@[k - 1] == '1' { '1' } else { '0' },
        ));
    }
    assert(s@.take(s@.len() as int) == s@);
    string_of_seq(&v)
}

/// The integers of lines, each 0 where it is none.
fn ints_or_zero(vs: &Vec<Vec<char>>) -> (r: Vec<i32>)
    ensures
        r@ == vs@.map_values(|v: Vec<char>| int_or_zero(v@)),
{
    let mut out: Vec<i32> = Vec::new();
    let mut k: usize = 0;
    while k < vs.len()
        invariant
            k <= vs@.len(),
            out@ == vs@.take(k as int).map_values(|v: Vec<char>| int_or_zero(v@)),
        decreases vs@.len() - k,
    {
        let t = trim_chars(vs[k].as_slice());
        out.push(
            match parse_i32_chars(t.as_slice()) {
                Some(x) => x,
                None => 0,
            },
        );
        k += 1;
        assert(vs@.take(k as int).map_values(|v: Vec<char>| int_or_zero(v@)) == vs@.take(
            k - 1,
        ).map_values(|v: Vec<char>| int_or_zero(v@)).push(int_or_zero(vs@[k - 1]@)));
    }
    assert(vs@.take(vs@.len() as int) == vs@);
    out
}

/// The seating plan of a class.
pub fn parse_legacy_seating_text(text: &str) -> (r: Result<ParsedSeatingFile, LegacyError>)
    ensures
        match r {
            Ok(f) => seating_spec(text_lines(text@)) == Ok::<SeatingModel, LegacyError>(f@),
            Err(e) => seating_spec(text_lines(text@)) == Err::<SeatingModel, LegacyError>(e),
        },
{
    let lines = read_lines(text);
    let ghost ls = lv(lines@);
    let (rs, n, j) = read_seating_head(&lines)?;
    let (mask, j2) = read_keep_or_blank(&lines, j);
    let codes = match read_non_noise_run(&lines, j2, n) {
        Some((c, _)) => c,
        None => return Err(LegacyError::UnexpectedEof),
    };
    let seat_codes = ints_or_zero(&codes);
    proof {
        let run = non_noise_run(ls, j2 as int, n as nat).unwrap().0;
        assert(codes@.map_values(|v: Vec<char>| int_or_zero(v@)) == run.map_values(
            |v: Seq<char>| int_or_zero(v),
        ));
    }
    Ok(
        ParsedSeatingFile {
            rows: rs[0],
            seats_per_row: rs[1],
            last_student: n,
            blocked_mask: zero_one_mask_chars(mask.as_slice()),
            seat_codes,
        },
    )
}

// ---------------------------------------------------------------------------
// Remarks per entry (.RMK)
// ---------------------------------------------------------------------------

/// The remarks file of a mark set: for each entry its title and one remark
/// per student (the leading class-wide line left out).
pub struct ParsedRmkFile {
    pub last_student: usize,
    pub last_entry: usize,
    pub entry_titles: Vec<String>,
    pub remarks_by_entry: Vec<Vec<String>>,
}

/// What a remarks file holds.
pub struct RmkModel {
    pub last_student: nat,
    pub last_entry: nat,
    pub entry_titles: Seq<Seq<char>>,
    pub remarks_by_entry: Seq<Seq<Seq<char>>>,
}

impl View for ParsedRmkFile {
    type V = RmkModel;

    open spec fn view(&self) -> RmkModel {
        RmkModel {
            last_student: self.last_student as nat,
            last_entry: self.last_entry as nat,
            entry_titles: strs(self.entry_titles@),
            remarks_by_entry: self.remarks_by_entry@.map_values(|v: Vec<String>| strs(v@)),
        }
    }
}

/// The unsigned integer of a field, or 0.
pub open spec fn usize_or_zero(v: Seq<char>) -> nat {
    match parse_usize(trim(v)) {
        Some(x) => x as nat,
        None => 0,
    }
}

/// Entries `e..total` of a remarks file from line `i`: a title, then one
/// line per student plus the leading class-wide line, which is dropped.
pub open spec fn rmk_entries(ls: Seq<Seq<char>>, i: int, e: nat, total: nat, n: nat) -> Option<
    (Seq<Seq<char>>, Seq<Seq<Seq<char>>>),
>
    decreases total - e,
{
    if e >= total {
        Some((Seq::empty(), Seq::empty()))
    } else {
        match next_non_noise(ls, i) {
            (None, _) => None,
            (Some(title), i1) => match keep_empty_run(ls, i1, n + 1) {
                None => None,
                Some((rems, i2)) => match rmk_entries(ls, i2, e + 1, total, n) {
                    None => None,
                    Some((ts, rs)) => Some((seq![title] + ts, seq![rems.drop_first()] + rs)),
                },
            },
        }
    }
}

/// A remarks file: after `[LastStudent - Last Entry]` a line
/// `students,entries`, then the entries.
pub open spec fn rmk_spec(ls: Seq<Seq<char>>) -> Result<RmkModel, LegacyError> {
    match section_index(ls, "LastStudent - Last Entry"@) {
        None => Err(LegacyError::MissingSection),
        Some(idx) => match next_non_noise(ls, idx + 1) {
            (None, _) => Err(LegacyError::MissingValue),
            (Some(line), i) => {
                let parts = split_on(line, ',');
                if parts.len() < 2 {
                    Err(LegacyError::BadLine)
                } else {
                    let n = usize_or_zero(parts[0]);
                    let total = usize_or_zero(parts[1]);
                    match rmk_entries(ls, i, 0, total, n) {
                        None => Err(LegacyError::UnexpectedEof),
                        Some((ts, rs)) => Ok(
                            RmkModel {
                                last_student: n,
                                last_entry: total,
                                entry_titles: ts,
                                remarks_by_entry: rs,
                            },
                        ),
                    }
                }
            },
        },
    }
}

/// `usize_or_zero` on characters.
fn usize_or_zero_chars(v: &[char]) -> (r: usize)
    ensures
        r == usize_or_zero(v@),
{
    let t = trim_chars(v);
    match parse_usize_chars(t.as_slice()) {
        Some(x) => x,
        None => 0,
    }
}

/// The remarks of one entry: the class-wide line, then `n` student lines.
fn read_entry_remarks(lines: &Vec<Vec<char>>, i: usize, n: usize) -> (r: Option<(Vec<String>, usize)>)
    ensures
        match r {
            Some((rs, j)) => keep_empty_run(lv(lines@), i as int, (n + 1) as nat) matches Some(
                (vals, k),
            ) && k == j && strs(rs@) == vals.drop_first(),
            None => keep_empty_run(lv(lines@), i as int, (n + 1) as nat) is None,
        },
{
    let ghost ls = lv(lines@);
    let (first, mut j) = next_keep_empty_at(lines, i);
    assert(keep_empty_run(ls, i as int, 0) == Some((Seq::<Seq<char>>::empty(), i as int)));
    if first.is_none() {
        proof {
            lemma_keep_empty_run_none(ls, i as int, 0, (n + 1) as nat);
        }
        return None;
    }
    let ghost mut vals: Seq<Seq<char>> = seq![first.unwrap()@];
    assert(Seq::<Seq<char>>::empty().push(first.unwrap()@) == vals);
    assert(keep_empty_run(ls, i as int, 1) == Some((vals, j as int)));
    let mut rs: Vec<String> = Vec::new();
    let mut c: usize = 0;
    while c < n
        invariant
            ls == lv(lines@),
            c <= n,
            keep_empty_run(ls, i as int, (c + 1) as nat) == Some((vals, j as int)),
            vals.len() == c + 1,
            strs(rs@) == vals.drop_first(),
        decreases n - c,
    {
        let (v, j2) = next_keep_empty_at(lines, j);
        match v {
            None => {
                proof {
                    lemma_keep_empty_run_none(ls, i as int, (c + 1) as nat, (n + 1) as nat);
                }
                return None;
            },
            Some(v) => {
                let ghost before = strs(rs@);
                proof {
                    vals = vals.push(v@);
                }
                rs.push(string_of_seq(&v));
                assert(strs(rs@) == before.push(v@));
                assert(vals.drop_first() == before.push(v@));
                j = j2;
                c += 1;
            },
        }
    }
    Some((rs, j))
}

/// The entries of a remarks file from line `i`.
fn read_rmk_entries(lines: &Vec<Vec<char>>, i: usize, total: usize, n: usize) -> (r: Option<(Vec<String>, Vec<Vec<String>>)>)
    ensures
        match r {
            Some((ts, rs)) => rmk_entries(lv(lines@), i as int, 0, total as nat, n as nat) == Some(
                (strs(ts@), rs@.map_values(|v: Vec<String>| strs(v@))),
            ),
            None => rmk_entries(lv(lines@), i as int, 0, total as nat, n as nat) is None,
        },
{
    let ghost ls = lv(lines@);
    let mut titles: Vec<String> = Vec::new();
    let mut remarks: Vec<Vec<String>> = Vec::new();
    let mut j = i;
    let mut e: usize = 0;
    while e < total
        invariant
            ls == lv(lines@),
            e <= total,
            rmk_entries(ls, i as int, 0, total as nat, n as nat) is Some <==> rmk_entries(
                ls,
                j as int,
                e as nat,
                total as nat,
                n as nat,
            ) is Some,
            rmk_entries(ls, j as int, e as nat, total as nat, n as nat) is Some ==> ({
                let whole = rmk_entries(ls, i as int, 0, total as nat, n as nat).unwrap();
                let rest = rmk_entries(ls, j as int, e as nat, total as nat, n as nat).unwrap();
                &&& whole.0 == strs(titles@) + rest.0
                &&& whole.1 == remarks@.map_values(|v: Vec<String>| strs(v@)) + rest.1
            }),
        decreases total - e,
    {
        let (title, i1) = next_non_noise_at(&lines, j);
        let title = match title {
            Some(t) => t,
            None => return None,
        };
        let (rems, i2) = match read_entry_remarks(&lines, i1, n) {
            Some(x) => x,
            None => return None,
        };
        let ghost t0 = strs(titles@);
        let ghost r0 = remarks@.map_values(|v: Vec<String>| strs(v@));
        let ghost rv = strs(rems@);
        titles.push(string_of_seq(&title));
        remarks.push(rems);
        proof {
            assert(strs(titles@) == t0.push(title@));
            assert(remarks@.map_values(|v: Vec<String>| strs(v@)) == r0.push(rv));
            let rest = rmk_entries(ls, i2 as int, (e + 1) as nat, total as nat, n as nat);
            if rest is Some {
                assert(t0 + (seq![title@] + rest.unwrap().0) == t0.push(title@) + rest.unwrap().0);
                assert(r0 + (seq![rv] + rest.unwrap().1) == r0.push(rv) + rest.unwrap().1);
            }
        }
        j = i2;
        e += 1;
    }
    proof {
        assert(strs(titles@) + Seq::<Seq<char>>::empty() == strs(titles@));
        assert(remarks@.map_values(|v: Vec<String>| strs(v@)) + Seq::<Seq<Seq<char>>>::empty()
            == remarks@.map_values(|v: Vec<String>| strs(v@)));
    }
    Some((titles, remarks))
}

/// The remarks file of a mark set.
pub fn parse_legacy_rmk_text(text: &str) -> (r: Result<ParsedRmkFile, LegacyError>)
    ensures
        match r {
            Ok(f) => rmk_spec(text_lines(text@)) == Ok::<RmkModel, LegacyError>(f@),
            Err(e) => rmk_spec(text_lines(text@)) == Err::<RmkModel, LegacyError>(e),
        },
{
    let lines = read_lines(text);
    let ghost ls = lv(lines@);
    let idx = match find_section(&lines, "LastStudent - Last Entry") {
        Some(x) => x,
        None => return Err(LegacyError::MissingSection),
    };
    let (line, i) = next_non_noise_at(&lines, idx + 1);
    let line = match line {
        Some(v) => v,
        None => return Err(LegacyError::MissingValue),
    };
    let parts = split_chars(line.as_slice(), ',');
    if parts.len() < 2 {
        return Err(LegacyError::BadLine);
    }
    let n = usize_or_zero_chars(parts[0].as_slice());
    let total = usize_or_zero_chars(parts[1].as_slice());
    match read_rmk_entries(&lines, i, total, n) {
        None => Err(LegacyError::UnexpectedEof),
        Some((titles, remarks)) => Ok(
            ParsedRmkFile { last_student: n, last_entry: total, entry_titles: titles, remarks_by_entry: remarks },
        ),
    }
}


// ---------------------------------------------------------------------------
// Class list (CL*.Yxx)
// ---------------------------------------------------------------------------

/// A mark set as the class file lists it. `weight` is the weight as the
/// file writes it; it is read as a number where it is used.
pub struct ParsedMarkSetDef {
    pub file_prefix: String,
    pub code: String,
    pub description: String,
    pub weight: String,
    pub sort_order: usize,
}

/// A student as the class file lists them.
pub struct ParsedStudent {
    pub active: bool,
    pub last_name: String,
    pub first_name: String,
    pub student_no: Option<String>,
    pub birth_date: Option<String>,
    pub mark_set_mask: Option<String>,
    pub raw_line: String,
}

/// A class file: the class name, its mark sets and its students.
pub struct ParsedCl {
    pub class_name: String,
    pub mark_sets: Vec<ParsedMarkSetDef>,
    pub students: Vec<ParsedStudent>,
}

pub struct MarkSetDefModel {
    pub file_prefix: Seq<char>,
    pub code: Seq<char>,
    pub description: Seq<char>,
    pub weight: Seq<char>,
    pub sort_order: nat,
}

pub struct StudentModel {
    pub active: bool,
    pub last_name: Seq<char>,
    pub first_name: Seq<char>,
    pub student_no: Option<Seq<char>>,
    pub birth_date: Option<Seq<char>>,
    pub mark_set_mask: Option<Seq<char>>,
    pub raw_line: Seq<char>,
}

pub struct ClModel {
    pub class_name: Seq<char>,
    pub mark_sets: Seq<MarkSetDefModel>,
    pub students: Seq<StudentModel>,
}

/// The text of an optional string.
pub open spec fn opt_str(o: Option<String>) -> Option<Seq<char>> {
    match o {
        Some(s) => Some(s@),
        None => None,
    }
}

impl View for ParsedMarkSetDef {
    type V = MarkSetDefModel;

    open spec fn view(&self) -> MarkSetDefModel {
        MarkSetDefModel {
            file_prefix: self.file_prefix@,
            code: self.code@,
            description: self.description@,
            weight: self.weight@,
            sort_order: self.sort_order as nat,
        }
    }
}

impl View for ParsedStudent {
    type V = StudentModel;

    open spec fn view(&self) -> StudentModel {
        StudentModel {
            active: self.active,
            last_name: self.last_name@,
            first_name: self.first_name@,
            student_no: opt_str(self.student_no),
            birth_date: opt_str(self.birth_date),
            mark_set_mask: opt_str(self.mark_set_mask),
            raw_line: self.raw_line@,
        }
    }
}

impl View for ParsedCl {
    type V = ClModel;

    open spec fn view(&self) -> ClModel {
        ClModel {
            class_name: self.class_name@,
            mark_sets: self.mark_sets@.map_values(|m: ParsedMarkSetDef| m@),
            students: self.students@.map_values(|x: ParsedStudent| x@),
        }
    }
}

/// The pieces of `s` between commas, each trimmed.
pub open spec fn trimmed_parts(s: Seq<char>) -> Seq<Seq<char>> {
    split_on(s, ',').map_values(|p: Seq<char>| trim(p))
}

/// A membership mask token: `TBA` in any case, or a non-empty run of `0`
/// and `1`, upper-cased; anything else is no mask.
pub open spec fn mask_token(token: Seq<char>) -> Option<Seq<char>> {
    let t = trim(token);
    let up = upper(t);
    if t.len() == 0 {
        None
    } else if up == seq!['T', 'B', 'A'] {
        Some(up)
    } else if forall|i: int| 0 <= i < up.len() ==> (#[trigger] up[i] == '0' || up[i] == '1') {
        Some(up)
    } else {
        None
    }
}

/// A student line `active,last,first,...`: at least four fields; the
/// student number is field 4 and the birth date field 9 where they are not
/// blank; the membership mask is the last field. A first field that is no
/// integer counts as active.
pub open spec fn student_line(line: Seq<char>) -> Option<StudentModel> {
    let parts = trimmed_parts(line);
    if parts.len() < 4 {
        None
    } else {
        Some(
            StudentModel {
                active: match parse_i32(trim(parts[0])) {
                    Some(x) => x != 0,
                    None => true,
                },
                last_name: parts[1],
                first_name: parts[2],
                student_no: if parts.len() > 4 && parts[4].len() > 0 {
                    Some(parts[4])
                } else {
                    None
                },
                birth_date: if parts.len() > 9 && parts[9].len() > 0 {
                    Some(parts[9])
                } else {
                    None
                },
                mark_set_mask: mask_token(parts.last()),
                raw_line: trim(line),
            },
        )
    }
}

/// A mark set line `prefix&code,description,weight`: at least three fields;
/// without `&` the prefix and the code are both the first field.
pub open spec fn mark_set_line(line: Seq<char>, sort_order: nat) -> Option<MarkSetDefModel> {
    let parts = trimmed_parts(line);
    if parts.len() < 3 {
        None
    } else {
        let id = trim(parts[0]);
        let pieces = split_on(id, '&');
        let (prefix, code) = if pieces.len() >= 2 {
            (trim(pieces[0]), trim(id.skip(pieces[0].len() as int + 1)))
        } else {
            (id, id)
        };
        Some(
            MarkSetDefModel {
                file_prefix: prefix,
                code,
                description: trim(parts[1]),
                weight: trim(parts[2]),
                sort_order,
            },
        )
    }
}

/// The pieces of `s` between commas, each trimmed.
pub fn trimmed_parts_chars(s: &[char]) -> (r: Vec<Vec<char>>)
    ensures
        r@.len() == trimmed_parts(s@).len(),
        forall|k: int| 0 <= k < r@.len() ==> #[trigger] r@[k]@ == trimmed_parts(s@)[k],
{
    let ps = split_chars(s, ',');
    let mut out: Vec<Vec<char>> = Vec::new();
    let mut k: usize = 0;
    while k < ps.len()
        invariant
            k <= ps@.len() == split_on(s@, ',').len(),
            forall|j: int| 0 <= j < ps@.len() ==> #[trigger] ps@[j]@ == split_on(s@, ',')[j],
            out@.len() == k,
            forall|j: int| 0 <= j < k ==> #[trigger] out@[j]@ == trim(split_on(s@, ',')[j]),
        decreases ps@.len() - k,
    {
        out.push(trim_chars(ps[k].as_slice()));
        k += 1;
    }
    out
}

/// `mask_token` on characters.
fn parse_mark_set_mask_token(token: &[char]) -> (r: Option<Vec<char>>)
    ensures
        match r {
            Some(v) => mask_token(token@) == Some(v@),
            None => mask_token(token@) is None,
        },
{
    let t = trim_chars(token);
    if t.len() == 0 {
        return None;
    }
    let up = upper_chars(t.as_slice());
    proof {
        reveal_strlit("TBA");
        assert("TBA"@ == seq!['T', 'B', 'A']);
    }
    if chars_eq_str(up.as_slice(), "TBA") {
        return Some(up);
    }
    let mut k: usize = 0;
    while k < up.len()
        invariant
            k <= up@.len(),
            up@ == upper(trim(token@)),
            trim(token@).len() > 0,
            up@ != seq!['T', 'B', 'A'],
            forall|i: int| 0 <= i < k ==> (#[trigger] up@[i] == '0' || up@[i] == '1'),
        decreases up@.len() - k,
    {
        if up[k] != '0' && up[k] != '1' {
            assert(!(up@[k as int] == '0' || up@[k as int] == '1'));
            return None;
        }
        k += 1;
    }
    Some(up)
}

/// The first field that is not blank, at index `k`, as an optional string.
fn non_blank_field(parts: &Vec<Vec<char>>, k: usize) -> (r: Option<String>)
    ensures
        opt_str(r) == (if k < parts@.len() && parts@[k as int]@.len() > 0 {
            Some(parts@[k as int]@)
        } else {
            None::<Seq<char>>
        }),
{
    if k < parts.len() && parts[k].len() > 0 {
        Some(string_of_seq(&parts[k]))
    } else {
        None
    }
}

/// `student_line` on characters.
fn parse_student_line(line: &[char]) -> (r: Option<ParsedStudent>)
    ensures
        match r {
            Some(st) => student_line(line@) == Some(st@),
            None => student_line(line@) is None,
        },
{
    let parts = trimmed_parts_chars(line);
    if parts.len() < 4 {
        return None;
    }
    let t0 = trim_chars(parts[0].as_slice());
    let active = match parse_i32_chars(t0.as_slice()) {
        Some(x) => x != 0,
        None => true,
    };
    let mask = match parse_mark_set_mask_token(parts[parts.len() - 1].as_slice()) {
        Some(v) => Some(string_of_seq(&v)),
        None => None,
    };
    let raw = trim_chars(line);
    let st = ParsedStudent {
        active,
        last_name: string_of_seq(&parts[1]),
        first_name: string_of_seq(&parts[2]),
        student_no: non_blank_field(&parts, 4),
        birth_date: non_blank_field(&parts, 9),
        mark_set_mask: mask,
        raw_line: string_of_seq(&raw),
    };
    assert(parts@[parts@.len() - 1]@ == trimmed_parts(line@).last());
    Some(st)
}

/// `mark_set_line` on characters.
fn parse_mark_set_def(line: &[char], sort_order: usize) -> (r: Option<ParsedMarkSetDef>)
    ensures
        match r {
            Some(d) => mark_set_line(line@, sort_order as nat) == Some(d@),
            None => mark_set_line(line@, sort_order as nat) is None,
        },
{
    let parts = trimmed_parts_chars(line);
    if parts.len() < 3 {
        return None;
    }
    let id = trim_chars(parts[0].as_slice());
    let pieces = split_chars(id.as_slice(), '&');
    let (prefix, code) = if pieces.len() >= 2 {
        proof {
            lemma_split_first_piece(id@, '&');
            assert(pieces@[0]@ == split_on(id@, '&')[0]);
        }
        assert(pieces[0].len() < id.len());
        let rest = slice_range(id.as_slice(), pieces[0].len() + 1, id.len());
        assert(rest@ == id@.skip(pieces@[0]@.len() as int + 1));
        (trim_chars(pieces[0].as_slice()), trim_chars(rest.as_slice()))
    } else {
        (slice_range(id.as_slice(), 0, id.len()), slice_range(id.as_slice(), 0, id.len()))
    };
    assert(id@.subrange(0, id@.len() as int) == id@);
    let desc = trim_chars(parts[1].as_slice());
    let weight = trim_chars(parts[2].as_slice());
    Some(
        ParsedMarkSetDef {
            file_prefix: string_of_seq(&prefix),
            code: string_of_seq(&code),
            description: string_of_seq(&desc),
            weight: string_of_seq(&weight),
            sort_order,
        },
    )
}

/// Where `s` holds the separator, its first piece ends right before the
/// first separator.
pub proof fn lemma_split_first_piece(s: Seq<char>, sep: char)
    ensures
        split_on(s, sep).len() >= 1,
        split_on(s, sep).len() == 1 ==> split_on(s, sep)[0] == s,
        split_on(s, sep).len() >= 2 ==> split_on(s, sep)[0].len() < s.len() && s[split_on(
            s,
            sep,
        )[0].len() as int] == sep,
        split_on(s, sep)[0] == s.take(split_on(s, sep)[0].len() as int),
    decreases s.len(),
{
    lemma_split_on_nonempty(s, sep);
    if s.len() == 0 {
        assert(s.take(0) == s);
    } else {
        let p = s.drop_last();
        lemma_split_first_piece(p, sep);
        lemma_split_on_nonempty(p, sep);
        let r = split_on(p, sep);
        assert(p.take(r[0].len() as int) == s.take(r[0].len() as int));
        if s.last() == sep {
        } else if r.len() == 1 {
            assert(r[0].push(s.last()) == s);
            assert(s.take(s.len() as int) == s);
        }
    }
}


/// `s` without the leading characters `c`.
pub open spec fn strip_leading(s: Seq<char>, c: char) -> Seq<char>
    decreases s.len(),
{
    if s.len() > 0 && s[0] == c {
        strip_leading(s.drop_first(), c)
    } else {
        s
    }
}

/// `s` without the trailing characters `c`.
pub open spec fn strip_trailing(s: Seq<char>, c: char) -> Seq<char>
    decreases s.len(),
{
    if s.len() > 0 && s.last() == c {
        strip_trailing(s.drop_last(), c)
    } else {
        s
    }
}

fn strip_leading_chars(s: &[char], c: char) -> (r: Vec<char>)
    ensures
        r@ == strip_leading(s@, c),
{
    let n = s.len();
    let mut lo: usize = 0;
    assert(s@.subrange(0, n as int) == s@);
    while lo < n && s[lo] == c
        invariant
            lo <= n == s@.len(),
            strip_leading(s@, c) == strip_leading(s@.subrange(lo as int, n as int), c),
        decreases n - lo,
    {
        assert(s@.subrange(lo as int, n as int).drop_first() == s@.subrange(lo + 1, n as int));
        lo += 1;
    }
    slice_range(s, lo, n)
}

fn strip_trailing_chars(s: &[char], c: char) -> (r: Vec<char>)
    ensures
        r@ == strip_trailing(s@, c),
{
    let mut hi = s.len();
    assert(s@.subrange(0, hi as int) == s@);
    while hi > 0 && s[hi - 1] == c
        invariant
            hi <= s@.len(),
            strip_trailing(s@, c) == strip_trailing(s@.subrange(0, hi as int), c),
        decreases hi,
    {
        assert(s@.subrange(0, hi as int).drop_last() == s@.subrange(0, hi - 1));
        hi -= 1;
    }
    slice_range(s, 0, hi)
}

/// The name of a `[Section]` header line (already trimmed), without all
/// its leading `[` and trailing `]`.
pub open spec fn header_name(t: Seq<char>) -> Option<Seq<char>> {
    if t.len() >= 2 && t[0] == '[' && t.last() == ']' {
        Some(strip_trailing(strip_leading(t, '['), ']'))
    } else {
        None
    }
}

/// What the class file reader knows after some lines.
pub struct ClState {
    pub section: Option<Seq<char>>,
    pub general: Seq<Seq<char>>,
    pub expected_mark_sets: Option<nat>,
    pub mark_sets: Seq<MarkSetDefModel>,
    pub expected_students: Option<nat>,
    pub students: Seq<StudentModel>,
}

pub open spec fn cl_start() -> ClState {
    ClState {
        section: None,
        general: Seq::empty(),
        expected_mark_sets: None,
        mark_sets: Seq::empty(),
        expected_students: None,
        students: Seq::empty(),
    }
}

/// A line of `[Mark Sets created for this class]`: first the count, then up
/// to that many mark set lines.
pub open spec fn cl_mark_set_step(st: ClState, t: Seq<char>) -> ClState {
    match st.expected_mark_sets {
        None => match parse_usize(trim(strip_quotes(t))) {
            Some(n) => ClState { expected_mark_sets: Some(n as nat), ..st },
            None => st,
        },
        Some(n) => {
            let v = strip_quotes(t);
            if st.mark_sets.len() >= n || v.len() == 0 {
                st
            } else {
                match mark_set_line(v, st.mark_sets.len()) {
                    Some(d) => ClState { mark_sets: st.mark_sets.push(d), ..st },
                    None => st,
                }
            }
        },
    }
}

/// A line of `[Class List]`: first the count, then up to that many student
/// lines; a line `""` is no student.
pub open spec fn cl_student_step(st: ClState, raw: Seq<char>, t: Seq<char>) -> ClState {
    match st.expected_students {
        None => match parse_usize(trim(strip_quotes(t))) {
            Some(n) => ClState { expected_students: Some(n as nat), ..st },
            None => st,
        },
        Some(n) => {
            if st.students.len() >= n || t == seq!['"', '"'] {
                st
            } else {
                match student_line(raw) {
                    Some(x) => ClState { students: st.students.push(x), ..st },
                    None => st,
                }
            }
        },
    }
}

/// One line of a class file. Blank lines change nothing; a header line
/// opens its section; in `[General Information]` each value that is not
/// blank is kept.
pub open spec fn cl_step(st: ClState, raw: Seq<char>) -> ClState {
    let t = trim(raw);
    if t.len() == 0 {
        st
    } else {
        match header_name(t) {
            Some(name) => ClState { section: Some(name), ..st },
            None => {
                if st.section == Some("Mark Sets created for this class"@) {
                    cl_mark_set_step(st, t)
                } else if st.section == Some("General Information"@) {
                    let v = strip_quotes(t);
                    if v.len() > 0 {
                        ClState { general: st.general.push(v), ..st }
                    } else {
                        st
                    }
                } else if st.section == Some("Class List"@) {
                    cl_student_step(st, raw, t)
                } else {
                    st
                }
            },
        }
    }
}

/// The reader's state after the first `k` lines.
pub open spec fn cl_fold(ls: Seq<Seq<char>>, k: nat) -> ClState
    decreases k,
{
    if k == 0 || k > ls.len() {
        cl_start()
    } else {
        cl_step(cl_fold(ls, (k - 1) as nat), ls[k - 1])
    }
}

/// A class file: its mark sets and students, and as class name the third
/// general-information value (`Imported Class` where there is none).
pub open spec fn cl_spec(ls: Seq<Seq<char>>) -> ClModel {
    let st = cl_fold(ls, ls.len());
    ClModel {
        class_name: if st.general.len() > 2 {
            st.general[2]
        } else {
            "Imported Class"@
        },
        mark_sets: st.mark_sets,
        students: st.students,
    }
}

/// The class-file reader's state, held as values.
struct ClReader {
    section: Option<Vec<char>>,
    general: Vec<Vec<char>>,
    expected_mark_sets: Option<usize>,
    mark_sets: Vec<ParsedMarkSetDef>,
    expected_students: Option<usize>,
    students: Vec<ParsedStudent>,
}

impl View for ClReader {
    type V = ClState;

    closed spec fn view(&self) -> ClState {
        ClState {
            section: match self.section {
                Some(v) => Some(v@),
                None => None,
            },
            general: lv(self.general@),
            expected_mark_sets: match self.expected_mark_sets {
                Some(n) => Some(n as nat),
                None => None,
            },
            mark_sets: self.mark_sets@.map_values(|m: ParsedMarkSetDef| m@),
            expected_students: match self.expected_students {
                Some(n) => Some(n as nat),
                None => None,
            },
            students: self.students@.map_values(|x: ParsedStudent| x@),
        }
    }
}

/// Whether the open section is `name`.
fn section_is(section: &Option<Vec<char>>, name: &str) -> (r: bool)
    ensures
        r == (match section {
            Some(v) => Some(v@),
            None => None::<Seq<char>>,
        } == Some(name@)),
{
    match section {
        Some(v) => chars_eq_str(v.as_slice(), name),
        None => false,
    }
}

impl ClReader {
    fn mark_set_step(&mut self, t: &[char])
        ensures
            final(self)@ == cl_mark_set_step(old(self)@, t@),
    {
        match self.expected_mark_sets {
            None => {
                let v = strip_quotes_chars(t);
                let tv = trim_chars(v.as_slice());
                if let Some(n) = parse_usize_chars(tv.as_slice()) {
                    self.expected_mark_sets = Some(n);
                }
            },
            Some(n) => {
                let v = strip_quotes_chars(t);
                if self.mark_sets.len() >= n || v.len() == 0 {
                    return;
                }
                if let Some(d) = parse_mark_set_def(v.as_slice(), self.mark_sets.len()) {
                    let ghost before = self.mark_sets@.map_values(|m: ParsedMarkSetDef| m@);
                    let ghost dv = d@;
                    self.mark_sets.push(d);
                    assert(self.mark_sets@.map_values(|m: ParsedMarkSetDef| m@) == before.push(dv));
                }
            },
        }
    }

    fn student_step(&mut self, raw: &[char], t: &[char])
        requires
            t@ == trim(raw@),
        ensures
            final(self)@ == cl_student_step(old(self)@, raw@, t@),
    {
        match self.expected_students {
            None => {
                let v = strip_quotes_chars(t);
                let tv = trim_chars(v.as_slice());
                if let Some(n) = parse_usize_chars(tv.as_slice()) {
                    self.expected_students = Some(n);
                }
            },
            Some(n) => {
                proof {
                    reveal_strlit("\"\"");
                    assert("\"\""@ == seq!['"', '"']);
                }
                if self.students.len() >= n || chars_eq_str(t, "\"\"") {
                    return;
                }
                if let Some(x) = parse_student_line(raw) {
                    let ghost before = self.students@.map_values(|y: ParsedStudent| y@);
                    let ghost xv = x@;
                    self.students.push(x);
                    assert(self.students@.map_values(|y: ParsedStudent| y@) == before.push(xv));
                }
            },
        }
    }

    fn step(&mut self, raw: &[char])
        ensures
            final(self)@ == cl_step(old(self)@, raw@),
    {
        let t = trim_chars(raw);
        let n = t.len();
        if n == 0 {
            return;
        }
        if n >= 2 && t[0] == '[' && t[n - 1] == ']' {
            let a = strip_leading_chars(t.as_slice(), '[');
            let b = strip_trailing_chars(a.as_slice(), ']');
            self.section = Some(b);
            return;
        }
        if section_is(&self.section, "Mark Sets created for this class") {
            self.mark_set_step(t.as_slice());
        } else if section_is(&self.section, "General Information") {
            let v = strip_quotes_chars(t.as_slice());
            if v.len() > 0 {
                self.general.push(v);
                assert(lv(self.general@) == lv(old(self).general@).push(v@));
            }
        } else if section_is(&self.section, "Class List") {
            self.student_step(raw, t.as_slice());
        }
    }
}

/// The class file of a legacy class folder.
pub fn parse_legacy_cl_text(text: &str) -> (r: ParsedCl)
    ensures
        r@ == cl_spec(text_lines(text@)),
{
    let lines = read_lines(text);
    let ghost ls = lv(lines@);
    let mut rd = ClReader {
        section: None,
        general: Vec::new(),
        expected_mark_sets: None,
        mark_sets: Vec::new(),
        expected_students: None,
        students: Vec::new(),
    };
    assert(lv(rd.general@) =~= Seq::<Seq<char>>::empty());
    assert(rd.mark_sets@.map_values(|m: ParsedMarkSetDef| m@) =~= Seq::<MarkSetDefModel>::empty());
    assert(rd.students@.map_values(|x: ParsedStudent| x@) =~= Seq::<StudentModel>::empty());
    assert(rd@ == cl_start());
    let mut k: usize = 0;
    while k < lines.len()
        invariant
            ls == lv(lines@),
            k <= lines@.len(),
            rd@ == cl_fold(ls, k as nat),
        decreases lines@.len() - k,
    {
        rd.step(lines[k].as_slice());
        k += 1;
    }
    let class_name = if rd.general.len() > 2 {
        string_of_seq(&rd.general[2])
    } else {
        String::from_str("Imported Class")
    };
    ParsedCl { class_name, mark_sets: rd.mark_sets, students: rd.students }
}


// ---------------------------------------------------------------------------
// Comment index (.IDX)
// ---------------------------------------------------------------------------

/// A comment set as the index file describes it.
pub struct ParsedCommentSetDef {
    pub set_number: usize,
    pub title: String,
    pub fit_mode: i32,
    pub fit_font_size: i32,
    pub fit_width: i32,
    pub fit_lines: i32,
    pub fit_subj: String,
    pub max_chars: i32,
    pub is_default: bool,
    pub bank_short: Option<String>,
}

/// A comment index file: the comment sets of a mark set.
pub struct ParsedIdxFile {
    pub fit_max_letters: i32,
    pub default_set: usize,
    pub sets: Vec<ParsedCommentSetDef>,
    pub bank_short: Option<String>,
}

pub struct CommentSetModel {
    pub set_number: nat,
    pub title: Seq<char>,
    pub fit_mode: int,
    pub fit_font_size: int,
    pub fit_width: int,
    pub fit_lines: int,
    pub fit_subj: Seq<char>,
    pub max_chars: int,
    pub is_default: bool,
    pub bank_short: Option<Seq<char>>,
}

pub struct IdxModel {
    pub fit_max_letters: int,
    pub default_set: nat,
    pub sets: Seq<CommentSetModel>,
    pub bank_short: Option<Seq<char>>,
}

impl View for ParsedCommentSetDef {
    type V = CommentSetModel;

    open spec fn view(&self) -> CommentSetModel {
        CommentSetModel {
            set_number: self.set_number as nat,
            title: self.title@,
            fit_mode: self.fit_mode as int,
            fit_font_size: self.fit_font_size as int,
            fit_width: self.fit_width as int,
            fit_lines: self.fit_lines as int,
            fit_subj: self.fit_subj@,
            max_chars: self.max_chars as int,
            is_default: self.is_default,
            bank_short: opt_str(self.bank_short),
        }
    }
}

impl View for ParsedIdxFile {
    type V = IdxModel;

    open spec fn view(&self) -> IdxModel {
        IdxModel {
            fit_max_letters: self.fit_max_letters as int,
            default_set: self.default_set as nat,
            sets: self.sets@.map_values(|x: ParsedCommentSetDef| x@),
            bank_short: opt_str(self.bank_short),
        }
    }
}

/// The title of set `k`: the value read, or `Set k`.
pub open spec fn set_title(v: Option<Seq<char>>, k: nat) -> Seq<char> {
    match v {
        Some(t) => t,
        None => "Set "@ + nat_digits(k),
    }
}

/// Sets `k..=count` of an index file in the old format, their titles read
/// from line `i`; the fit settings are the defaults.
pub open spec fn old_sets(ls: Seq<Seq<char>>, i: int, k: nat, count: nat, default: nat) -> Seq<
    CommentSetModel,
>
    decreases count + 1 - k,
{
    if k > count || k == 0 {
        Seq::empty()
    } else {
        let (t, i2) = next_non_noise(ls, i);
        seq![
            CommentSetModel {
                set_number: k,
                title: set_title(t, k),
                fit_mode: 0,
                fit_font_size: 8,
                fit_width: 50,
                fit_lines: 1,
                fit_subj: Seq::empty(),
                max_chars: 100,
                is_default: k == default,
                bank_short: None,
            },
        ] + old_sets(ls, i2, k + 1, count, default)
    }
}

/// The fit settings line of a set: four integers, or `0,8,50,1`.
pub open spec fn fit_values(v: Option<Seq<char>>) -> Seq<i32> {
    match v {
        Some(line) => match csv_i32(line, 4) {
            Some(xs) => xs,
            None => seq![0i32, 8i32, 50i32, 1i32],
        },
        None => seq![0i32, 8i32, 50i32, 1i32],
    }
}

/// The `max_chars` of a set from its value in `[Max Characters for each
/// Comment Set]`: at least 100, and 100 where there is no number.
pub open spec fn max_chars_of(v: Option<Seq<char>>) -> int {
    match v {
        Some(x) => match parse_i32(x) {
            Some(n) => if n >= 100 {
                n as int
            } else {
                100
            },
            None => 100,
        },
        None => 100,
    }
}

/// `n` reads with `next_non_noise` from line `i`, each possibly nothing.
pub open spec fn optional_reads(ls: Seq<Seq<char>>, i: int, n: nat) -> Seq<Option<Seq<char>>>
    decreases n,
{
    if n == 0 {
        Seq::empty()
    } else {
        let (v, j) = next_non_noise(ls, i);
        seq![v] + optional_reads(ls, j, (n - 1) as nat)
    }
}

proof fn lemma_optional_reads_len(ls: Seq<Seq<char>>, i: int, n: nat)
    ensures
        optional_reads(ls, i, n).len() == n,
    decreases n,
{
    if n > 0 {
        let (v, j) = next_non_noise(ls, i);
        lemma_optional_reads_len(ls, j, (n - 1) as nat);
    }
}

/// The `max_chars` of `n` sets: from `[Max Characters for each Comment
/// Set]` where the file has it, else 100 each.
pub open spec fn idx_max_chars(ls: Seq<Seq<char>>, n: nat) -> Seq<int> {
    match section_index(ls, "Max Characters for each Comment Set"@) {
        Some(mi) => optional_reads(ls, mi + 1, n).map_values(|v: Option<Seq<char>>| max_chars_of(v)),
        None => Seq::new(n, |k: int| 100int),
    }
}

/// Sets `k..=count` in the current format from line `i`: for each a title,
/// a fit line, a subject line and a bank line, where the bank line counts
/// for set 1 only.
pub open spec fn new_sets(
    ls: Seq<Seq<char>>,
    i: int,
    k: nat,
    count: nat,
    default: nat,
    maxes: Seq<int>,
) -> Seq<CommentSetModel>
    decreases count + 1 - k,
{
    if k > count || k == 0 {
        Seq::empty()
    } else {
        let (t, i1) = next_non_noise(ls, i);
        let (fl, i2) = next_non_noise(ls, i1);
        let (subj, i3) = keep_or_blank(ls, i2);
        let (bank, i4) = keep_or_blank(ls, i3);
        let fv = fit_values(fl);
        seq![
            CommentSetModel {
                set_number: k,
                title: set_title(t, k),
                fit_mode: fv[0] as int,
                fit_font_size: fv[1] as int,
                fit_width: fv[2] as int,
                fit_lines: fv[3] as int,
                fit_subj: subj,
                max_chars: maxes[k - 1],
                is_default: k == default,
                bank_short: if k == 1 && trim(bank).len() > 0 {
                    Some(trim(bank))
                } else {
                    None
                },
            },
        ] + new_sets(ls, i4, k + 1, count, default, maxes)
    }
}

proof fn lemma_new_sets_len(
    ls: Seq<Seq<char>>,
    i: int,
    k: nat,
    count: nat,
    default: nat,
    maxes: Seq<int>,
)
    requires
        1 <= k <= count + 1,
    ensures
        new_sets(ls, i, k, count, default, maxes).len() == count + 1 - k,
    decreases count + 1 - k,
{
    if k <= count {
        let (t, i1) = next_non_noise(ls, i);
        let (fl, i2) = next_non_noise(ls, i1);
        let (subj, i3) = keep_or_blank(ls, i2);
        let (bank, i4) = keep_or_blank(ls, i3);
        lemma_new_sets_len(ls, i4, k + 1, count, default, maxes);
    }
}

/// The first line, in lower case, that holds `needle`.
pub open spec fn first_line_holding(ls: Seq<Seq<char>>, needle: Seq<char>) -> Option<int> {
    if exists|i: int| 0 <= i < ls.len() && contains_seq(lower(ls[i]), needle) {
        Some(
            choose|i: int|
                0 <= i < ls.len() && contains_seq(lower(ls[i]), needle) && forall|j: int|
                    0 <= j < i ==> !contains_seq(lower(ls[j]), needle),
        )
    } else {
        None
    }
}

/// An index file. In the old format the first value is the set count, then
/// the default set and the titles. In the current format a line that holds
/// `this comment index file belongs` is followed by a folder line, the fit
/// letter limit (at least 100), the set count, the default set (kept in
/// `1..=count`), and the sets.
pub open spec fn idx_spec(ls: Seq<Seq<char>>) -> Result<IdxModel, LegacyError> {
    if ls.len() == 0 {
        Err(LegacyError::EmptyFile)
    } else {
        let (first, i0) = next_non_noise(ls, 0);
        let first_count = match first {
            Some(v) => parse_usize(trim(v)),
            None => None,
        };
        match first_count {
            Some(count) => {
                let (dv, i1) = next_non_noise(ls, i0);
                let default: nat = match dv {
                    Some(v) => match parse_usize(trim(v)) {
                        Some(d) => d as nat,
                        None => 1,
                    },
                    None => 1,
                };
                Ok(
                    IdxModel {
                        fit_max_letters: 100,
                        default_set: default,
                        sets: old_sets(ls, i1, 1, count as nat, default),
                        bank_short: None,
                    },
                )
            },
            None => new_idx_spec(ls),
        }
    }
}


/// `set_title` on values.
fn set_title_of(v: Option<Vec<char>>, k: usize) -> (r: String)
    ensures
        r@ == set_title(
            match v {
                Some(x) => Some(x@),
                None => None,
            },
            k as nat,
        ),
{
    match v {
        Some(t) => string_of_seq(&t),
        None => {
            let mut out = chars_of("Set ");
            let d = u64_digits(k as u64);
            let mut j: usize = 0;
            let ghost start = out@;
            while j < d.len()
                invariant
                    j <= d@.len(),
                    out@ == start + d@.take(j as int),
                decreases d@.len() - j,
            {
                out.push(d[j]);
                j += 1;
                assert(d@.take(j as int) == d@.take(j - 1).push(d@[j - 1]));
            }
            assert(d@.take(d@.len() as int) == d@);
            string_of_seq(&out)
        },
    }
}

/// The view of an optional value.
pub open spec fn opt_chars(v: Option<Vec<char>>) -> Option<Seq<char>> {
    match v {
        Some(x) => Some(x@),
        None => None,
    }
}

/// The sets of an old-format index file from line `i`.
fn read_old_sets(lines: &Vec<Vec<char>>, i: usize, count: usize, default: usize) -> (r: Vec<ParsedCommentSetDef>)
    ensures
        r@.map_values(|x: ParsedCommentSetDef| x@) == old_sets(lv(lines@), i as int, 1, count as nat, default as nat),
{
    let ghost ls = lv(lines@);
    let mut sets: Vec<ParsedCommentSetDef> = Vec::new();
    let mut j = i;
    let mut done: usize = 0;
    assert(sets@.map_values(|x: ParsedCommentSetDef| x@) =~= Seq::<CommentSetModel>::empty());
    while done < count
        invariant
            ls == lv(lines@),
            done <= count,
            old_sets(ls, i as int, 1, count as nat, default as nat) == sets@.map_values(
                |x: ParsedCommentSetDef| x@,
            ) + old_sets(ls, j as int, (done + 1) as nat, count as nat, default as nat),
        decreases count - done,
    {
        let k = done + 1;
        let (t, j2) = next_non_noise_at(lines, j);
        let set = ParsedCommentSetDef {
            set_number: k,
            title: set_title_of(t, k),
            fit_mode: 0,
            fit_font_size: 8,
            fit_width: 50,
            fit_lines: 1,
            fit_subj: String::new(),
            max_chars: 100,
            is_default: k == default,
            bank_short: None,
        };
        let ghost before = sets@.map_values(|x: ParsedCommentSetDef| x@);
        let ghost sv = set@;
        sets.push(set);
        proof {
            assert(sets@.map_values(|x: ParsedCommentSetDef| x@) == before.push(sv));
            let rest = old_sets(ls, j2 as int, (k + 1) as nat, count as nat, default as nat);
            assert(before + (seq![sv] + rest) == before.push(sv) + rest);
        }
        j = j2;
        done += 1;
    }
    assert(old_sets(ls, j as int, (count + 1) as nat, count as nat, default as nat) == Seq::<CommentSetModel>::empty());
    assert(sets@.map_values(|x: ParsedCommentSetDef| x@) + Seq::<CommentSetModel>::empty()
        == sets@.map_values(|x: ParsedCommentSetDef| x@));
    sets
}

/// `max_chars_of` on a value.
fn max_chars_of_value(v: Option<Vec<char>>) -> (r: i32)
    ensures
        r as int == max_chars_of(opt_chars(v)),
{
    match v {
        Some(x) => match parse_i32_chars(x.as_slice()) {
            Some(n) => if n >= 100 {
                n
            } else {
                100
            },
            None => 100,
        },
        None => 100,
    }
}

/// `idx_max_chars` on lines.
fn read_idx_max_chars(lines: &Vec<Vec<char>>, n: usize) -> (r: Vec<i32>)
    ensures
        r@.len() == n,
        idx_max_chars(lv(lines@), n as nat).len() == n,
        forall|k: int| 0 <= k < n ==> #[trigger] r@[k] as int == idx_max_chars(lv(lines@), n as nat)[k],
{
    proof {
        match section_index(lv(lines@), "Max Characters for each Comment Set"@) {
            Some(mi) => lemma_optional_reads_len(lv(lines@), mi + 1, n as nat),
            None => {},
        }
    }
    let ghost ls = lv(lines@);
    let mut out: Vec<i32> = Vec::new();
    match find_section(lines, "Max Characters for each Comment Set") {
        None => {
            let mut k: usize = 0;
            while k < n
                invariant
                    k <= n,
                    out@.len() == k,
                    forall|j: int| 0 <= j < k ==> #[trigger] out@[j] == 100,
                decreases n - k,
            {
                out.push(100);
                k += 1;
            }
            out
        },
        Some(mi) => {
            let ghost reads = optional_reads(ls, mi + 1, n as nat);
            proof {
                lemma_optional_reads_len(ls, mi + 1, n as nat);
                assert(Seq::new(0, |j: int| reads[j]) + reads == reads);
            }
            let mut m = mi + 1;
            let mut k: usize = 0;
            while k < n
                invariant
                    ls == lv(lines@),
                    k <= n,
                    out@.len() == k,
                    reads == optional_reads(ls, mi + 1, n as nat),
                    reads == Seq::new(k as nat, |j: int| reads[j]) + optional_reads(ls, m as int, (n - k) as nat),
                    reads.len() == n,
                    forall|j: int| 0 <= j < k ==> #[trigger] out@[j] as int == max_chars_of(reads[j]),
                decreases n - k,
            {
                let (v, m2) = next_non_noise_at(lines, m);
                let ghost vv = opt_chars(v);
                let x = max_chars_of_value(v);
                proof {
                    let rest = optional_reads(ls, m2 as int, (n - k - 1) as nat);
                    assert(optional_reads(ls, m as int, (n - k) as nat) == seq![vv] + rest);
                    assert(reads[k as int] == vv);
                    assert(Seq::new(k as nat, |j: int| reads[j]) + (seq![vv] + rest) == Seq::new(
                        (k + 1) as nat,
                        |j: int| reads[j],
                    ) + rest);
                }
                out.push(x);
                m = m2;
                k += 1;
            }
            out
        },
    }
}

/// `fit_values` on a value.
fn fit_values_of(v: Option<Vec<char>>) -> (r: Vec<i32>)
    ensures
        r@ == fit_values(opt_chars(v)),
        r@.len() == 4,
{
    let dflt = vec![0i32, 8i32, 50i32, 1i32];
    assert(dflt@ == seq![0i32, 8i32, 50i32, 1i32]);
    match v {
        Some(line) => match parse_csv_i32(line.as_slice(), 4) {
            Some(xs) => {
                assert(xs@.len() == 4);
                xs
            },
            None => dflt,
        },
        None => dflt,
    }
}

/// The sets of a current-format index file from line `i`.
fn read_new_sets(lines: &Vec<Vec<char>>, i: usize, count: usize, default: usize, maxes: &Vec<i32>) -> (r: Vec<ParsedCommentSetDef>)
    requires
        maxes@.len() == count,
    ensures
        r@.map_values(|x: ParsedCommentSetDef| x@) == new_sets(
            lv(lines@),
            i as int,
            1,
            count as nat,
            default as nat,
            maxes@.map_values(|x: i32| x as int),
        ),
{
    let ghost ls = lv(lines@);
    let ghost mx = maxes@.map_values(|x: i32| x as int);
    let mut sets: Vec<ParsedCommentSetDef> = Vec::new();
    let mut j = i;
    let mut done: usize = 0;
    assert(sets@.map_values(|x: ParsedCommentSetDef| x@) =~= Seq::<CommentSetModel>::empty());
    while done < count
        invariant
            ls == lv(lines@),
            mx == maxes@.map_values(|x: i32| x as int),
            maxes@.len() == count,
            done <= count,
            new_sets(ls, i as int, 1, count as nat, default as nat, mx) == sets@.map_values(
                |x: ParsedCommentSetDef| x@,
            ) + new_sets(ls, j as int, (done + 1) as nat, count as nat, default as nat, mx),
        decreases count - done,
    {
        let k = done + 1;
        let (t, j1) = next_non_noise_at(lines, j);
        let (fl, j2) = next_non_noise_at(lines, j1);
        let (subj, j3) = read_keep_or_blank(lines, j2);
        let (bank, j4) = read_keep_or_blank(lines, j3);
        let fv = fit_values_of(fl);
        let bank_t = trim_chars(bank.as_slice());
        let bank_short = if k == 1 && bank_t.len() > 0 {
            Some(string_of_seq(&bank_t))
        } else {
            None
        };
        let set = ParsedCommentSetDef {
            set_number: k,
            title: set_title_of(t, k),
            fit_mode: fv[0],
            fit_font_size: fv[1],
            fit_width: fv[2],
            fit_lines: fv[3],
            fit_subj: string_of_seq(&subj),
            max_chars: maxes[done],
            is_default: k == default,
            bank_short,
        };
        let ghost before = sets@.map_values(|x: ParsedCommentSetDef| x@);
        let ghost sv = set@;
        sets.push(set);
        proof {
            assert(mx[k - 1] == maxes@[done as int] as int);
            assert(sets@.map_values(|x: ParsedCommentSetDef| x@) == before.push(sv));
            let rest = new_sets(ls, j4 as int, (k + 1) as nat, count as nat, default as nat, mx);
            assert(before + (seq![sv] + rest) == before.push(sv) + rest);
        }
        j = j4;
        done += 1;
    }
    assert(sets@.map_values(|x: ParsedCommentSetDef| x@) + Seq::<CommentSetModel>::empty()
        == sets@.map_values(|x: ParsedCommentSetDef| x@));
    sets
}

/// `first_line_holding` on lines.
fn find_line_holding(lines: &Vec<Vec<char>>, needle: &str) -> (r: Option<usize>)
    ensures
        match r {
            Some(i) => first_line_holding(lv(lines@), needle@) == Some(i as int) && i < lines.len(),
            None => first_line_holding(lv(lines@), needle@) is None,
        },
{
    let ghost ls = lv(lines@);
    let nd = chars_of(needle);
    let mut i: usize = 0;
    while i < lines.len()
        invariant
            ls == lv(lines@),
            i <= lines@.len(),
            nd@ == needle@,
            forall|j: int| 0 <= j < i ==> !contains_seq(lower(ls[j]), needle@),
        decreases lines@.len() - i,
    {
        let l = lower_chars(lines[i].as_slice());
        assert(ls[i as int] == lines@[i as int]@);
        if contains_chars(l.as_slice(), nd.as_slice()) {
            proof {
                let c = choose|c: int|
                    0 <= c < ls.len() && contains_seq(lower(ls[c]), needle@) && forall|j: int|
                        0 <= j < c ==> !contains_seq(lower(ls[j]), needle@);
                assert(c == i);
            }
            return Some(i);
        }
        i += 1;
    }
    None
}

/// The optional unsigned count of a value.
fn usize_of(v: &Option<Vec<char>>) -> (r: Option<usize>)
    ensures
        r == match opt_chars(*v) {
            Some(x) => parse_usize(trim(x)),
            None => None,
        },
{
    match v {
        Some(x) => {
            let t = trim_chars(x.as_slice());
            parse_usize_chars(t.as_slice())
        },
        None => None,
    }
}

/// The comment index of a mark set, in either format.
pub fn parse_legacy_idx_text(text: &str) -> (r: Result<ParsedIdxFile, LegacyError>)
    ensures
        match r {
            Ok(f) => idx_spec(text_lines(text@)) == Ok::<IdxModel, LegacyError>(f@),
            Err(e) => idx_spec(text_lines(text@)) == Err::<IdxModel, LegacyError>(e),
        },
{
    let lines = read_lines(text);
    if lines.len() == 0 {
        return Err(LegacyError::EmptyFile);
    }
    let (first, i0) = next_non_noise_at(&lines, 0);
    if let Some(count) = usize_of(&first) {
        let (dv, i1) = next_non_noise_at(&lines, i0);
        let default = match usize_of(&dv) {
            Some(d) => d,
            None => 1,
        };
        let sets = read_old_sets(&lines, i1, count, default);
        return Ok(ParsedIdxFile { fit_max_letters: 100, default_set: default, sets, bank_short: None });
    }
    read_new_idx(&lines)
}

/// The head of a current-format index file: the fit letter limit, the set
/// count, the default set and the line after it.
pub open spec fn new_idx_head(ls: Seq<Seq<char>>) -> Result<(int, nat, nat, int), LegacyError> {
    match first_line_holding(ls, "this comment index file belongs"@) {
        None => Err(LegacyError::MissingSection),
        Some(oi) => match next_non_noise(ls, oi + 1) {
            (None, _) => Err(LegacyError::MissingValue),
            (Some(_), i1) => {
                let (lv_, i2) = next_non_noise(ls, i1);
                let letters = match lv_ {
                    Some(v) => match parse_i32(trim(v)) {
                        Some(x) => if x >= 100 {
                            x as int
                        } else {
                            100
                        },
                        None => 100,
                    },
                    None => 100,
                };
                let (cv, i3) = next_non_noise(ls, i2);
                let count = match cv {
                    Some(v) => parse_usize(trim(v)),
                    None => None,
                };
                match count {
                    None => Err(LegacyError::MissingValue),
                    Some(count) => {
                        let (dv, i4) = next_non_noise(ls, i3);
                        let d0: nat = match dv {
                            Some(v) => match parse_usize(trim(v)) {
                                Some(d) => d as nat,
                                None => 1,
                            },
                            None => 1,
                        };
                        let hi: nat = if count >= 1 {
                            count as nat
                        } else {
                            1
                        };
                        let default: nat = if d0 < 1 {
                            1
                        } else if d0 > hi {
                            hi
                        } else {
                            d0
                        };
                        Ok((letters, count as nat, default, i4))
                    },
                }
            },
        },
    }
}

/// The current-format part of `idx_spec`.
pub open spec fn new_idx_spec(ls: Seq<Seq<char>>) -> Result<IdxModel, LegacyError> {
    match new_idx_head(ls) {
        Err(e) => Err(e),
        Ok((letters, count, default, i4)) => {
            let sets = new_sets(ls, i4, 1, count, default, idx_max_chars(ls, count));
            Ok(
                IdxModel {
                    fit_max_letters: letters,
                    default_set: default,
                    sets,
                    bank_short: if count >= 1 {
                        sets[0].bank_short
                    } else {
                        None
                    },
                },
            )
        },
    }
}

/// `new_idx_head` on lines.
fn read_new_idx_head(lines: &Vec<Vec<char>>) -> (r: Result<(i32, usize, usize, usize), LegacyError>)
    ensures
        match r {
            Ok((l, c, d, i)) => new_idx_head(lv(lines@)) == Ok::<(int, nat, nat, int), LegacyError>(
                (l as int, c as nat, d as nat, i as int),
            ),
            Err(e) => new_idx_head(lv(lines@)) == Err::<(int, nat, nat, int), LegacyError>(e),
        },
{
    let oi = match find_line_holding(lines, "this comment index file belongs") {
        Some(x) => x,
        None => return Err(LegacyError::MissingSection),
    };
    let (folder, i1) = next_non_noise_at(lines, oi + 1);
    if folder.is_none() {
        return Err(LegacyError::MissingValue);
    }
    let (lv_, i2) = next_non_noise_at(lines, i1);
    let letters: i32 = match lv_ {
        Some(v) => {
            let t = trim_chars(v.as_slice());
            match parse_i32_chars(t.as_slice()) {
                Some(x) => if x >= 100 {
                    x
                } else {
                    100
                },
                None => 100,
            }
        },
        None => 100,
    };
    let (cv, i3) = next_non_noise_at(lines, i2);
    let count = match usize_of(&cv) {
        Some(c) => c,
        None => return Err(LegacyError::MissingValue),
    };
    let (dv, i4) = next_non_noise_at(lines, i3);
    let d0: usize = match usize_of(&dv) {
        Some(d) => d,
        None => 1,
    };
    let hi: usize = if count >= 1 {
        count
    } else {
        1
    };
    let default: usize = if d0 < 1 {
        1
    } else if d0 > hi {
        hi
    } else {
        d0
    };
    Ok((letters, count, default, i4))
}

/// A current-format index file.
fn read_new_idx(lines: &Vec<Vec<char>>) -> (r: Result<ParsedIdxFile, LegacyError>)
    ensures
        match r {
            Ok(f) => new_idx_spec(lv(lines@)) == Ok::<IdxModel, LegacyError>(f@),
            Err(e) => new_idx_spec(lv(lines@)) == Err::<IdxModel, LegacyError>(e),
        },
{
    let ghost ls = lv(lines@);
    let (letters, count, default, i4) = read_new_idx_head(lines)?;
    let maxes = read_idx_max_chars(lines, count);
    assert(maxes@.map_values(|x: i32| x as int) =~= idx_max_chars(ls, count as nat));
    let sets = read_new_sets(lines, i4, count, default, &maxes);
    proof {
        lemma_new_sets_len(ls, i4 as int, 1, count as nat, default as nat, idx_max_chars(ls, count as nat));
        assert(sets@.len() == sets@.map_values(|x: ParsedCommentSetDef| x@).len());
    }
    let bank_short = if count >= 1 {
        match &sets[0].bank_short {
            Some(b) => Some(b.clone()),
            None => None,
        }
    } else {
        None
    };
    proof {
        if count >= 1 {
            assert(sets@.map_values(|x: ParsedCommentSetDef| x@)[0] == sets@[0]@);
        }
    }
    Ok(ParsedIdxFile { fit_max_letters: letters, default_set: default, sets, bank_short })
}


// ---------------------------------------------------------------------------
// Loaned textbooks (.TBK)
// ---------------------------------------------------------------------------

/// A textbook loaned to a student: the copy's id and a note.
pub struct ParsedTbkAssignment {
    pub item_id: String,
    pub note: String,
}

/// A textbook and its loans, one per student. `cost` is the cost as the
/// file writes it; it is read as a number where it is used.
pub struct ParsedTbkItem {
    pub title: String,
    pub publisher: String,
    pub cost: String,
    pub assignments: Vec<ParsedTbkAssignment>,
}

/// A textbook file: the student count and the textbooks.
pub struct ParsedTbkFile {
    pub last_student: usize,
    pub items: Vec<ParsedTbkItem>,
}

pub struct TbkAssignmentModel {
    pub item_id: Seq<char>,
    pub note: Seq<char>,
}

pub struct TbkItemModel {
    pub title: Seq<char>,
    pub publisher: Seq<char>,
    pub cost: Seq<char>,
    pub assignments: Seq<TbkAssignmentModel>,
}

pub struct TbkModel {
    pub last_student: nat,
    pub items: Seq<TbkItemModel>,
}

impl View for ParsedTbkAssignment {
    type V = TbkAssignmentModel;

    open spec fn view(&self) -> TbkAssignmentModel {
        TbkAssignmentModel { item_id: self.item_id@, note: self.note@ }
    }
}

impl View for ParsedTbkItem {
    type V = TbkItemModel;

    open spec fn view(&self) -> TbkItemModel {
        TbkItemModel {
            title: self.title@,
            publisher: self.publisher@,
            cost: self.cost@,
            assignments: self.assignments@.map_values(|a: ParsedTbkAssignment| a@),
        }
    }
}

impl View for ParsedTbkFile {
    type V = TbkModel;

    open spec fn view(&self) -> TbkModel {
        TbkModel {
            last_student: self.last_student as nat,
            items: self.items@.map_values(|x: ParsedTbkItem| x@),
        }
    }
}

/// The next line at or after `i` that is not blank, trimmed, and the line
/// after it.
pub open spec fn next_raw(ls: Seq<Seq<char>>, i: int) -> (Option<Seq<char>>, int)
    decreases ls.len() - i,
{
    if i < 0 || i >= ls.len() {
        (None, i)
    } else if trim(ls[i]).len() == 0 {
        next_raw(ls, i + 1)
    } else {
        (Some(trim(ls[i])), i + 1)
    }
}

/// Field `k` of a record, or blank.
pub open spec fn field_or_blank(f: Seq<Seq<char>>, k: int) -> Seq<char> {
    if 0 <= k < f.len() {
        f[k]
    } else {
        Seq::empty()
    }
}

/// `n` loans from line `i`, a line `id,note` each.
pub open spec fn tbk_assignments(ls: Seq<Seq<char>>, i: int, n: nat) -> Option<
    (Seq<TbkAssignmentModel>, int),
>
    decreases n,
{
    if n == 0 {
        Some((Seq::empty(), i))
    } else {
        match tbk_assignments(ls, i, (n - 1) as nat) {
            None => None,
            Some((xs, j)) => match next_raw(ls, j) {
                (None, _) => None,
                (Some(l), k) => {
                    let f = csv_fields(l);
                    Some(
                        (
                            xs.push(
                                TbkAssignmentModel {
                                    item_id: field_or_blank(f, 0),
                                    note: field_or_blank(f, 1),
                                },
                            ),
                            k,
                        ),
                    )
                },
            },
        }
    }
}

/// `m` textbooks from line `i`: a line `title,publisher,cost`, then one
/// loan line per student.
pub open spec fn tbk_items(ls: Seq<Seq<char>>, i: int, m: nat, n: nat) -> Option<
    (Seq<TbkItemModel>, int),
>
    decreases m,
{
    if m == 0 {
        Some((Seq::empty(), i))
    } else {
        match tbk_items(ls, i, (m - 1) as nat, n) {
            None => None,
            Some((items, j)) => match next_raw(ls, j) {
                (None, _) => None,
                (Some(h), j1) => {
                    let f = csv_fields(h);
                    match tbk_assignments(ls, j1, n) {
                        None => None,
                        Some((asg, j2)) => Some(
                            (
                                items.push(
                                    TbkItemModel {
                                        title: field_or_blank(f, 0),
                                        publisher: field_or_blank(f, 1),
                                        cost: trim(field_or_blank(f, 2)),
                                        assignments: asg,
                                    },
                                ),
                                j2,
                            ),
                        ),
                    }
                },
            },
        }
    }
}

/// A textbook file: after `[LastStudent]` the student count; after the
/// line that holds `[loaned items data - do not edit` (in any case) a count
/// `m`, then `m + 1` textbooks.
pub open spec fn tbk_spec(ls: Seq<Seq<char>>) -> Result<TbkModel, LegacyError> {
    match tbk_head(ls) {
        Err(e) => Err(e),
        Ok((n, m, c)) => match tbk_items(ls, c, m + 1, n) {
            None => Err(LegacyError::UnexpectedEof),
            Some((items, _)) => Ok(TbkModel { last_student: n, items }),
        },
    }
}

/// The count after the first value at or after line `i`.
pub open spec fn count_value(ls: Seq<Seq<char>>, i: int) -> Option<(nat, int)> {
    match next_non_noise(ls, i) {
        (Some(v), j) => match parse_usize(v) {
            Some(n) => Some((n as nat, j)),
            None => None,
        },
        (None, _) => None,
    }
}

/// The head of a textbook file: the student count, the textbook count and
/// the line after it.
pub open spec fn tbk_head(ls: Seq<Seq<char>>) -> Result<(nat, nat, int), LegacyError> {
    match section_index(ls, "LastStudent"@) {
        None => Err(LegacyError::MissingSection),
        Some(li) => match count_value(ls, li + 1) {
            None => Err(LegacyError::MissingValue),
            Some((n, _)) => match first_line_holding(ls, "[loaned items data - do not edit"@) {
                None => Err(LegacyError::MissingSection),
                Some(di) => match count_value(ls, di + 1) {
                    None => Err(LegacyError::MissingValue),
                    Some((m, c)) => Ok((n, m, c)),
                },
            },
        },
    }
}

/// `count_value` on lines.
fn read_count_value(lines: &Vec<Vec<char>>, i: usize) -> (r: Option<(usize, usize)>)
    ensures
        match r {
            Some((n, j)) => count_value(lv(lines@), i as int) == Some((n as nat, j as int)),
            None => count_value(lv(lines@), i as int) is None,
        },
{
    let (v, j) = next_non_noise_at(lines, i);
    match v {
        Some(v) => match parse_usize_chars(v.as_slice()) {
            Some(n) => Some((n, j)),
            None => None,
        },
        None => None,
    }
}

/// `tbk_head` on lines.
fn read_tbk_head(lines: &Vec<Vec<char>>) -> (r: Result<(usize, usize, usize), LegacyError>)
    ensures
        match r {
            Ok((n, m, c)) => tbk_head(lv(lines@)) == Ok::<(nat, nat, int), LegacyError>(
                (n as nat, m as nat, c as int),
            ),
            Err(e) => tbk_head(lv(lines@)) == Err::<(nat, nat, int), LegacyError>(e),
        },
{
    let li = match find_section(lines, "LastStudent") {
        Some(x) => x,
        None => return Err(LegacyError::MissingSection),
    };
    let n = match read_count_value(lines, li + 1) {
        Some((n, _)) => n,
        None => return Err(LegacyError::MissingValue),
    };
    let di = match find_line_holding(lines, "[loaned items data - do not edit") {
        Some(x) => x,
        None => return Err(LegacyError::MissingSection),
    };
    match read_count_value(lines, di + 1) {
        Some((m, c)) => Ok((n, m, c)),
        None => Err(LegacyError::MissingValue),
    }
}

/// `next_raw` on lines.
fn next_raw_at(lines: &Vec<Vec<char>>, i: usize) -> (r: (Option<Vec<char>>, usize))
    ensures
        next_raw(lv(lines@), i as int) == (opt_chars(r.0), r.1 as int),
{
    let ghost ls = lv(lines@);
    let mut k = i;
    while k < lines.len()
        invariant
            i <= k,
            ls == lv(lines@),
            next_raw(ls, i as int) == next_raw(ls, k as int),
        decreases lines@.len() - k,
    {
        let t = trim_chars(lines[k].as_slice());
        if t.len() > 0 {
            return (Some(t), k + 1);
        }
        k += 1;
    }
    (None, k)
}

/// `field_or_blank` on fields.
fn field_or_blank_of(f: &Vec<Vec<char>>, k: usize) -> (r: String)
    ensures
        r@ == field_or_blank(lv(f@), k as int),
{
    if k < f.len() {
        string_of_seq(&f[k])
    } else {
        String::new()
    }
}

proof fn lemma_tbk_assignments_none(ls: Seq<Seq<char>>, i: int, c: nat, n: nat)
    requires
        c < n,
        tbk_assignments(ls, i, (c + 1) as nat) is None,
    ensures
        tbk_assignments(ls, i, n) is None,
    decreases n - c,
{
    if c + 1 < n {
        lemma_tbk_assignments_none(ls, i, (c + 1) as nat, n);
    }
}

proof fn lemma_tbk_items_none(ls: Seq<Seq<char>>, i: int, c: nat, m: nat, n: nat)
    requires
        c < m,
        tbk_items(ls, i, (c + 1) as nat, n) is None,
    ensures
        tbk_items(ls, i, m, n) is None,
    decreases m - c,
{
    if c + 1 < m {
        lemma_tbk_items_none(ls, i, (c + 1) as nat, m, n);
    }
}

/// The fields of a record, as a vector of vectors whose view `lv` gives.
fn fields_of(l: &Vec<char>) -> (r: Vec<Vec<char>>)
    ensures
        lv(r@) == csv_fields(l@),
{
    let f = csv_fields_chars(l.as_slice());
    assert(lv(f@) =~= csv_fields(l@));
    f
}

/// `tbk_assignments` on lines.
fn read_tbk_assignments(lines: &Vec<Vec<char>>, i: usize, n: usize) -> (r: Option<(Vec<ParsedTbkAssignment>, usize)>)
    ensures
        match r {
            Some((xs, j)) => tbk_assignments(lv(lines@), i as int, n as nat) == Some(
                (xs@.map_values(|a: ParsedTbkAssignment| a@), j as int),
            ),
            None => tbk_assignments(lv(lines@), i as int, n as nat) is None,
        },
{
    let ghost ls = lv(lines@);
    let mut xs: Vec<ParsedTbkAssignment> = Vec::new();
    let mut j = i;
    let mut c: usize = 0;
    assert(xs@.map_values(|a: ParsedTbkAssignment| a@) =~= Seq::<TbkAssignmentModel>::empty());
    while c < n
        invariant
            ls == lv(lines@),
            c <= n,
            tbk_assignments(ls, i as int, c as nat) == Some(
                (xs@.map_values(|a: ParsedTbkAssignment| a@), j as int),
            ),
        decreases n - c,
    {
        let (l, j2) = next_raw_at(lines, j);
        match l {
            None => {
                proof {
                    lemma_tbk_assignments_none(ls, i as int, c as nat, n as nat);
                }
                return None;
            },
            Some(l) => {
                let f = fields_of(&l);
                let a = ParsedTbkAssignment {
                    item_id: field_or_blank_of(&f, 0),
                    note: field_or_blank_of(&f, 1),
                };
                let ghost before = xs@.map_values(|a: ParsedTbkAssignment| a@);
                let ghost av = a@;
                xs.push(a);
                assert(xs@.map_values(|a: ParsedTbkAssignment| a@) == before.push(av));
                j = j2;
                c += 1;
            },
        }
    }
    Some((xs, j))
}

/// One textbook and its loans, from line `i`.
fn read_tbk_item(lines: &Vec<Vec<char>>, i: usize, n: usize) -> (r: Option<(ParsedTbkItem, usize)>)
    ensures
        match r {
            Some((it, j)) => next_raw(lv(lines@), i as int).0 matches Some(h) && tbk_assignments(
                lv(lines@),
                next_raw(lv(lines@), i as int).1,
                n as nat,
            ) matches Some((asg, j2)) && j2 == j && it@ == (TbkItemModel {
                title: field_or_blank(csv_fields(h), 0),
                publisher: field_or_blank(csv_fields(h), 1),
                cost: trim(field_or_blank(csv_fields(h), 2)),
                assignments: asg,
            }),
            None => next_raw(lv(lines@), i as int).0 is None || tbk_assignments(
                lv(lines@),
                next_raw(lv(lines@), i as int).1,
                n as nat,
            ) is None,
        },
{
    let (h, j1) = next_raw_at(lines, i);
    let h = match h {
        Some(h) => h,
        None => return None,
    };
    let f = fields_of(&h);
    let (asg, j2) = match read_tbk_assignments(lines, j1, n) {
        Some(x) => x,
        None => return None,
    };
    let cost_field = if 2 < f.len() {
        trim_chars(f[2].as_slice())
    } else {
        Vec::new()
    };
    assert(2 >= f@.len() ==> trim(Seq::<char>::empty()) == Seq::<char>::empty());
    let it = ParsedTbkItem {
        title: field_or_blank_of(&f, 0),
        publisher: field_or_blank_of(&f, 1),
        cost: string_of_seq(&cost_field),
        assignments: asg,
    };
    Some((it, j2))
}

/// `tbk_items` on lines.
fn read_tbk_items(lines: &Vec<Vec<char>>, i: usize, m: usize, n: usize) -> (r: Option<Vec<ParsedTbkItem>>)
    ensures
        match r {
            Some(xs) => tbk_items(lv(lines@), i as int, m as nat + 1, n as nat) matches Some((items, _))
                && items == xs@.map_values(|x: ParsedTbkItem| x@),
            None => tbk_items(lv(lines@), i as int, m as nat + 1, n as nat) is None,
        },
{
    let ghost ls = lv(lines@);
    let mut xs: Vec<ParsedTbkItem> = Vec::new();
    let mut j = i;
    let mut c: usize = 0;
    assert(xs@.map_values(|x: ParsedTbkItem| x@) =~= Seq::<TbkItemModel>::empty());
    loop
        invariant
            ls == lv(lines@),
            c <= m,
            tbk_items(ls, i as int, c as nat, n as nat) == Some(
                (xs@.map_values(|x: ParsedTbkItem| x@), j as int),
            ),
        decreases m - c,
    {
        match read_tbk_item(lines, j, n) {
            None => {
                proof {
                    lemma_tbk_items_none(ls, i as int, c as nat, m as nat + 1, n as nat);
                }
                return None;
            },
            Some((it, j2)) => {
                let ghost before = xs@.map_values(|x: ParsedTbkItem| x@);
                let ghost iv = it@;
                xs.push(it);
                assert(xs@.map_values(|x: ParsedTbkItem| x@) == before.push(iv));
                j = j2;
            },
        }
        if c == m {
            return Some(xs);
        }
        c += 1;
    }
}

/// The textbook file of a mark set.
pub fn parse_legacy_tbk_text(text: &str) -> (r: Result<ParsedTbkFile, LegacyError>)
    ensures
        match r {
            Ok(f) => tbk_spec(text_lines(text@)) == Ok::<TbkModel, LegacyError>(f@),
            Err(e) => tbk_spec(text_lines(text@)) == Err::<TbkModel, LegacyError>(e),
        },
{
    let lines = read_lines(text);
    let (n, m, c) = read_tbk_head(&lines)?;
    match read_tbk_items(&lines, c, m, n) {
        None => Err(LegacyError::UnexpectedEof),
        Some(items) => Ok(ParsedTbkFile { last_student: n, items }),
    }
}


// ---------------------------------------------------------------------------
// Course codes per student (.ICC)
// ---------------------------------------------------------------------------

/// A course-code file: for the class (row 0) and each student (rows 1..),
/// one code per subject column (column 0 included).
pub struct ParsedIccFile {
    pub last_student: usize,
    pub subject_count: usize,
    pub codes: Vec<Vec<String>>,
}

pub struct IccModel {
    pub last_student: nat,
    pub subject_count: nat,
    pub codes: Seq<Seq<Seq<char>>>,
}

impl View for ParsedIccFile {
    type V = IccModel;

    open spec fn view(&self) -> IccModel {
        IccModel {
            last_student: self.last_student as nat,
            subject_count: self.subject_count as nat,
            codes: self.codes@.map_values(|row: Vec<String>| strs(row@)),
        }
    }
}

/// The index of the first line that is not blank.
pub open spec fn first_nonblank(ls: Seq<Seq<char>>) -> Option<int> {
    if exists|i: int| 0 <= i < ls.len() && trim(ls[i]).len() > 0 {
        Some(
            choose|i: int|
                0 <= i < ls.len() && trim(ls[i]).len() > 0 && forall|j: int|
                    0 <= j < i ==> trim(ls[j]).len() == 0,
        )
    } else {
        None
    }
}

/// The fields of the lines from `from` on, blank lines skipped, in order.
pub open spec fn icc_tokens(ls: Seq<Seq<char>>, from: int) -> Seq<Seq<char>>
    decreases ls.len() - from,
{
    if from < 0 || from >= ls.len() {
        Seq::empty()
    } else {
        let t = trim(ls[from]);
        (if t.len() == 0 {
            Seq::empty()
        } else {
            csv_fields(t)
        }) + icc_tokens(ls, from + 1)
    }
}

/// The codes laid out row by row: cell `(r, c)` is token `r * (w) + c`, or
/// blank past the tokens.
pub open spec fn icc_grid(tokens: Seq<Seq<char>>, rows: nat, w: nat) -> Seq<Seq<Seq<char>>> {
    Seq::new(rows, |r: int| Seq::new(w, |c: int| field_or_blank(tokens, r * w + c)))
}

/// A course-code file: a header line `students,subjects`, then the codes of
/// the class and of each student, `subjects + 1` per row, over the
/// following lines.
pub open spec fn icc_spec(ls: Seq<Seq<char>>) -> Result<IccModel, LegacyError> {
    if ls.len() == 0 {
        Err(LegacyError::EmptyFile)
    } else {
        match first_nonblank(ls) {
            None => Err(LegacyError::MissingValue),
            Some(f) => {
                let ff = csv_fields(trim(ls[f]));
                if ff.len() < 2 {
                    Err(LegacyError::BadLine)
                } else {
                    match (parse_usize(trim(ff[0])), parse_usize(trim(ff[1]))) {
                        (Some(n), Some(sc)) => Ok(
                            IccModel {
                                last_student: n as nat,
                                subject_count: sc as nat,
                                codes: icc_grid(icc_tokens(ls, f + 1), n as nat + 1, sc as nat + 1),
                            },
                        ),
                        _ => Err(LegacyError::BadNumber),
                    }
                }
            },
        }
    }
}

/// Appends copies of the vectors of `f` to `out`.
fn append_all(out: &mut Vec<Vec<char>>, f: &Vec<Vec<char>>)
    ensures
        lv(final(out)@) == lv(old(out)@) + lv(f@),
{
    let ghost before = lv(out@);
    let mut j: usize = 0;
    while j < f.len()
        invariant
            j <= f@.len(),
            lv(out@) == before + lv(f@).take(j as int),
        decreases f@.len() - j,
    {
        let ghost prev = lv(out@);
        let item = slice_range(f[j].as_slice(), 0, f[j].len());
        assert(f@[j as int]@.subrange(0, f@[j as int]@.len() as int) == f@[j as int]@);
        let ghost iv = item@;
        out.push(item);
        assert(lv(out@) == prev.push(iv));
        j += 1;
        assert(lv(f@).take(j as int) == lv(f@).take(j - 1).push(lv(f@)[j - 1]));
    }
    assert(lv(f@).take(f@.len() as int) == lv(f@));
}

/// `icc_tokens` on lines.
fn read_icc_tokens(lines: &Vec<Vec<char>>, from: usize) -> (r: Vec<Vec<char>>)
    ensures
        lv(r@) == icc_tokens(lv(lines@), from as int),
{
    let ghost ls = lv(lines@);
    let mut out: Vec<Vec<char>> = Vec::new();
    let mut k = from;
    assert(lv(out@) =~= Seq::<Seq<char>>::empty());
    while k < lines.len()
        invariant
            ls == lv(lines@),
            from <= k,
            icc_tokens(ls, from as int) == lv(out@) + icc_tokens(ls, k as int),
        decreases lines@.len() - k,
    {
        let t = trim_chars(lines[k].as_slice());
        let ghost before = lv(out@);
        if t.len() > 0 {
            let f = csv_fields_chars(t.as_slice());
            assert(lv(f@) =~= csv_fields(t@));
            append_all(&mut out, &f);
        } else {
            assert(before + Seq::<Seq<char>>::empty() == before);
        }
        proof {
            let rest = icc_tokens(ls, k + 1);
            assert(icc_tokens(ls, k as int) == (if t@.len() == 0 {
                Seq::<Seq<char>>::empty()
            } else {
                csv_fields(t@)
            }) + rest);
        }
        k += 1;
    }
    assert(lv(out@) + Seq::<Seq<char>>::empty() == lv(out@));
    out
}

/// The header line of a course-code file.
fn find_first_nonblank(lines: &Vec<Vec<char>>) -> (r: Option<usize>)
    ensures
        match r {
            Some(i) => first_nonblank(lv(lines@)) == Some(i as int) && i < lines.len(),
            None => first_nonblank(lv(lines@)) is None,
        },
{
    let ghost ls = lv(lines@);
    let mut i: usize = 0;
    while i < lines.len()
        invariant
            ls == lv(lines@),
            i <= lines@.len(),
            forall|j: int| 0 <= j < i ==> trim(ls[j]).len() == 0,
        decreases lines@.len() - i,
    {
        assert(ls[i as int] == lines@[i as int]@);
        if !crate::text::is_blank(lines[i].as_slice()) {
            proof {
                let c = choose|c: int|
                    0 <= c < ls.len() && trim(ls[c]).len() > 0 && forall|j: int|
                        0 <= j < c ==> trim(ls[j]).len() == 0;
                assert(c == i);
            }
            return Some(i);
        }
        i += 1;
    }
    None
}

/// The rows of the grid, `rows` of `w` cells each.
fn icc_grid_of(tokens: &Vec<Vec<char>>, n: usize, sc: usize) -> (r: Vec<Vec<String>>)
    ensures
        r@.map_values(|row: Vec<String>| strs(row@)) == icc_grid(lv(tokens@), n as nat + 1, sc as nat + 1),
{
    let ghost tv = lv(tokens@);
    let ghost w: nat = sc as nat + 1;
    let mut rows: Vec<Vec<String>> = Vec::new();
    let mut cursor: usize = 0;
    let mut r: usize = 0;
    loop
        invariant_except_break
            tv == lv(tokens@),
            w == sc as nat + 1,
            r <= n,
            rows@.len() == r,
            cursor as int == if r * w < tv.len() { r * w } else { tv.len() as int },
            forall|q: int| 0 <= q < r ==> #[trigger] strs(rows@[q]@) == Seq::new(w, |c: int| field_or_blank(tv, q * w + c)),
        ensures
            rows@.len() == n + 1,
            forall|q: int| 0 <= q < n + 1 ==> #[trigger] strs(rows@[q]@) == Seq::new(w, |c: int| field_or_blank(tv, q * w + c)),
        decreases n - r,
    {
        let mut row: Vec<String> = Vec::new();
        let mut c: usize = 0;
        loop
            invariant_except_break
                tv == lv(tokens@),
                w == sc as nat + 1,
                c <= sc,
                row@.len() == c,
                cursor as int == if r * w + c < tv.len() { r * w + c } else { tv.len() as int },
                forall|q: int| 0 <= q < c ==> #[trigger] row@[q]@ == field_or_blank(tv, r * w + q),
            ensures
                row@.len() == w,
                cursor as int == if r * w + w < tv.len() { r * w + w } else { tv.len() as int },
                forall|q: int| 0 <= q < w ==> #[trigger] row@[q]@ == field_or_blank(tv, r * w + q),
            decreases sc - c,
        {
            if cursor < tokens.len() {
                row.push(string_of_seq(&tokens[cursor]));
                cursor += 1;
            } else {
                row.push(String::new());
            }
            if c == sc {
                break;
            }
            c += 1;
        }
        assert(strs(row@) =~= Seq::new(w, |c: int| field_or_blank(tv, r * w + c)));
        proof {
            assert((r + 1) * w == r * w + w) by (nonlinear_arith);
        }
        rows.push(row);
        if r == n {
            break;
        }
        r += 1;
    }
    assert(rows@.map_values(|row: Vec<String>| strs(row@)) =~= icc_grid(tv, n as nat + 1, w));
    rows
}

/// The course-code file of a class.
pub fn parse_legacy_icc_text(text: &str) -> (r: Result<ParsedIccFile, LegacyError>)
    ensures
        match r {
            Ok(f) => icc_spec(text_lines(text@)) == Ok::<IccModel, LegacyError>(f@),
            Err(e) => icc_spec(text_lines(text@)) == Err::<IccModel, LegacyError>(e),
        },
{
    let lines = read_lines(text);
    if lines.len() == 0 {
        return Err(LegacyError::EmptyFile);
    }
    let f = match find_first_nonblank(&lines) {
        Some(f) => f,
        None => return Err(LegacyError::MissingValue),
    };
    let t = trim_chars(lines[f].as_slice());
    let ff = csv_fields_chars(t.as_slice());
    if ff.len() < 2 {
        return Err(LegacyError::BadLine);
    }
    let a = trim_chars(ff[0].as_slice());
    let b = trim_chars(ff[1].as_slice());
    let n = match parse_usize_chars(a.as_slice()) {
        Some(n) => n,
        None => return Err(LegacyError::BadNumber),
    };
    let sc = match parse_usize_chars(b.as_slice()) {
        Some(x) => x,
        None => return Err(LegacyError::BadNumber),
    };
    let tokens = read_icc_tokens(&lines, f + 1);
    let codes = icc_grid_of(&tokens, n, sc);
    Ok(ParsedIccFile { last_student: n, subject_count: sc, codes })
}


/// A mark set line `id,description,weight` (no field holding a comma)
/// gives a mark set whose description and weight are those fields trimmed,
/// numbered by the position it is read at.
pub proof fn law_mark_set_line_fields(id: Seq<char>, description: Seq<char>, weight: Seq<char>, sort_order: nat)
    requires
        !id.contains(','),
        !description.contains(','),
        !weight.contains(','),
    ensures
        mark_set_line(id + seq![','] + description + seq![','] + weight, sort_order) matches Some(m) && m.description
            == trim(description) && m.weight == trim(weight) && m.sort_order == sort_order,
{
    let line = id + seq![','] + description + seq![','] + weight;
    assert(line =~= (id + seq![','] + description) + seq![','] + weight);
    lemma_split_concat(id + seq![','] + description, weight, ',');
    lemma_split_concat(id, description, ',');
    lemma_split_without_sep(id, ',');
    lemma_split_without_sep(description, ',');
    lemma_split_without_sep(weight, ',');
    assert(split_on(line, ',') =~= seq![id, description, weight]);
    let parts = trimmed_parts(line);
    assert(parts[1] == trim(description));
    assert(parts[2] == trim(weight));
    lemma_trim_idempotent(description);
    lemma_trim_idempotent(weight);
}


proof fn lemma_mark_set_line_split(id: Seq<char>, description: Seq<char>, weight: Seq<char>)
    requires
        !id.contains(','),
        !description.contains(','),
        !weight.contains(','),
    ensures
        trimmed_parts(id + seq![','] + description + seq![','] + weight) == seq![trim(id), trim(description), trim(weight)],
{
    let line = id + seq![','] + description + seq![','] + weight;
    assert(line =~= (id + seq![','] + description) + seq![','] + weight);
    lemma_split_concat(id + seq![','] + description, weight, ',');
    lemma_split_concat(id, description, ',');
    lemma_split_without_sep(id, ',');
    lemma_split_without_sep(description, ',');
    lemma_split_without_sep(weight, ',');
    assert(split_on(line, ',') =~= seq![id, description, weight]);
    assert(trimmed_parts(line) =~= seq![trim(id), trim(description), trim(weight)]);
}


proof fn lemma_trim_start_keeps_absent(s: Seq<char>, c: char)
    requires
        !s.contains(c),
    ensures
        !crate::text::trim_start(s).contains(c),
    decreases s.len(),
{
    if s.len() > 0 && crate::text::is_ws(s[0]) {
        assert(!s.drop_first().contains(c)) by {
            if s.drop_first().contains(c) {
                let i = choose|i: int| 0 <= i < s.drop_first().len() && s.drop_first()[i] == c;
                assert(s[i + 1] == c);
            }
        }
        lemma_trim_start_keeps_absent(s.drop_first(), c);
    }
}

proof fn lemma_trim_end_keeps_absent(s: Seq<char>, c: char)
    requires
        !s.contains(c),
    ensures
        !crate::text::trim_end(s).contains(c),
    decreases s.len(),
{
    if s.len() > 0 && crate::text::is_ws(s.last()) {
        assert(!s.drop_last().contains(c)) by {
            if s.drop_last().contains(c) {
                let i = choose|i: int| 0 <= i < s.drop_last().len() && s.drop_last()[i] == c;
                assert(s[i] == c);
            }
        }
        lemma_trim_end_keeps_absent(s.drop_last(), c);
    }
}

/// Trimming takes away no character but white space.
proof fn lemma_trim_keeps_absent(s: Seq<char>, c: char)
    requires
        !s.contains(c),
    ensures
        !trim(s).contains(c),
{
    lemma_trim_start_keeps_absent(s, c);
    lemma_trim_end_keeps_absent(crate::text::trim_start(s), c);
}

/// The id field of a mark set line names the file prefix and the code: as
/// `prefix&code`, each part trimmed; without `&`, the whole id is both.
pub proof fn law_mark_set_line_code(
    prefix: Seq<char>,
    code: Seq<char>,
    description: Seq<char>,
    weight: Seq<char>,
    sort_order: nat,
)
    requires
        !prefix.contains(','),
        !prefix.contains('&'),
        !code.contains(','),
        !description.contains(','),
        !weight.contains(','),
        prefix.len() > 0 && !crate::text::is_ws(prefix[0]),
        code.len() > 0 && !crate::text::is_ws(code.last()),
    ensures
        mark_set_line(prefix + seq!['&'] + code + seq![','] + description + seq![','] + weight, sort_order) matches Some(
            m,
        ) && m.file_prefix == trim(prefix) && m.code == trim(code),
        !code.contains('&') ==> (mark_set_line(code + seq![','] + description + seq![','] + weight, sort_order)
            matches Some(m) && m.file_prefix == trim(code) && m.code == trim(code)),
{
    let id = prefix + seq!['&'] + code;
    assert(!id.contains(',')) by {
        if id.contains(',') {
            let i = choose|i: int| 0 <= i < id.len() && id[i] == ',';
            if i < prefix.len() {
                assert(prefix[i] == ',');
            } else if i > prefix.len() {
                assert(code[i - prefix.len() - 1] == ',');
            }
        }
    }
    assert(id + seq![','] + description + seq![','] + weight =~= prefix + seq!['&'] + code + seq![','] + description
        + seq![','] + weight);
    lemma_mark_set_line_split(id, description, weight);
    assert(crate::text::trim_start(id) == id) by {
        assert(id[0] == prefix[0]);
    }
    assert(id.last() == code.last());
    assert(trim(id) == id);
    lemma_trim_idempotent(id);
    lemma_split_concat(prefix, code, '&');
    lemma_split_without_sep(prefix, '&');
    crate::text::lemma_split_on_nonempty(code, '&');
    assert(split_on(id, '&')[0] == prefix);
    assert(id.skip(prefix.len() as int + 1) =~= code);
    if !code.contains('&') {
        lemma_mark_set_line_split(code, description, weight);
        lemma_trim_idempotent(code);
        lemma_trim_keeps_absent(code, '&');
        lemma_split_without_sep(trim(code), '&');
    }
}

} // verus!
