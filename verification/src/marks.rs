//! The mark file of a mark set (`.Yxx` and the like) and the report file
//! that the legacy program exports from it.
//!
//! Numbers that the files hold as decimals (weights, marks, averages) are
//! kept as the text the file writes, once that text is known to be what
//! `str::parse::<f64>` accepts; the application reads them as numbers.
use vstd::prelude::*;
use crate::legacy::{read_lines, trimmed_parts, trimmed_parts_chars};
use crate::lines::{
    find_section, lv, next_keep_empty, next_keep_empty_at, next_non_noise, next_non_noise_at,
    section_index, LegacyError,
};
use crate::num::{
    i64_decimal_padded, int_decimal_padded, is_float_literal, is_float_literal_chars, parse_i32,
    parse_i32_chars, parse_usize, parse_usize_chars,
};
use crate::text::{
    chars_of, contains_chars, contains_seq, eq_ignore_case, eq_ignore_case_chars, starts_with,
    starts_with_chars, string_of_seq, strip_quotes, strip_quotes_chars, text_lines, trim,
    trim_chars, words, words_chars,
};
use crate::csv::{csv_fields, csv_fields_chars};

verus! {

// ---------------------------------------------------------------------------
// Values on one line
// ---------------------------------------------------------------------------

/// A date line `year month day` (white space between, more words allowed
/// after) as `YYYY-MM-DD`, each part zero-padded as `{:04}` and `{:02}`
/// pad it; nothing when a part is missing or is no `i32`.
pub open spec fn date_ymd(s: Seq<char>) -> Option<Seq<char>> {
    let p = words(s);
    if p.len() < 3 {
        None
    } else {
        match (parse_i32(p[0]), parse_i32(p[1]), parse_i32(p[2])) {
            (Some(y), Some(m), Some(d)) => Some(
                int_decimal_padded(y as int, 4) + seq!['-'] + int_decimal_padded(m as int, 2)
                    + seq!['-'] + int_decimal_padded(d as int, 2),
            ),
            _ => None,
        }
    }
}

/// The first `n` comma-separated values of `s`, trimmed, when there are at
/// least `n` and each is a decimal number; nothing otherwise.
pub open spec fn csv_numbers(s: Seq<char>, n: nat) -> Option<Seq<Seq<char>>> {
    let p = trimmed_parts(s);
    if p.len() < n {
        None
    } else if forall|k: int| 0 <= k < n ==> #[trigger] is_float_literal(p[k]) {
        Some(p.take(n as int))
    } else {
        None
    }
}

/// The characters of each string.
pub open spec fn texts(v: Seq<String>) -> Seq<Seq<char>> {
    v.map_values(|x: String| x@)
}

/// `date_ymd` on characters.
pub fn parse_date_ymd(s: &[char]) -> (r: Option<String>)
    ensures
        match r {
            Some(d) => date_ymd(s@) == Some(d@),
            None => date_ymd(s@) is None,
        },
{
    let p = words_chars(s);
    if p.len() < 3 {
        return None;
    }
    let y = match parse_i32_chars(p[0].as_slice()) {
        Some(x) => x,
        None => return None,
    };
    let m = match parse_i32_chars(p[1].as_slice()) {
        Some(x) => x,
        None => return None,
    };
    let d = match parse_i32_chars(p[2].as_slice()) {
        Some(x) => x,
        None => return None,
    };
    let mut out = i64_decimal_padded(y as i64, 4);
    out.push('-');
    let mv = i64_decimal_padded(m as i64, 2);
    let mut k: usize = 0;
    let ghost head = out@;
    while k < mv.len()
        invariant
            k <= mv@.len(),
            out@ == head + mv@.take(k as int),
        decreases mv@.len() - k,
    {
        out.push(mv[k]);
        k += 1;
        assert(mv@.take(k as int) == mv@.take(k - 1).push(mv@[k - 1]));
    }
    assert(mv@.take(mv@.len() as int) == mv@);
    out.push('-');
    let dv = i64_decimal_padded(d as i64, 2);
    let ghost head2 = out@;
    k = 0;
    while k < dv.len()
        invariant
            k <= dv@.len(),
            out@ == head2 + dv@.take(k as int),
        decreases dv@.len() - k,
    {
        out.push(dv[k]);
        k += 1;
        assert(dv@.take(k as int) == dv@.take(k - 1).push(dv@[k - 1]));
    }
    assert(dv@.take(dv@.len() as int) == dv@);
    Some(string_of_seq(&out))
}

/// `csv_numbers` on characters.
pub fn parse_csv_numbers(s: &[char], n: usize) -> (r: Option<Vec<String>>)
    ensures
        match r {
            Some(v) => csv_numbers(s@, n as nat) == Some(texts(v@)) && v@.len() == n,
            None => csv_numbers(s@, n as nat) is None,
        },
{
    let p = trimmed_parts_chars(s);
    if p.len() < n {
        return None;
    }
    let mut out: Vec<String> = Vec::new();
    let mut k: usize = 0;
    while k < n
        invariant
            k <= n <= p@.len() == trimmed_parts(s@).len(),
            forall|j: int| 0 <= j < p@.len() ==> #[trigger] p@[j]@ == trimmed_parts(s@)[j],
            out@.len() == k,
            forall|j: int| 0 <= j < k ==> #[trigger] out@[j]@ == trimmed_parts(s@)[j],
            forall|j: int| 0 <= j < k ==> #[trigger] is_float_literal(trimmed_parts(s@)[j]),
        decreases n - k,
    {
        if !is_float_literal_chars(p[k].as_slice()) {
            assert(!is_float_literal(trimmed_parts(s@)[k as int]));
            return None;
        }
        out.push(string_of_seq(&p[k]));
        k += 1;
    }
    assert(texts(out@) =~= trimmed_parts(s@).take(n as int));
    Some(out)
}

// ---------------------------------------------------------------------------
// The mark file
// ---------------------------------------------------------------------------

/// A category of assessments and its weight, as the file writes it.
pub struct ParsedCategory {
    pub name: String,
    pub weight: String,
}

/// One assessment: its place in the file, its date as `YYYY-MM-DD`, its
/// category, title and term, the five values of its summary line (kind,
/// weight, average percent, out-of, average raw mark) and one raw mark per
/// student, each as the file writes it.
pub struct ParsedAssessment {
    pub idx: usize,
    pub date: String,
    pub category_name: String,
    pub title: String,
    pub term: i32,
    pub legacy_kind: String,
    pub weight: String,
    pub out_of: String,
    pub avg_percent: String,
    pub avg_raw: String,
    pub raw_scores: Vec<String>,
}

/// The `[Misc Info]` block: class code, room, day, period, weighting and
/// calculation methods, and a serial value kept where it is a number.
pub struct ParsedMiscInfo {
    pub full_code: String,
    pub room: String,
    pub day: String,
    pub period: String,
    pub weight_method: i32,
    pub calc_method: i32,
    pub legacy_serial: Option<String>,
}

/// A mark file.
pub struct ParsedMarkFile {
    pub misc: Option<ParsedMiscInfo>,
    pub categories: Vec<ParsedCategory>,
    pub last_student: usize,
    pub assessments: Vec<ParsedAssessment>,
}

pub struct CategoryModel {
    pub name: Seq<char>,
    pub weight: Seq<char>,
}

pub struct AssessmentModel {
    pub idx: nat,
    pub date: Seq<char>,
    pub category_name: Seq<char>,
    pub title: Seq<char>,
    pub term: i32,
    pub legacy_kind: Seq<char>,
    pub weight: Seq<char>,
    pub out_of: Seq<char>,
    pub avg_percent: Seq<char>,
    pub avg_raw: Seq<char>,
    pub raw_scores: Seq<Seq<char>>,
}

pub struct MiscModel {
    pub full_code: Seq<char>,
    pub room: Seq<char>,
    pub day: Seq<char>,
    pub period: Seq<char>,
    pub weight_method: i32,
    pub calc_method: i32,
    pub legacy_serial: Option<Seq<char>>,
}

pub struct MarkModel {
    pub misc: Option<MiscModel>,
    pub categories: Seq<CategoryModel>,
    pub last_student: nat,
    pub assessments: Seq<AssessmentModel>,
}

pub open spec fn opt_text(o: Option<String>) -> Option<Seq<char>> {
    match o {
        Some(s) => Some(s@),
        None => None,
    }
}

impl View for ParsedCategory {
    type V = CategoryModel;

    open spec fn view(&self) -> CategoryModel {
        CategoryModel { name: self.name@, weight: self.weight@ }
    }
}

impl View for ParsedAssessment {
    type V = AssessmentModel;

    open spec fn view(&self) -> AssessmentModel {
        AssessmentModel {
            idx: self.idx as nat,
            date: self.date@,
            category_name: self.category_name@,
            title: self.title@,
            term: self.term,
            legacy_kind: self.legacy_kind@,
            weight: self.weight@,
            out_of: self.out_of@,
            avg_percent: self.avg_percent@,
            avg_raw: self.avg_raw@,
            raw_scores: texts(self.raw_scores@),
        }
    }
}

impl View for ParsedMiscInfo {
    type V = MiscModel;

    open spec fn view(&self) -> MiscModel {
        MiscModel {
            full_code: self.full_code@,
            room: self.room@,
            day: self.day@,
            period: self.period@,
            weight_method: self.weight_method,
            calc_method: self.calc_method,
            legacy_serial: opt_text(self.legacy_serial),
        }
    }
}

impl View for ParsedMarkFile {
    type V = MarkModel;

    open spec fn view(&self) -> MarkModel {
        MarkModel {
            misc: match self.misc {
                Some(m) => Some(m@),
                None => None,
            },
            categories: self.categories@.map_values(|c: ParsedCategory| c@),
            last_student: self.last_student as nat,
            assessments: self.assessments@.map_values(|a: ParsedAssessment| a@),
        }
    }
}

/// Line `j` as `next_keep_empty` reads it, or blank past the end.
pub open spec fn kept_or_blank(ls: Seq<Seq<char>>, j: int) -> Seq<char> {
    match next_keep_empty(ls, j).0 {
        Some(v) => v,
        None => Seq::empty(),
    }
}

/// Line `j` read as an `i32`, or `d` where it is absent or no `i32`.
pub open spec fn kept_i32_or(ls: Seq<Seq<char>>, j: int, d: i32) -> i32 {
    match next_keep_empty(ls, j).0 {
        Some(v) => match parse_i32(trim(v)) {
            Some(x) => x,
            None => d,
        },
        None => d,
    }
}

/// The `[Misc Info]` block from line `m`: eight lines read in turn, each
/// blank ones included: class code, room, day, period, weighting method
/// (1 where absent or no `i32`), a serial value (kept where it is a
/// number), calculation method (0 where absent or no `i32`), and one line
/// unused.
pub open spec fn misc_at(ls: Seq<Seq<char>>, m: int) -> MiscModel {
    MiscModel {
        full_code: kept_or_blank(ls, m),
        room: kept_or_blank(ls, m + 1),
        day: kept_or_blank(ls, m + 2),
        period: kept_or_blank(ls, m + 3),
        weight_method: kept_i32_or(ls, m + 4, 1),
        calc_method: kept_i32_or(ls, m + 6, 0),
        legacy_serial: match next_keep_empty(ls, m + 5).0 {
            Some(v) => if is_float_literal(v) {
                Some(v)
            } else {
                None
            },
            None => None,
        },
    }
}

/// The count on the first value after header line `h`.
pub open spec fn count_following(ls: Seq<Seq<char>>, h: int) -> Result<(nat, int), LegacyError> {
    match next_non_noise(ls, h + 1) {
        (None, _) => Err(LegacyError::MissingValue),
        (Some(v), i) => match parse_usize(trim(v)) {
            None => Err(LegacyError::BadNumber),
            Some(n) => Ok((n as nat, i)),
        },
    }
}

/// A category line `name,weight,...`.
pub open spec fn category_step(ls: Seq<Seq<char>>, j: int) -> Result<(CategoryModel, int), LegacyError> {
    match next_non_noise(ls, j) {
        (None, _) => Err(LegacyError::UnexpectedEof),
        (Some(l), k) => {
            let p = trimmed_parts(l);
            if p.len() < 2 {
                Err(LegacyError::BadLine)
            } else {
                Ok((CategoryModel { name: p[0], weight: p[1] }, k))
            }
        },
    }
}

/// `n` categories from line `i`.
pub open spec fn mark_categories(ls: Seq<Seq<char>>, i: int, n: nat) -> Result<
    (Seq<CategoryModel>, int),
    LegacyError,
>
    decreases n,
{
    if n == 0 {
        Ok((Seq::empty(), i))
    } else {
        match mark_categories(ls, i, (n - 1) as nat) {
            Err(e) => Err(e),
            Ok((cs, j)) => match category_step(ls, j) {
                Err(e) => Err(e),
                Ok((c, k)) => Ok((cs.push(c), k)),
            },
        }
    }
}

/// A student's mark line `number,raw,...`: its raw mark.
pub open spec fn score_step(ls: Seq<Seq<char>>, j: int) -> Result<(Seq<char>, int), LegacyError> {
    match next_non_noise(ls, j) {
        (None, _) => Err(LegacyError::UnexpectedEof),
        (Some(l), k) => match csv_numbers(l, 2) {
            None => Err(LegacyError::BadLine),
            Some(v) => Ok((v[1], k)),
        },
    }
}

/// `n` raw marks from line `i`.
pub open spec fn raw_scores(ls: Seq<Seq<char>>, i: int, n: nat) -> Result<
    (Seq<Seq<char>>, int),
    LegacyError,
>
    decreases n,
{
    if n == 0 {
        Ok((Seq::empty(), i))
    } else {
        match raw_scores(ls, i, (n - 1) as nat) {
            Err(e) => Err(e),
            Ok((rs, j)) => match score_step(ls, j) {
                Err(e) => Err(e),
                Ok((r, k)) => Ok((rs.push(r), k)),
            },
        }
    }
}

/// Assessment number `idx` from line `i`: date, category, title, term and
/// summary lines, then `n` mark lines.
pub open spec fn assessment_at(ls: Seq<Seq<char>>, i: int, idx: nat, n: nat) -> Result<
    (AssessmentModel, int),
    LegacyError,
> {
    match next_non_noise(ls, i) {
        (None, _) => Err(LegacyError::UnexpectedEof),
        (Some(dl), i1) => match date_ymd(dl) {
            None => Err(LegacyError::BadLine),
            Some(date) => match next_non_noise(ls, i1) {
                (None, _) => Err(LegacyError::UnexpectedEof),
                (Some(cat), i2) => match next_non_noise(ls, i2) {
                    (None, _) => Err(LegacyError::UnexpectedEof),
                    (Some(title), i3) => match next_non_noise(ls, i3) {
                        (None, _) => Err(LegacyError::UnexpectedEof),
                        (Some(tl), i4) => match next_non_noise(ls, i4) {
                            (None, _) => Err(LegacyError::UnexpectedEof),
                            (Some(sl), i5) => match csv_numbers(sl, 5) {
                                None => Err(LegacyError::BadLine),
                                Some(sm) => match raw_scores(ls, i5, n) {
                                    Err(e) => Err(e),
                                    Ok((rs, i6)) => Ok(
                                        (
                                            AssessmentModel {
                                                idx,
                                                date,
                                                category_name: cat,
                                                title,
                                                term: match parse_i32(trim(tl)) {
                                                    Some(t) => t,
                                                    None => 0,
                                                },
                                                legacy_kind: sm[0],
                                                weight: sm[1],
                                                avg_percent: sm[2],
                                                out_of: sm[3],
                                                avg_raw: sm[4],
                                                raw_scores: rs,
                                            },
                                            i6,
                                        ),
                                    ),
                                },
                            },
                        },
                    },
                },
            },
        },
    }
}

/// `m` assessments from line `i`, numbered from 0, with `n` marks each.
pub open spec fn mark_assessments(ls: Seq<Seq<char>>, i: int, m: nat, n: nat) -> Result<
    (Seq<AssessmentModel>, int),
    LegacyError,
>
    decreases m,
{
    if m == 0 {
        Ok((Seq::empty(), i))
    } else {
        match mark_assessments(ls, i, (m - 1) as nat, n) {
            Err(e) => Err(e),
            Ok((xs, j)) => match assessment_at(ls, j, (m - 1) as nat, n) {
                Err(e) => Err(e),
                Ok((x, k)) => Ok((xs.push(x), k)),
            },
        }
    }
}

/// A mark file: the optional `[Misc Info]` block; then, once the headers
/// `[Categories]`, `[LastStudent]` and `[Marks]` are all found, the
/// category count and categories, the student count, the assessment count
/// and the assessments.
pub open spec fn mark_spec(ls: Seq<Seq<char>>) -> Result<MarkModel, LegacyError> {
    let misc = match section_index(ls, "Misc Info"@) {
        Some(mi) => Some(misc_at(ls, mi + 1)),
        None => None,
    };
    match (
        section_index(ls, "Categories"@),
        section_index(ls, "LastStudent"@),
        section_index(ls, "Marks"@),
    ) {
        (Some(ci), Some(li), Some(mk)) => match count_following(ls, ci) {
            Err(e) => Err(e),
            Ok((cn, i)) => match mark_categories(ls, i, cn) {
                Err(e) => Err(e),
                Ok((cats, _)) => match count_following(ls, li) {
                    Err(e) => Err(e),
                    Ok((n, _)) => match count_following(ls, mk) {
                        Err(e) => Err(e),
                        Ok((m, k)) => match mark_assessments(ls, k, m, n) {
                            Err(e) => Err(e),
                            Ok((xs, _)) => Ok(
                                MarkModel { misc, categories: cats, last_student: n, assessments: xs },
                            ),
                        },
                    },
                },
            },
        },
        _ => Err(LegacyError::MissingSection),
    }
}

/// Line `m + k`, as `next_keep_empty` reads it.
fn kept_line(lines: &Vec<Vec<char>>, m: usize, k: usize) -> (r: Option<Vec<char>>)
    requires
        m <= lines@.len(),
    ensures
        opt_chars_of(r) == next_keep_empty(lv(lines@), m + k).0,
{
    if k < lines.len() - m {
        let (v, _) = next_keep_empty_at(lines, m + k);
        v
    } else {
        None
    }
}

pub open spec fn opt_chars_of(o: Option<Vec<char>>) -> Option<Seq<char>> {
    match o {
        Some(v) => Some(v@),
        None => None,
    }
}

/// `kept_or_blank` on lines.
fn kept_or_blank_at(lines: &Vec<Vec<char>>, m: usize, k: usize) -> (r: String)
    requires
        m <= lines@.len(),
    ensures
        r@ == kept_or_blank(lv(lines@), m + k),
{
    match kept_line(lines, m, k) {
        Some(v) => string_of_seq(&v),
        None => String::new(),
    }
}

/// `kept_i32_or` on lines.
fn kept_i32_or_at(lines: &Vec<Vec<char>>, m: usize, k: usize, d: i32) -> (r: i32)
    requires
        m <= lines@.len(),
    ensures
        r == kept_i32_or(lv(lines@), m + k, d),
{
    match kept_line(lines, m, k) {
        Some(v) => {
            let t = trim_chars(v.as_slice());
            match parse_i32_chars(t.as_slice()) {
                Some(x) => x,
                None => d,
            }
        },
        None => d,
    }
}

/// `misc_at` on lines.
fn read_misc(lines: &Vec<Vec<char>>, m: usize) -> (r: ParsedMiscInfo)
    requires
        m <= lines@.len(),
    ensures
        r@ == misc_at(lv(lines@), m as int),
{
    let serial = match kept_line(lines, m, 5) {
        Some(v) => if is_float_literal_chars(v.as_slice()) {
            Some(string_of_seq(&v))
        } else {
            None
        },
        None => None,
    };
    ParsedMiscInfo {
        full_code: kept_or_blank_at(lines, m, 0),
        room: kept_or_blank_at(lines, m, 1),
        day: kept_or_blank_at(lines, m, 2),
        period: kept_or_blank_at(lines, m, 3),
        weight_method: kept_i32_or_at(lines, m, 4, 1),
        calc_method: kept_i32_or_at(lines, m, 6, 0),
        legacy_serial: serial,
    }
}

/// `count_following` on lines.
fn read_count_following(lines: &Vec<Vec<char>>, h: usize) -> (r: Result<(usize, usize), LegacyError>)
    requires
        h < lines.len(),
    ensures
        match r {
            Ok((n, i)) => count_following(lv(lines@), h as int) == Ok::<(nat, int), LegacyError>(
                (n as nat, i as int),
            ),
            Err(e) => count_following(lv(lines@), h as int) == Err::<(nat, int), LegacyError>(e),
        },
{
    let (v, i) = next_non_noise_at(lines, h + 1);
    match v {
        None => Err(LegacyError::MissingValue),
        Some(v) => {
            let t = trim_chars(v.as_slice());
            match parse_usize_chars(t.as_slice()) {
                None => Err(LegacyError::BadNumber),
                Some(n) => Ok((n, i)),
            }
        },
    }
}

/// `category_step` on lines.
fn read_category(lines: &Vec<Vec<char>>, j: usize) -> (r: Result<(ParsedCategory, usize), LegacyError>)
    ensures
        match r {
            Ok((c, k)) => category_step(lv(lines@), j as int) == Ok::<(CategoryModel, int), LegacyError>(
                (c@, k as int),
            ),
            Err(e) => category_step(lv(lines@), j as int) == Err::<(CategoryModel, int), LegacyError>(e),
        },
{
    let (l, k) = next_non_noise_at(lines, j);
    match l {
        None => Err(LegacyError::UnexpectedEof),
        Some(l) => {
            let p = trimmed_parts_chars(l.as_slice());
            if p.len() < 2 {
                Err(LegacyError::BadLine)
            } else {
                Ok((ParsedCategory { name: string_of_seq(&p[0]), weight: string_of_seq(&p[1]) }, k))
            }
        },
    }
}

proof fn lemma_categories_err(ls: Seq<Seq<char>>, i: int, c: nat, n: nat)
    requires
        c <= n,
        mark_categories(ls, i, c) is Err,
    ensures
        mark_categories(ls, i, n) == mark_categories(ls, i, c),
    decreases n - c,
{
    if c < n {
        lemma_categories_err(ls, i, c + 1, n);
    }
}

/// `mark_categories` on lines.
fn read_categories(lines: &Vec<Vec<char>>, i: usize, n: usize) -> (r: Result<Vec<ParsedCategory>, LegacyError>)
    ensures
        match r {
            Ok(cs) => mark_categories(lv(lines@), i as int, n as nat) matches Ok((v, _))
                && v == cs@.map_values(|c: ParsedCategory| c@),
            Err(e) => mark_categories(lv(lines@), i as int, n as nat) == Err::<
                (Seq<CategoryModel>, int),
                LegacyError,
            >(e),
        },
{
    let ghost ls = lv(lines@);
    let mut cs: Vec<ParsedCategory> = Vec::new();
    let mut j = i;
    let mut c: usize = 0;
    assert(cs@.map_values(|c: ParsedCategory| c@) =~= Seq::<CategoryModel>::empty());
    while c < n
        invariant
            ls == lv(lines@),
            c <= n,
            mark_categories(ls, i as int, c as nat) == Ok::<(Seq<CategoryModel>, int), LegacyError>(
                (cs@.map_values(|c: ParsedCategory| c@), j as int),
            ),
        decreases n - c,
    {
        match read_category(lines, j) {
            Err(e) => {
                proof {
                    lemma_categories_err(ls, i as int, (c + 1) as nat, n as nat);
                }
                return Err(e);
            },
            Ok((x, k)) => {
                let ghost before = cs@.map_values(|c: ParsedCategory| c@);
                let ghost xv = x@;
                cs.push(x);
                assert(cs@.map_values(|c: ParsedCategory| c@) == before.push(xv));
                j = k;
                c += 1;
            },
        }
    }
    Ok(cs)
}

/// `score_step` on lines.
fn read_score(lines: &Vec<Vec<char>>, j: usize) -> (r: Result<(String, usize), LegacyError>)
    ensures
        match r {
            Ok((v, k)) => score_step(lv(lines@), j as int) == Ok::<(Seq<char>, int), LegacyError>(
                (v@, k as int),
            ),
            Err(e) => score_step(lv(lines@), j as int) == Err::<(Seq<char>, int), LegacyError>(e),
        },
{
    let (l, k) = next_non_noise_at(lines, j);
    match l {
        None => Err(LegacyError::UnexpectedEof),
        Some(l) => match parse_csv_numbers(l.as_slice(), 2) {
            None => Err(LegacyError::BadLine),
            Some(v) => {
                assert(texts(v@)[1] == v@[1]@);
                let raw = v[1].clone();
                Ok((raw, k))
            },
        },
    }
}

proof fn lemma_scores_err(ls: Seq<Seq<char>>, i: int, c: nat, n: nat)
    requires
        c <= n,
        raw_scores(ls, i, c) is Err,
    ensures
        raw_scores(ls, i, n) == raw_scores(ls, i, c),
    decreases n - c,
{
    if c < n {
        lemma_scores_err(ls, i, c + 1, n);
    }
}

/// `raw_scores` on lines.
fn read_raw_scores(lines: &Vec<Vec<char>>, i: usize, n: usize) -> (r: Result<
    (Vec<String>, usize),
    LegacyError,
>)
    ensures
        match r {
            Ok((v, k)) => raw_scores(lv(lines@), i as int, n as nat) == Ok::<
                (Seq<Seq<char>>, int),
                LegacyError,
            >((texts(v@), k as int)),
            Err(e) => raw_scores(lv(lines@), i as int, n as nat) == Err::<
                (Seq<Seq<char>>, int),
                LegacyError,
            >(e),
        },
{
    let ghost ls = lv(lines@);
    let mut v: Vec<String> = Vec::new();
    let mut j = i;
    let mut c: usize = 0;
    assert(texts(v@) =~= Seq::<Seq<char>>::empty());
    while c < n
        invariant
            ls == lv(lines@),
            c <= n,
            raw_scores(ls, i as int, c as nat) == Ok::<(Seq<Seq<char>>, int), LegacyError>(
                (texts(v@), j as int),
            ),
        decreases n - c,
    {
        match read_score(lines, j) {
            Err(e) => {
                proof {
                    lemma_scores_err(ls, i as int, (c + 1) as nat, n as nat);
                }
                return Err(e);
            },
            Ok((x, k)) => {
                let ghost before = texts(v@);
                let ghost xv = x@;
                v.push(x);
                assert(texts(v@) == before.push(xv));
                j = k;
                c += 1;
            },
        }
    }
    Ok((v, j))
}

/// The next value at or after line `i`, or the end of the file.
fn next_value(lines: &Vec<Vec<char>>, i: usize) -> (r: Result<(Vec<char>, usize), LegacyError>)
    ensures
        match r {
            Ok((v, k)) => next_non_noise(lv(lines@), i as int) == (Some(v@), k as int),
            Err(e) => e == LegacyError::UnexpectedEof && next_non_noise(lv(lines@), i as int).0 is None,
        },
{
    let (v, k) = next_non_noise_at(lines, i);
    match v {
        Some(v) => Ok((v, k)),
        None => Err(LegacyError::UnexpectedEof),
    }
}

/// `assessment_at` on lines.
fn read_assessment(lines: &Vec<Vec<char>>, i: usize, idx: usize, n: usize) -> (r: Result<
    (ParsedAssessment, usize),
    LegacyError,
>)
    ensures
        match r {
            Ok((a, k)) => assessment_at(lv(lines@), i as int, idx as nat, n as nat) == Ok::<
                (AssessmentModel, int),
                LegacyError,
            >((a@, k as int)),
            Err(e) => assessment_at(lv(lines@), i as int, idx as nat, n as nat) == Err::<
                (AssessmentModel, int),
                LegacyError,
            >(e),
        },
{
    let (dl, i1) = next_value(lines, i)?;
    let date = match parse_date_ymd(dl.as_slice()) {
        Some(d) => d,
        None => return Err(LegacyError::BadLine),
    };
    let (cat, i2) = next_value(lines, i1)?;
    let (title, i3) = next_value(lines, i2)?;
    let (tl, i4) = next_value(lines, i3)?;
    let (sl, i5) = next_value(lines, i4)?;
    let sm = match parse_csv_numbers(sl.as_slice(), 5) {
        Some(v) => v,
        None => return Err(LegacyError::BadLine),
    };
    let (rs, i6) = read_raw_scores(lines, i5, n)?;
    let tt = trim_chars(tl.as_slice());
    let term = match parse_i32_chars(tt.as_slice()) {
        Some(t) => t,
        None => 0,
    };
    assert(texts(sm@)[0] == sm@[0]@ && texts(sm@)[1] == sm@[1]@ && texts(sm@)[2] == sm@[2]@
        && texts(sm@)[3] == sm@[3]@ && texts(sm@)[4] == sm@[4]@);
    let a = ParsedAssessment {
        idx,
        date,
        category_name: string_of_seq(&cat),
        title: string_of_seq(&title),
        term,
        legacy_kind: sm[0].clone(),
        weight: sm[1].clone(),
        out_of: sm[3].clone(),
        avg_percent: sm[2].clone(),
        avg_raw: sm[4].clone(),
        raw_scores: rs,
    };
    Ok((a, i6))
}

proof fn lemma_assessments_err(ls: Seq<Seq<char>>, i: int, c: nat, m: nat, n: nat)
    requires
        c <= m,
        mark_assessments(ls, i, c, n) is Err,
    ensures
        mark_assessments(ls, i, m, n) == mark_assessments(ls, i, c, n),
    decreases m - c,
{
    if c < m {
        lemma_assessments_err(ls, i, c + 1, m, n);
    }
}

/// `mark_assessments` on lines.
fn read_assessments(lines: &Vec<Vec<char>>, i: usize, m: usize, n: usize) -> (r: Result<
    Vec<ParsedAssessment>,
    LegacyError,
>)
    ensures
        match r {
            Ok(xs) => mark_assessments(lv(lines@), i as int, m as nat, n as nat) matches Ok((v, _))
                && v == xs@.map_values(|a: ParsedAssessment| a@),
            Err(e) => mark_assessments(lv(lines@), i as int, m as nat, n as nat) == Err::<
                (Seq<AssessmentModel>, int),
                LegacyError,
            >(e),
        },
{
    let ghost ls = lv(lines@);
    let mut xs: Vec<ParsedAssessment> = Vec::new();
    let mut j = i;
    let mut c: usize = 0;
    assert(xs@.map_values(|a: ParsedAssessment| a@) =~= Seq::<AssessmentModel>::empty());
    while c < m
        invariant
            ls == lv(lines@),
            c <= m,
            mark_assessments(ls, i as int, c as nat, n as nat) == Ok::<
                (Seq<AssessmentModel>, int),
                LegacyError,
            >((xs@.map_values(|a: ParsedAssessment| a@), j as int)),
        decreases m - c,
    {
        match read_assessment(lines, j, c, n) {
            Err(e) => {
                proof {
                    lemma_assessments_err(ls, i as int, (c + 1) as nat, m as nat, n as nat);
                }
                return Err(e);
            },
            Ok((x, k)) => {
                let ghost before = xs@.map_values(|a: ParsedAssessment| a@);
                let ghost xv = x@;
                xs.push(x);
                assert(xs@.map_values(|a: ParsedAssessment| a@) == before.push(xv));
                j = k;
                c += 1;
            },
        }
    }
    Ok(xs)
}

/// The mark file of a mark set, read from its text.
pub fn parse_legacy_mark_text(text: &str) -> (r: Result<ParsedMarkFile, LegacyError>)
    ensures
        match r {
            Ok(f) => mark_spec(text_lines(text@)) == Ok::<MarkModel, LegacyError>(f@),
            Err(e) => mark_spec(text_lines(text@)) == Err::<MarkModel, LegacyError>(e),
        },
{
    let lines = read_lines(text);
    let ghost ls = lv(lines@);
    let misc = match find_section(&lines, "Misc Info") {
        Some(mi) => Some(read_misc(&lines, mi + 1)),
        None => None,
    };
    let ci = match find_section(&lines, "Categories") {
        Some(x) => x,
        None => return Err(LegacyError::MissingSection),
    };
    let li = match find_section(&lines, "LastStudent") {
        Some(x) => x,
        None => return Err(LegacyError::MissingSection),
    };
    let mk = match find_section(&lines, "Marks") {
        Some(x) => x,
        None => return Err(LegacyError::MissingSection),
    };
    let (cn, i) = read_count_following(&lines, ci)?;
    let categories = read_categories(&lines, i, cn)?;
    let (n, _) = read_count_following(&lines, li)?;
    let (m, k) = read_count_following(&lines, mk)?;
    let assessments = read_assessments(&lines, k, m, n)?;
    let f = ParsedMarkFile { misc, categories, last_student: n, assessments };
    assert(f@.misc == match section_index(ls, "Misc Info"@) {
        Some(mi) => Some(misc_at(ls, mi + 1)),
        None => None::<MiscModel>,
    });
    Ok(f)
}

// ---------------------------------------------------------------------------
// The exported report file
// ---------------------------------------------------------------------------

/// A block of the report: its title, its out-of value and the values under
/// it (most often one leading summary row and then one row per student),
/// each as the file writes it.
pub struct ParsedLegacyExportBlock {
    pub title: String,
    pub out_of: String,
    pub values: Vec<String>,
}

/// A report file: the student count and the blocks.
pub struct ParsedLegacyExportFile {
    pub last_student: usize,
    pub blocks: Vec<ParsedLegacyExportBlock>,
}

pub struct ExportBlockModel {
    pub title: Seq<char>,
    pub out_of: Seq<char>,
    pub values: Seq<Seq<char>>,
}

pub struct ExportModel {
    pub last_student: nat,
    pub blocks: Seq<ExportBlockModel>,
}

impl View for ParsedLegacyExportBlock {
    type V = ExportBlockModel;

    open spec fn view(&self) -> ExportBlockModel {
        ExportBlockModel { title: self.title@, out_of: self.out_of@, values: texts(self.values@) }
    }
}

impl View for ParsedLegacyExportFile {
    type V = ExportModel;

    open spec fn view(&self) -> ExportModel {
        ExportModel {
            last_student: self.last_student as nat,
            blocks: self.blocks@.map_values(|b: ParsedLegacyExportBlock| b@),
        }
    }
}

/// A line that starts with `[` and ends with `]`.
pub open spec fn is_bracket_line(l: Seq<char>) -> bool {
    l.len() > 0 && l[0] == '[' && l.last() == ']'
}

/// The heading lines of a report, which hold no block.
pub open spec fn is_report_heading(l: Seq<char>) -> bool {
    ||| contains_seq(l, "Folder:"@)
    ||| starts_with(l, "Mark File:"@)
    ||| starts_with(l, "This file belongs"@)
}

/// Whether line `i`, stripped of its quotes, is `[LastStudent]` in any case.
pub open spec fn is_count_header(ls: Seq<Seq<char>>, i: int) -> bool {
    eq_ignore_case(strip_quotes(ls[i]), "[LastStudent]"@)
}

/// The student count of a report: the first value after the first
/// `[LastStudent]` line, read as a count; 0 where any of it is missing.
pub open spec fn export_last_student(ls: Seq<Seq<char>>) -> nat {
    if exists|i: int| 0 <= i < ls.len() && is_count_header(ls, i) {
        let h = choose|i: int|
            0 <= i < ls.len() && is_count_header(ls, i) && forall|j: int|
                0 <= j < i ==> !is_count_header(ls, j);
        match next_non_noise(ls, h + 1).0 {
            Some(v) => match parse_usize(v) {
                Some(n) => n as nat,
                None => 0,
            },
            None => 0,
        }
    } else {
        0
    }
}

/// The out-of value of a block whose title stands just before line `c`:
/// the first field of the first line that is not blank, where it is a
/// number, and the line after it; where that line is a `[...]` line, no
/// value and the line after it; where its first field is no number, no
/// value and that line itself, to be read again as a title.
pub open spec fn out_of_scan(ls: Seq<Seq<char>>, c: int) -> (Option<Seq<char>>, int)
    decreases ls.len() - c,
{
    if c < 0 || c >= ls.len() {
        (None, c)
    } else {
        let cand = strip_quotes(ls[c]);
        if cand.len() == 0 {
            out_of_scan(ls, c + 1)
        } else if is_bracket_line(cand) {
            (None, c + 1)
        } else {
            let f = csv_fields(cand);
            if f.len() == 0 {
                out_of_scan(ls, c + 1)
            } else if is_float_literal(trim(f[0])) {
                (Some(trim(f[0])), c + 1)
            } else {
                (None, c)
            }
        }
    }
}

/// The values of a block from line `c`, after `acc`: lines that are
/// numbers, blank lines skipped, until `cap` values are read or a line
/// that is no number (left to be read next).
pub open spec fn values_scan(ls: Seq<Seq<char>>, c: int, cap: nat, acc: Seq<Seq<char>>) -> (
    Seq<Seq<char>>,
    int,
)
    decreases ls.len() - c,
{
    if c < 0 || c >= ls.len() || acc.len() >= cap {
        (acc, c)
    } else {
        let cand = strip_quotes(ls[c]);
        if cand.len() == 0 {
            values_scan(ls, c + 1, cap, acc)
        } else if is_bracket_line(cand) {
            (acc, c)
        } else if is_float_literal(cand) {
            values_scan(ls, c + 1, cap, acc.push(cand))
        } else {
            (acc, c)
        }
    }
}

pub proof fn lemma_out_of_scan_bounds(ls: Seq<Seq<char>>, c: int)
    requires
        0 <= c <= ls.len(),
    ensures
        c <= out_of_scan(ls, c).1 <= ls.len(),
    decreases ls.len() - c,
{
    if c < ls.len() {
        lemma_out_of_scan_bounds(ls, c + 1);
    }
}

pub proof fn lemma_values_scan_bounds(ls: Seq<Seq<char>>, c: int, cap: nat, acc: Seq<Seq<char>>)
    requires
        0 <= c <= ls.len(),
    ensures
        c <= values_scan(ls, c, cap, acc).1 <= ls.len(),
    decreases ls.len() - c,
{
    if c < ls.len() && acc.len() < cap {
        let cand = strip_quotes(ls[c]);
        if cand.len() == 0 {
            lemma_values_scan_bounds(ls, c + 1, cap, acc);
        } else if is_float_literal(cand) && !is_bracket_line(cand) {
            lemma_values_scan_bounds(ls, c + 1, cap, acc.push(cand));
        }
    }
}

/// The blocks of a report from line `c`, after `acc`. A line that is
/// blank, a `[...]` line or a heading is passed over; any other line is a
/// title, followed by its out-of value (`out_of_scan`) and its values
/// (`values_scan`, at most `cap`). A title without an out-of value gives no
/// block, and neither does one without values.
pub open spec fn export_blocks(ls: Seq<Seq<char>>, c: int, cap: nat, acc: Seq<ExportBlockModel>) -> Seq<
    ExportBlockModel,
>
    decreases ls.len() - c,
{
    if c < 0 || c >= ls.len() {
        acc
    } else {
        let line = strip_quotes(ls[c]);
        if line.len() == 0 || is_bracket_line(line) || is_report_heading(line) {
            export_blocks(ls, c + 1, cap, acc)
        } else {
            proof {
                lemma_out_of_scan_bounds(ls, c + 1);
            }
            let (o, c2) = out_of_scan(ls, c + 1);
            match o {
                None => export_blocks(ls, c2, cap, acc),
                Some(out_of) => {
                    proof {
                        lemma_values_scan_bounds(ls, c2, cap, Seq::empty());
                    }
                    let (vals, c3) = values_scan(ls, c2, cap, Seq::empty());
                    export_blocks(
                        ls,
                        c3,
                        cap,
                        if vals.len() > 0 {
                            acc.push(ExportBlockModel { title: line, out_of, values: vals })
                        } else {
                            acc
                        },
                    )
                },
            }
        }
    }
}

/// A report file: its student count, which must be above 0, and the blocks
/// read from its first line with at most one value more than the count.
pub open spec fn export_spec(ls: Seq<Seq<char>>) -> Result<ExportModel, LegacyError> {
    let n = export_last_student(ls);
    if n == 0 {
        Err(LegacyError::MissingSection)
    } else {
        Ok(ExportModel { last_student: n, blocks: export_blocks(ls, 0, n + 1, Seq::empty()) })
    }
}

/// `export_last_student` on lines.
fn read_export_last_student(lines: &Vec<Vec<char>>) -> (r: usize)
    ensures
        r as nat == export_last_student(lv(lines@)),
{
    let ghost ls = lv(lines@);
    let header = chars_of("[LastStudent]");
    let mut i: usize = 0;
    while i < lines.len()
        invariant
            i <= lines@.len() == ls.len(),
            ls == lv(lines@),
            header@ == "[LastStudent]"@,
            forall|j: int| 0 <= j < i ==> !is_count_header(ls, j),
        decreases lines@.len() - i,
    {
        let t = strip_quotes_chars(lines[i].as_slice());
        if eq_ignore_case_chars(t.as_slice(), header.as_slice()) {
            assert(is_count_header(ls, i as int));
            proof {
                let h = choose|h: int|
                    0 <= h < ls.len() && is_count_header(ls, h) && forall|j: int|
                        0 <= j < h ==> !is_count_header(ls, j);
                assert(h == i);
            }
            let (v, _) = next_non_noise_at(lines, i + 1);
            return match v {
                Some(v) => match parse_usize_chars(v.as_slice()) {
                    Some(n) => n,
                    None => 0,
                },
                None => 0,
            };
        }
        i += 1;
    }
    0
}

/// `out_of_scan` on lines.
fn scan_out_of(lines: &Vec<Vec<char>>, c: usize) -> (r: (Option<String>, usize))
    ensures
        out_of_scan(lv(lines@), c as int) == (opt_text(r.0), r.1 as int),
{
    let ghost ls = lv(lines@);
    let mut k = c;
    while k < lines.len()
        invariant
            c <= k,
            ls == lv(lines@),
            out_of_scan(ls, c as int) == out_of_scan(ls, k as int),
        decreases lines@.len() - k,
    {
        let cand = strip_quotes_chars(lines[k].as_slice());
        let n = cand.len();
        if n == 0 {
            k += 1;
            continue;
        }
        if cand[0] == '[' && cand[n - 1] == ']' {
            return (None, k + 1);
        }
        let f = csv_fields_chars(cand.as_slice());
        if f.len() == 0 {
            k += 1;
            continue;
        }
        let f0 = trim_chars(f[0].as_slice());
        if is_float_literal_chars(f0.as_slice()) {
            return (Some(string_of_seq(&f0)), k + 1);
        }
        return (None, k);
    }
    (None, k)
}

/// `values_scan` on lines, with at most `n + 1` values.
fn scan_values(lines: &Vec<Vec<char>>, c: usize, n: usize) -> (r: (Vec<String>, usize))
    ensures
        values_scan(lv(lines@), c as int, n as nat + 1, Seq::empty()) == (texts(r.0@), r.1 as int),
{
    let ghost ls = lv(lines@);
    let mut vals: Vec<String> = Vec::new();
    let mut k = c;
    assert(texts(vals@) =~= Seq::<Seq<char>>::empty());
    while k < lines.len() && vals.len() <= n
        invariant
            ls == lv(lines@),
            values_scan(ls, c as int, n as nat + 1, Seq::empty()) == values_scan(
                ls,
                k as int,
                n as nat + 1,
                texts(vals@),
            ),
        ensures
            values_scan(ls, c as int, n as nat + 1, Seq::empty()) == (texts(vals@), k as int),
        decreases lines@.len() - k,
    {
        let cand = strip_quotes_chars(lines[k].as_slice());
        let m = cand.len();
        if m == 0 {
            k += 1;
            continue;
        }
        if cand[0] == '[' && cand[m - 1] == ']' {
            break;
        }
        if is_float_literal_chars(cand.as_slice()) {
            let ghost before = texts(vals@);
            let x = string_of_seq(&cand);
            vals.push(x);
            assert(texts(vals@) == before.push(cand@));
            k += 1;
            continue;
        }
        break;
    }
    (vals, k)
}

/// The report that the legacy program exports for a mark set, read from
/// its text.
pub fn parse_legacy_export_text(text: &str) -> (r: Result<ParsedLegacyExportFile, LegacyError>)
    ensures
        match r {
            Ok(f) => export_spec(text_lines(text@)) == Ok::<ExportModel, LegacyError>(f@),
            Err(e) => export_spec(text_lines(text@)) == Err::<ExportModel, LegacyError>(e),
        },
{
    let lines = read_lines(text);
    let ghost ls = lv(lines@);
    let n = read_export_last_student(&lines);
    if n == 0 {
        return Err(LegacyError::MissingSection);
    }
    let folder = chars_of("Folder:");
    let mark_file = chars_of("Mark File:");
    let belongs = chars_of("This file belongs");
    let mut blocks: Vec<ParsedLegacyExportBlock> = Vec::new();
    let mut cursor: usize = 0;
    assert(blocks@.map_values(|b: ParsedLegacyExportBlock| b@) =~= Seq::<ExportBlockModel>::empty());
    while cursor < lines.len()
        invariant
            ls == lv(lines@),
            n > 0,
            folder@ == "Folder:"@,
            mark_file@ == "Mark File:"@,
            belongs@ == "This file belongs"@,
            export_blocks(ls, 0, n as nat + 1, Seq::empty()) == export_blocks(
                ls,
                cursor as int,
                n as nat + 1,
                blocks@.map_values(|b: ParsedLegacyExportBlock| b@),
            ),
        decreases lines@.len() - cursor,
    {
        let line = strip_quotes_chars(lines[cursor].as_slice());
        let m = line.len();
        if m == 0 || (line[0] == '[' && line[m - 1] == ']') || contains_chars(
            line.as_slice(),
            folder.as_slice(),
        ) || starts_with_chars(line.as_slice(), mark_file.as_slice()) || starts_with_chars(
            line.as_slice(),
            belongs.as_slice(),
        ) {
            cursor += 1;
            continue;
        }
        proof {
            lemma_out_of_scan_bounds(ls, cursor + 1);
        }
        let (o, c2) = scan_out_of(&lines, cursor + 1);
        let out_of = match o {
            None => {
                cursor = c2;
                continue;
            },
            Some(x) => x,
        };
        proof {
            lemma_values_scan_bounds(ls, c2 as int, n as nat + 1, Seq::empty());
        }
        let (vals, c3) = scan_values(&lines, c2, n);
        if vals.len() > 0 {
            let ghost before = blocks@.map_values(|b: ParsedLegacyExportBlock| b@);
            let b = ParsedLegacyExportBlock { title: string_of_seq(&line), out_of, values: vals };
            let ghost bv = b@;
            blocks.push(b);
            assert(blocks@.map_values(|b: ParsedLegacyExportBlock| b@) == before.push(bv));
        }
        cursor = c3;
    }
    Ok(ParsedLegacyExportFile { last_student: n, blocks })
}


proof fn lemma_mark_assessments_numbered(ls: Seq<Seq<char>>, i: int, m: nat, n: nat)
    ensures
        mark_assessments(ls, i, m, n) matches Ok((xs, _)) ==> xs.len() == m && forall|k: int|
            0 <= k < xs.len() ==> (#[trigger] xs[k]).idx == k,
    decreases m,
{
    if m > 0 {
        lemma_mark_assessments_numbered(ls, i, (m - 1) as nat, n);
        match mark_assessments(ls, i, (m - 1) as nat, n) {
            Ok((xs, j)) => match assessment_at(ls, j, (m - 1) as nat, n) {
                Ok((x, k)) => {
                    assert(x.idx == m - 1);
                    let ys = xs.push(x);
                    assert forall|q: int| 0 <= q < ys.len() implies (#[trigger] ys[q]).idx == q by {
                        if q < xs.len() {
                            assert(ys[q] == xs[q]);
                        }
                    }
                },
                Err(_) => {},
            },
            Err(_) => {},
        }
    }
}

/// The assessments of a mark file are numbered in the order the file holds
/// them: there are as many as its `[Marks]` count says, and the k-th has
/// index k, so no two share an index.
pub proof fn law_mark_assessments_numbered(text: Seq<char>)
    ensures
        mark_spec(text_lines(text)) matches Ok(f) ==> forall|k: int|
            0 <= k < f.assessments.len() ==> (#[trigger] f.assessments[k]).idx == k,
        mark_spec(text_lines(text)) matches Ok(f) ==> (section_index(text_lines(text), "Marks"@) matches Some(
            mk,
        ) && count_following(text_lines(text), mk) matches Ok((m, _)) && f.assessments.len() == m),
{
    let ls = text_lines(text);
    match (section_index(ls, "Categories"@), section_index(ls, "LastStudent"@), section_index(ls, "Marks"@)) {
        (Some(ci), Some(li), Some(mk)) => match count_following(ls, ci) {
            Ok((cn, i)) => match count_following(ls, li) {
                Ok((n, _)) => match count_following(ls, mk) {
                    Ok((m, k)) => {
                        lemma_mark_assessments_numbered(ls, k, m, n);
                    },
                    Err(_) => {},
                },
                Err(_) => {},
            },
            Err(_) => {},
        },
        _ => {},
    }
}

} // verus!
