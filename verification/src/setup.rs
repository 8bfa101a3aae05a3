//! The workspace setup: its sections, their default values, and the rules
//! by which a patch to a section is checked and applied.
use vstd::prelude::*;
use crate::assoc::{
    as_map, keys_view, lemma_as_map_push, lemma_as_map_update, lemma_lookup_absent,
    lemma_lookup_first, position,
};
use crate::num::{int_decimal, i64_decimal, nat_digits, u64_digits};
use crate::text::{
    append_chars, chars_eq_str, chars_of, lower, lower_chars, string_of, string_of_seq, trim,
    trim_chars,
    upper, upper_chars,
};

verus! {

// ---------------------------------------------------------------------------
// Sections
// ---------------------------------------------------------------------------

/// A section of the setup.
#[derive(Clone, Copy, Debug, PartialEq, Eq, Structural)]
pub enum SetupSection {
    Analysis,
    Attendance,
    Comments,
    Printer,
    Planner,
    CourseDescription,
    Reports,
    Security,
    Email,
}

/// The section a request names.
pub open spec fn section_named(s: Seq<char>) -> Option<SetupSection> {
    if s == "analysis"@ {
        Some(SetupSection::Analysis)
    } else if s == "attendance"@ {
        Some(SetupSection::Attendance)
    } else if s == "comments"@ {
        Some(SetupSection::Comments)
    } else if s == "printer"@ {
        Some(SetupSection::Printer)
    } else if s == "planner"@ {
        Some(SetupSection::Planner)
    } else if s == "courseDescription"@ {
        Some(SetupSection::CourseDescription)
    } else if s == "reports"@ {
        Some(SetupSection::Reports)
    } else if s == "security"@ {
        Some(SetupSection::Security)
    } else if s == "email"@ {
        Some(SetupSection::Email)
    } else {
        None
    }
}

/// The name of a section in requests and messages.
pub open spec fn section_name(s: SetupSection) -> Seq<char> {
    match s {
        SetupSection::Analysis => "analysis"@,
        SetupSection::Attendance => "attendance"@,
        SetupSection::Comments => "comments"@,
        SetupSection::Printer => "printer"@,
        SetupSection::Planner => "planner"@,
        SetupSection::CourseDescription => "courseDescription"@,
        SetupSection::Reports => "reports"@,
        SetupSection::Security => "security"@,
        SetupSection::Email => "email"@,
    }
}

/// The settings key under which a section is stored.
pub open spec fn section_key(s: SetupSection) -> Seq<char> {
    match s {
        SetupSection::Analysis => "setup.analysis"@,
        SetupSection::Attendance => "setup.attendance"@,
        SetupSection::Comments => "setup.comments"@,
        SetupSection::Printer => "setup.printer"@,
        SetupSection::Planner => "setup.planner"@,
        SetupSection::CourseDescription => "setup.courseDescription"@,
        SetupSection::Reports => "setup.reports"@,
        SetupSection::Security => "setup.security"@,
        SetupSection::Email => "setup.email"@,
    }
}

impl SetupSection {
    /// The section a request names, if any.
    pub fn parse(s: &str) -> (r: Option<SetupSection>)
        ensures
            r == section_named(s@),
    {
        let c = chars_of(s);
        let v = c.as_slice();
        if chars_eq_str(v, "analysis") {
            Some(SetupSection::Analysis)
        } else if chars_eq_str(v, "attendance") {
            Some(SetupSection::Attendance)
        } else if chars_eq_str(v, "comments") {
            Some(SetupSection::Comments)
        } else if chars_eq_str(v, "printer") {
            Some(SetupSection::Printer)
        } else if chars_eq_str(v, "planner") {
            Some(SetupSection::Planner)
        } else if chars_eq_str(v, "courseDescription") {
            Some(SetupSection::CourseDescription)
        } else if chars_eq_str(v, "reports") {
            Some(SetupSection::Reports)
        } else if chars_eq_str(v, "security") {
            Some(SetupSection::Security)
        } else if chars_eq_str(v, "email") {
            Some(SetupSection::Email)
        } else {
            None
        }
    }

    /// The settings key of the section.
    pub fn key(self) -> (r: &'static str)
        ensures
            r@ == section_key(self),
    {
        match self {
            SetupSection::Analysis => "setup.analysis",
            SetupSection::Attendance => "setup.attendance",
            SetupSection::Comments => "setup.comments",
            SetupSection::Printer => "setup.printer",
            SetupSection::Planner => "setup.planner",
            SetupSection::CourseDescription => "setup.courseDescription",
            SetupSection::Reports => "setup.reports",
            SetupSection::Security => "setup.security",
            SetupSection::Email => "setup.email",
        }
    }

    /// The name of the section.
    pub fn name(self) -> (r: &'static str)
        ensures
            r@ == section_name(self),
    {
        match self {
            SetupSection::Analysis => "analysis",
            SetupSection::Attendance => "attendance",
            SetupSection::Comments => "comments",
            SetupSection::Printer => "printer",
            SetupSection::Planner => "planner",
            SetupSection::CourseDescription => "courseDescription",
            SetupSection::Reports => "reports",
            SetupSection::Security => "security",
            SetupSection::Email => "email",
        }
    }
}

// ---------------------------------------------------------------------------
// Values
// ---------------------------------------------------------------------------

/// A setting's value, as far as the rules read it: null, a boolean, an
/// integer that fits `i64`, another number (as its decimal text), a text,
/// or anything else.
pub enum SettingValue {
    Null,
    Bool(bool),
    Int(i64),
    Number(String),
    Text(String),
    Other,
}

pub enum SettingModel {
    Null,
    Bool(bool),
    Int(i64),
    Number(Seq<char>),
    Text(Seq<char>),
    Other,
}

impl View for SettingValue {
    type V = SettingModel;

    open spec fn view(&self) -> SettingModel {
        match self {
            SettingValue::Null => SettingModel::Null,
            SettingValue::Bool(b) => SettingModel::Bool(*b),
            SettingValue::Int(n) => SettingModel::Int(*n),
            SettingValue::Number(t) => SettingModel::Number(t@),
            SettingValue::Text(s) => SettingModel::Text(s@),
            SettingValue::Other => SettingModel::Other,
        }
    }
}

impl SettingValue {
    /// A copy of the value.
    pub fn duplicate(&self) -> (r: SettingValue)
        ensures
            r@ == self@,
    {
        match self {
            SettingValue::Null => SettingValue::Null,
            SettingValue::Bool(b) => SettingValue::Bool(*b),
            SettingValue::Int(n) => SettingValue::Int(*n),
            SettingValue::Number(t) => SettingValue::Number(t.clone()),
            SettingValue::Text(s) => SettingValue::Text(s.clone()),
            SettingValue::Other => SettingValue::Other,
        }
    }
}

/// The number of bytes of `c` in UTF-8.
pub open spec fn utf8_width(c: char) -> nat {
    let u = c as u32;
    if u < 0x80 {
        1
    } else if u < 0x800 {
        2
    } else if u < 0x10000 {
        3
    } else {
        4
    }
}

/// The number of bytes of `s` in UTF-8, which `str::len` gives.
pub open spec fn utf8_len(s: Seq<char>) -> nat
    decreases s.len(),
{
    if s.len() == 0 {
        0
    } else {
        utf8_len(s.drop_last()) + utf8_width(s.last())
    }
}

proof fn lemma_utf8_len_prefix(s: Seq<char>, i: int)
    requires
        0 <= i <= s.len(),
    ensures
        utf8_len(s.take(i)) <= utf8_len(s),
    decreases s.len() - i,
{
    if i < s.len() {
        lemma_utf8_len_prefix(s, i + 1);
        assert(s.take(i + 1).drop_last() == s.take(i));
    } else {
        assert(s.take(i) == s);
    }
}

/// Whether `s` has more than `max` bytes in UTF-8.
pub(crate) fn utf8_len_exceeds(s: &[char], max: usize) -> (r: bool)
    ensures
        r == (utf8_len(s@) > max),
{
    let mut total: usize = 0;
    let mut i: usize = 0;
    while i < s.len()
        invariant
            i <= s@.len(),
            total == utf8_len(s@.take(i as int)),
            total <= max,
        decreases s@.len() - i,
    {
        let u = s[i] as u32;
        let w: usize = if u < 0x80 {
            1
        } else if u < 0x800 {
            2
        } else if u < 0x10000 {
            3
        } else {
            4
        };
        assert(s@.take(i + 1).drop_last() == s@.take(i as int));
        i += 1;
        if w > max - total {
            proof {
                lemma_utf8_len_prefix(s@, i as int);
            }
            return true;
        }
        total = total + w;
    }
    assert(s@.take(s@.len() as int) == s@);
    false
}

/// `k` followed by `tail`, as a string.
fn text_after(k: &[char], tail: &str) -> (r: String)
    ensures
        r@ == k@ + tail@,
{
    let mut out: Vec<char> = Vec::new();
    append_chars(&mut out, k);
    append_chars(&mut out, chars_of(tail).as_slice());
    assert(out@ == k@ + tail@);
    string_of_seq(&out)
}

/// A boolean field.
pub open spec fn bool_field(v: SettingModel, k: Seq<char>) -> Result<bool, Seq<char>> {
    match v {
        SettingModel::Bool(b) => Ok(b),
        _ => Err(k + " must be boolean"@),
    }
}

/// An integer field within `min..=max`.
pub open spec fn int_field(v: SettingModel, k: Seq<char>, min: i64, max: i64) -> Result<i64, Seq<char>> {
    match v {
        SettingModel::Int(n) => if min <= n <= max {
            Ok(n)
        } else {
            Err(k + " must be in "@ + int_decimal(min as int) + "..="@ + int_decimal(max as int))
        },
        _ => Err(k + " must be integer"@),
    }
}

/// A text field of at most `max` bytes once trimmed.
pub open spec fn text_field(v: SettingModel, k: Seq<char>, max: nat) -> Result<Seq<char>, Seq<char>> {
    match v {
        SettingModel::Text(s) => if utf8_len(trim(s)) > max {
            Err(k + " length must be <= "@ + nat_digits(max))
        } else {
            Ok(trim(s))
        },
        _ => Err(k + " must be string"@),
    }
}

fn parse_bool(v: &SettingValue, k: &[char]) -> (r: Result<bool, String>)
    ensures
        match r {
            Ok(b) => bool_field(v@, k@) == Ok::<bool, Seq<char>>(b),
            Err(e) => bool_field(v@, k@) == Err::<bool, Seq<char>>(e@),
        },
{
    match v {
        SettingValue::Bool(b) => Ok(*b),
        _ => Err(text_after(k, " must be boolean")),
    }
}

fn parse_i64_range(v: &SettingValue, k: &[char], min: i64, max: i64) -> (r: Result<i64, String>)
    ensures
        match r {
            Ok(n) => int_field(v@, k@, min, max) == Ok::<i64, Seq<char>>(n),
            Err(e) => int_field(v@, k@, min, max) == Err::<i64, Seq<char>>(e@),
        },
{
    match v {
        SettingValue::Int(n) => {
            if min <= *n && *n <= max {
                Ok(*n)
            } else {
                let mut out: Vec<char> = Vec::new();
                append_chars(&mut out, k);
                append_chars(&mut out, chars_of(" must be in ").as_slice());
                append_chars(&mut out, i64_decimal(min).as_slice());
                append_chars(&mut out, chars_of("..=").as_slice());
                append_chars(&mut out, i64_decimal(max).as_slice());
                Err(string_of_seq(&out))
            }
        },
        _ => Err(text_after(k, " must be integer")),
    }
}

fn parse_string_max(v: &SettingValue, k: &[char], max: usize) -> (r: Result<Vec<char>, String>)
    ensures
        match r {
            Ok(s) => text_field(v@, k@, max as nat) == Ok::<Seq<char>, Seq<char>>(s@),
            Err(e) => text_field(v@, k@, max as nat) == Err::<Seq<char>, Seq<char>>(e@),
        },
{
    match v {
        SettingValue::Text(s) => {
            let t = trim_chars(chars_of(s.as_str()).as_slice());
            if utf8_len_exceeds(t.as_slice(), max) {
                let mut out: Vec<char> = Vec::new();
                append_chars(&mut out, k);
                append_chars(&mut out, chars_of(" length must be <= ").as_slice());
                append_chars(&mut out, u64_digits(max as u64).as_slice());
                Err(string_of_seq(&out))
            } else {
                Ok(t)
            }
        },
        _ => Err(text_after(k, " must be string")),
    }
}

// ---------------------------------------------------------------------------
// Field rules
// ---------------------------------------------------------------------------

/// The sets of words a choice field takes.
#[derive(Clone, Copy, Debug, PartialEq, Eq, Structural)]
pub enum Choices {
    StudentScope,
    TransferPolicy,
    PublishStatus,
    HeaderStyle,
}

/// What a field takes: a boolean; an integer in a range; a text of at most
/// some bytes; one word of a set (lower-cased, with a text limit); a sort
/// key; an attendance code; or a text or null.
#[derive(Clone, Copy, Debug, PartialEq, Eq, Structural)]
pub enum FieldRule {
    Flag,
    Whole(i64, i64),
    Text(usize),
    Choice(usize, Choices),
    SortBy,
    Code,
    NullableText(usize),
}

/// Whether `s` is one of the words of `c`.
pub open spec fn chosen(c: Choices, s: Seq<char>) -> bool {
    match c {
        Choices::StudentScope => s == "all"@ || s == "active"@ || s == "valid"@,
        Choices::TransferPolicy => s == "replace"@ || s == "append"@ || s == "fill_blank"@ || s
            == "source_if_longer"@,
        Choices::PublishStatus => s == "draft"@ || s == "published"@ || s == "archived"@,
        Choices::HeaderStyle => s == "compact"@ || s == "classic"@ || s == "minimal"@,
    }
}

/// The message for a word that is not one of `c`.
pub open spec fn choice_message(c: Choices, k: Seq<char>) -> Seq<char> {
    match c {
        Choices::StudentScope => k + " must be one of: all, active, valid"@,
        Choices::TransferPolicy => k + " must be one of: replace, append, fill_blank, source_if_longer"@,
        Choices::PublishStatus => k + " must be one of: draft, published, archived"@,
        Choices::HeaderStyle => k + " must be one of: compact, classic, minimal"@,
    }
}

/// The rule of field `k` of a section, if the section has that field.
pub open spec fn field_rule(section: SetupSection, k: Seq<char>) -> Option<FieldRule> {
    match section {
        SetupSection::Analysis => if k == "defaultStudentScope"@ {
            Some(FieldRule::Choice(16, Choices::StudentScope))
        } else if k == "showInactiveStudents"@ || k == "showDeletedEntries"@ {
            Some(FieldRule::Flag)
        } else if k == "histogramBins"@ {
            Some(FieldRule::Whole(4, 20))
        } else if k == "defaultSortBy"@ {
            Some(FieldRule::SortBy)
        } else if k == "defaultTopBottomCount"@ {
            Some(FieldRule::Whole(3, 20))
        } else {
            None
        },
        SetupSection::Attendance => if k == "schoolYearStartMonth"@ {
            Some(FieldRule::Whole(1, 12))
        } else if k == "presentCode"@ || k == "absentCode"@ || k == "lateCode"@ || k
            == "excusedCode"@ {
            Some(FieldRule::Code)
        } else if k == "tardyThresholdMinutes"@ {
            Some(FieldRule::Whole(0, 120))
        } else {
            None
        },
        SetupSection::Comments => if k == "defaultTransferPolicy"@ {
            Some(FieldRule::Choice(24, Choices::TransferPolicy))
        } else if k == "appendSeparator"@ {
            Some(FieldRule::Text(8))
        } else if k == "enforceFit"@ || k == "enforceMaxChars"@ {
            Some(FieldRule::Flag)
        } else if k == "defaultMaxChars"@ {
            Some(FieldRule::Whole(80, 5000))
        } else {
            None
        },
        SetupSection::Printer => if k == "fontScale"@ {
            Some(FieldRule::Whole(60, 160))
        } else if k == "landscapeWideTables"@ || k == "repeatHeaders"@ || k == "showGeneratedAt"@ {
            Some(FieldRule::Flag)
        } else if k == "defaultMarginMm"@ {
            Some(FieldRule::Whole(5, 30))
        } else {
            None
        },
        SetupSection::Planner => if k == "defaultLessonDurationMinutes"@ {
            Some(FieldRule::Whole(15, 240))
        } else if k == "defaultPublishStatus"@ {
            Some(FieldRule::Choice(16, Choices::PublishStatus))
        } else if k == "showArchivedByDefault"@ {
            Some(FieldRule::Flag)
        } else if k == "defaultUnitTitlePrefix"@ {
            Some(FieldRule::Text(32))
        } else {
            None
        },
        SetupSection::CourseDescription => if k == "defaultPeriodMinutes"@ {
            Some(FieldRule::Whole(1, 300))
        } else if k == "defaultPeriodsPerWeek"@ {
            Some(FieldRule::Whole(1, 14))
        } else if k == "defaultTotalWeeks"@ {
            Some(FieldRule::Whole(1, 60))
        } else if k == "includePolicyByDefault"@ {
            Some(FieldRule::Flag)
        } else {
            None
        },
        SetupSection::Reports => if k == "plannerHeaderStyle"@ {
            Some(FieldRule::Choice(16, Choices::HeaderStyle))
        } else if k == "showGeneratedAt"@ {
            Some(FieldRule::Flag)
        } else if k == "defaultStudentScope"@ {
            Some(FieldRule::Choice(16, Choices::StudentScope))
        } else {
            None
        },
        SetupSection::Security => if k == "passwordEnabled"@ || k == "confirmDeletes"@ {
            Some(FieldRule::Flag)
        } else if k == "passwordHint"@ {
            Some(FieldRule::NullableText(120))
        } else if k == "autoLockMinutes"@ {
            Some(FieldRule::Whole(0, 240))
        } else {
            None
        },
        SetupSection::Email => if k == "enabled"@ {
            Some(FieldRule::Flag)
        } else if k == "fromName"@ {
            Some(FieldRule::Text(120))
        } else if k == "replyTo"@ {
            Some(FieldRule::Text(200))
        } else if k == "subjectPrefix"@ {
            Some(FieldRule::Text(80))
        } else if k == "defaultCc"@ {
            Some(FieldRule::Text(200))
        } else {
            None
        },
    }
}

/// The value that rule `rule` stores for field `k` given `v`, or the
/// message that refuses `v`.
pub open spec fn apply_rule(rule: FieldRule, k: Seq<char>, v: SettingModel) -> Result<SettingModel, Seq<char>> {
    match rule {
        FieldRule::Flag => match bool_field(v, k) {
            Ok(b) => Ok(SettingModel::Bool(b)),
            Err(e) => Err(e),
        },
        FieldRule::Whole(min, max) => match int_field(v, k, min, max) {
            Ok(n) => Ok(SettingModel::Int(n)),
            Err(e) => Err(e),
        },
        FieldRule::Text(max) => match text_field(v, k, max as nat) {
            Ok(s) => Ok(SettingModel::Text(s)),
            Err(e) => Err(e),
        },
        FieldRule::Choice(max, c) => match text_field(v, k, max as nat) {
            Ok(s) => if chosen(c, lower(s)) {
                Ok(SettingModel::Text(lower(s)))
            } else {
                Err(choice_message(c, k))
            },
            Err(e) => Err(e),
        },
        FieldRule::SortBy => match text_field(v, k, 24) {
            Ok(s) => if lower(s) == "sortorder"@ {
                Ok(SettingModel::Text("sortOrder"@))
            } else if lower(s) == "displayname"@ {
                Ok(SettingModel::Text("displayName"@))
            } else if lower(s) == "finalmark"@ {
                Ok(SettingModel::Text("finalMark"@))
            } else {
                Err("defaultSortBy must be one of: sortOrder, displayName, finalMark"@)
            },
            Err(e) => Err(e),
        },
        FieldRule::Code => match text_field(v, k, 8) {
            Ok(s) => if s.len() == 0 {
                Err(k + " must not be empty"@)
            } else {
                Ok(SettingModel::Text(upper(s)))
            },
            Err(e) => Err(e),
        },
        FieldRule::NullableText(max) => match v {
            SettingModel::Null => Ok(SettingModel::Null),
            _ => match text_field(v, k, max as nat) {
                Ok(s) => Ok(SettingModel::Text(s)),
                Err(e) => Err(e),
            },
        },
    }
}

/// The value stored for field `k` of a section given `v`, or the message
/// that refuses it; a field the section does not have is refused.
pub open spec fn field_value(section: SetupSection, k: Seq<char>, v: SettingModel) -> Result<
    SettingModel,
    Seq<char>,
> {
    match field_rule(section, k) {
        None => Err("unknown "@ + section_name(section) + " field: "@ + k),
        Some(rule) => apply_rule(rule, k, v),
    }
}

/// `field_rule` on characters.
pub fn rule_for(section: SetupSection, k: &[char]) -> (r: Option<FieldRule>)
    ensures
        r == field_rule(section, k@),
{
    match section {
        SetupSection::Analysis => if chars_eq_str(k, "defaultStudentScope") {
            Some(FieldRule::Choice(16, Choices::StudentScope))
        } else if chars_eq_str(k, "showInactiveStudents") || chars_eq_str(k, "showDeletedEntries") {
            Some(FieldRule::Flag)
        } else if chars_eq_str(k, "histogramBins") {
            Some(FieldRule::Whole(4, 20))
        } else if chars_eq_str(k, "defaultSortBy") {
            Some(FieldRule::SortBy)
        } else if chars_eq_str(k, "defaultTopBottomCount") {
            Some(FieldRule::Whole(3, 20))
        } else {
            None
        },
        SetupSection::Attendance => if chars_eq_str(k, "schoolYearStartMonth") {
            Some(FieldRule::Whole(1, 12))
        } else if chars_eq_str(k, "presentCode") || chars_eq_str(k, "absentCode") || chars_eq_str(
            k,
            "lateCode",
        ) || chars_eq_str(k, "excusedCode") {
            Some(FieldRule::Code)
        } else if chars_eq_str(k, "tardyThresholdMinutes") {
            Some(FieldRule::Whole(0, 120))
        } else {
            None
        },
        SetupSection::Comments => if chars_eq_str(k, "defaultTransferPolicy") {
            Some(FieldRule::Choice(24, Choices::TransferPolicy))
        } else if chars_eq_str(k, "appendSeparator") {
            Some(FieldRule::Text(8))
        } else if chars_eq_str(k, "enforceFit") || chars_eq_str(k, "enforceMaxChars") {
            Some(FieldRule::Flag)
        } else if chars_eq_str(k, "defaultMaxChars") {
            Some(FieldRule::Whole(80, 5000))
        } else {
            None
        },
        SetupSection::Printer => if chars_eq_str(k, "fontScale") {
            Some(FieldRule::Whole(60, 160))
        } else if chars_eq_str(k, "landscapeWideTables") || chars_eq_str(k, "repeatHeaders")
            || chars_eq_str(k, "showGeneratedAt") {
            Some(FieldRule::Flag)
        } else if chars_eq_str(k, "defaultMarginMm") {
            Some(FieldRule::Whole(5, 30))
        } else {
            None
        },
        SetupSection::Planner => if chars_eq_str(k, "defaultLessonDurationMinutes") {
            Some(FieldRule::Whole(15, 240))
        } else if chars_eq_str(k, "defaultPublishStatus") {
            Some(FieldRule::Choice(16, Choices::PublishStatus))
        } else if chars_eq_str(k, "showArchivedByDefault") {
            Some(FieldRule::Flag)
        } else if chars_eq_str(k, "defaultUnitTitlePrefix") {
            Some(FieldRule::Text(32))
        } else {
            None
        },
        SetupSection::CourseDescription => if chars_eq_str(k, "defaultPeriodMinutes") {
            Some(FieldRule::Whole(1, 300))
        } else if chars_eq_str(k, "defaultPeriodsPerWeek") {
            Some(FieldRule::Whole(1, 14))
        } else if chars_eq_str(k, "defaultTotalWeeks") {
            Some(FieldRule::Whole(1, 60))
        } else if chars_eq_str(k, "includePolicyByDefault") {
            Some(FieldRule::Flag)
        } else {
            None
        },
        SetupSection::Reports => if chars_eq_str(k, "plannerHeaderStyle") {
            Some(FieldRule::Choice(16, Choices::HeaderStyle))
        } else if chars_eq_str(k, "showGeneratedAt") {
            Some(FieldRule::Flag)
        } else if chars_eq_str(k, "defaultStudentScope") {
            Some(FieldRule::Choice(16, Choices::StudentScope))
        } else {
            None
        },
        SetupSection::Security => if chars_eq_str(k, "passwordEnabled") || chars_eq_str(
            k,
            "confirmDeletes",
        ) {
            Some(FieldRule::Flag)
        } else if chars_eq_str(k, "passwordHint") {
            Some(FieldRule::NullableText(120))
        } else if chars_eq_str(k, "autoLockMinutes") {
            Some(FieldRule::Whole(0, 240))
        } else {
            None
        },
        SetupSection::Email => if chars_eq_str(k, "enabled") {
            Some(FieldRule::Flag)
        } else if chars_eq_str(k, "fromName") {
            Some(FieldRule::Text(120))
        } else if chars_eq_str(k, "replyTo") {
            Some(FieldRule::Text(200))
        } else if chars_eq_str(k, "subjectPrefix") {
            Some(FieldRule::Text(80))
        } else if chars_eq_str(k, "defaultCc") {
            Some(FieldRule::Text(200))
        } else {
            None
        },
    }
}

fn chosen_exec(c: Choices, s: &[char]) -> (r: bool)
    ensures
        r == chosen(c, s@),
{
    match c {
        Choices::StudentScope => chars_eq_str(s, "all") || chars_eq_str(s, "active") || chars_eq_str(
            s,
            "valid",
        ),
        Choices::TransferPolicy => chars_eq_str(s, "replace") || chars_eq_str(s, "append")
            || chars_eq_str(s, "fill_blank") || chars_eq_str(s, "source_if_longer"),
        Choices::PublishStatus => chars_eq_str(s, "draft") || chars_eq_str(s, "published")
            || chars_eq_str(s, "archived"),
        Choices::HeaderStyle => chars_eq_str(s, "compact") || chars_eq_str(s, "classic")
            || chars_eq_str(s, "minimal"),
    }
}

fn choice_message_exec(c: Choices, k: &[char]) -> (r: String)
    ensures
        r@ == choice_message(c, k@),
{
    match c {
        Choices::StudentScope => text_after(k, " must be one of: all, active, valid"),
        Choices::TransferPolicy => text_after(
            k,
            " must be one of: replace, append, fill_blank, source_if_longer",
        ),
        Choices::PublishStatus => text_after(k, " must be one of: draft, published, archived"),
        Choices::HeaderStyle => text_after(k, " must be one of: compact, classic, minimal"),
    }
}

/// `apply_rule` on values.
pub fn apply_field_rule(rule: FieldRule, k: &[char], v: &SettingValue) -> (r: Result<SettingValue, String>)
    ensures
        match r {
            Ok(x) => apply_rule(rule, k@, v@) == Ok::<SettingModel, Seq<char>>(x@),
            Err(e) => apply_rule(rule, k@, v@) == Err::<SettingModel, Seq<char>>(e@),
        },
{
    match rule {
        FieldRule::Flag => Ok(SettingValue::Bool(parse_bool(v, k)?)),
        FieldRule::Whole(min, max) => Ok(SettingValue::Int(parse_i64_range(v, k, min, max)?)),
        FieldRule::Text(max) => {
            let s = parse_string_max(v, k, max)?;
            Ok(SettingValue::Text(string_of_seq(&s)))
        },
        FieldRule::Choice(max, c) => {
            let s = parse_string_max(v, k, max)?;
            let l = lower_chars(s.as_slice());
            if chosen_exec(c, l.as_slice()) {
                Ok(SettingValue::Text(string_of_seq(&l)))
            } else {
                Err(choice_message_exec(c, k))
            }
        },
        FieldRule::SortBy => {
            let s = parse_string_max(v, k, 24)?;
            let l = lower_chars(s.as_slice());
            if chars_eq_str(l.as_slice(), "sortorder") {
                Ok(SettingValue::Text(String::from_str("sortOrder")))
            } else if chars_eq_str(l.as_slice(), "displayname") {
                Ok(SettingValue::Text(String::from_str("displayName")))
            } else if chars_eq_str(l.as_slice(), "finalmark") {
                Ok(SettingValue::Text(String::from_str("finalMark")))
            } else {
                Err(String::from_str("defaultSortBy must be one of: sortOrder, displayName, finalMark"))
            }
        },
        FieldRule::Code => {
            let s = parse_string_max(v, k, 8)?;
            if s.len() == 0 {
                Err(text_after(k, " must not be empty"))
            } else {
                Ok(SettingValue::Text(string_of_seq(&upper_chars(s.as_slice()))))
            }
        },
        FieldRule::NullableText(max) => match v {
            SettingValue::Null => Ok(SettingValue::Null),
            _ => {
                let s = parse_string_max(v, k, max)?;
                Ok(SettingValue::Text(string_of_seq(&s)))
            },
        },
    }
}

/// `field_value` on values.
pub fn field_value_of(section: SetupSection, k: &[char], v: &SettingValue) -> (r: Result<SettingValue, String>)
    ensures
        match r {
            Ok(x) => field_value(section, k@, v@) == Ok::<SettingModel, Seq<char>>(x@),
            Err(e) => field_value(section, k@, v@) == Err::<SettingModel, Seq<char>>(e@),
        },
{
    match rule_for(section, k) {
        None => {
            let mut out = chars_of("unknown ");
            append_chars(&mut out, chars_of(section.name()).as_slice());
            append_chars(&mut out, chars_of(" field: ").as_slice());
            append_chars(&mut out, k);
            Err(string_of_seq(&out))
        },
        Some(rule) => apply_field_rule(rule, k, v),
    }
}

// ---------------------------------------------------------------------------
// Sections as stored
// ---------------------------------------------------------------------------

/// The fields of a section and their values.
pub struct SectionValues {
    entries: Vec<(String, SettingValue)>,
}

pub open spec fn setting_entries(es: Seq<(String, SettingValue)>) -> Seq<(Seq<char>, SettingModel)> {
    es.map_values(|e: (String, SettingValue)| (e.0@, e.1@))
}

proof fn lemma_setting_keys(es: Seq<(String, SettingValue)>)
    ensures
        setting_entries(es).len() == es.len(),
        forall|j: int| 0 <= j < es.len() ==> #[trigger] setting_entries(es)[j].0 == keys_view(es)[j],
{
}

impl View for SectionValues {
    type V = Map<Seq<char>, SettingModel>;

    closed spec fn view(&self) -> Map<Seq<char>, SettingModel> {
        as_map(setting_entries(self.entries@))
    }
}

impl SectionValues {
    /// A section with no field.
    pub fn new() -> (r: SectionValues)
        ensures
            r@ == Map::<Seq<char>, SettingModel>::empty(),
    {
        let r = SectionValues { entries: Vec::new() };
        assert(r@ =~= Map::<Seq<char>, SettingModel>::empty());
        r
    }

    /// The value of field `key`.
    pub fn get(&self, key: &str) -> (r: Option<&SettingValue>)
        ensures
            match r {
                Some(v) => self@.dom().contains(key@) && self@[key@] == v@,
                None => !self@.dom().contains(key@),
            },
    {
        let k = chars_of(key);
        proof {
            lemma_setting_keys(self.entries@);
        }
        match position(&self.entries, k.as_slice()) {
            Some(i) => {
                proof {
                    lemma_lookup_first(setting_entries(self.entries@), i as int, key@);
                }
                Some(&self.entries[i].1)
            },
            None => {
                proof {
                    lemma_lookup_absent(setting_entries(self.entries@), key@);
                }
                None
            },
        }
    }

    /// Sets field `key` to `v`.
    pub fn set(&mut self, key: &[char], v: SettingValue)
        ensures
            final(self)@ == old(self)@.insert(key@, v@),
    {
        let ghost es = setting_entries(self.entries@);
        let ghost vv = v@;
        proof {
            lemma_setting_keys(self.entries@);
        }
        match position(&self.entries, key) {
            Some(i) => {
                let name = self.entries[i].0.clone();
                self.entries.set(i, (name, v));
                proof {
                    assert(setting_entries(self.entries@) == es.update(i as int, (es[i as int].0, vv)));
                    lemma_as_map_update(es, i as int, vv);
                }
            },
            None => {
                self.entries.push((string_of(key), v));
                proof {
                    assert(setting_entries(self.entries@) == es.push((key@, vv)));
                    lemma_as_map_push(es, (key@, vv));
                }
            },
        }
    }

    /// The fields and their values, in the order they were first set.
    pub fn fields(&self) -> (r: &Vec<(String, SettingValue)>)
        ensures
            as_map(setting_entries(r@)) == self@,
    {
        &self.entries
    }
}

/// A patch applied to a section, field by field in the patch's order: each
/// accepted field takes its new value; the first refused field ends the
/// patch with its message, the fields before it applied.
pub open spec fn merge_spec(
    section: SetupSection,
    current: Map<Seq<char>, SettingModel>,
    patch: Seq<(Seq<char>, SettingModel)>,
) -> (Map<Seq<char>, SettingModel>, Result<(), Seq<char>>)
    decreases patch.len(),
{
    if patch.len() == 0 {
        (current, Ok(()))
    } else {
        let (m, r) = merge_spec(section, current, patch.drop_last());
        match r {
            Err(e) => (m, Err(e)),
            Ok(_) => match field_value(section, patch.last().0, patch.last().1) {
                Ok(v) => (m.insert(patch.last().0, v), Ok(())),
                Err(e) => (m, Err(e)),
            },
        }
    }
}

pub open spec fn unit_result(r: Result<(), String>) -> Result<(), Seq<char>> {
    match r {
        Ok(_) => Ok(()),
        Err(e) => Err(e@),
    }
}

proof fn lemma_merge_err(
    section: SetupSection,
    current: Map<Seq<char>, SettingModel>,
    patch: Seq<(Seq<char>, SettingModel)>,
    c: int,
)
    requires
        0 <= c <= patch.len(),
        merge_spec(section, current, patch.take(c)).1 is Err,
    ensures
        merge_spec(section, current, patch) == merge_spec(section, current, patch.take(c)),
    decreases patch.len() - c,
{
    if c < patch.len() {
        assert(patch.take(c + 1).drop_last() == patch.take(c));
        lemma_merge_err(section, current, patch, c + 1);
    } else {
        assert(patch.take(c) == patch);
    }
}

/// Applies a patch to a section (see `merge_spec`).
pub fn merge_section_patch(
    section: SetupSection,
    current: &mut SectionValues,
    patch: &Vec<(String, SettingValue)>,
) -> (r: Result<(), String>)
    ensures
        merge_spec(section, old(current)@, setting_entries(patch@)) == (final(current)@, unit_result(r)),
{
    let ghost start = current@;
    let ghost pv = setting_entries(patch@);
    let mut k: usize = 0;
    assert(pv.take(0) =~= Seq::<(Seq<char>, SettingModel)>::empty());
    while k < patch.len()
        invariant
            k <= patch@.len(),
            pv == setting_entries(patch@),
            start == old(current)@,
            merge_spec(section, start, pv.take(k as int)) == (current@, Ok::<(), Seq<char>>(())),
        decreases patch@.len() - k,
    {
        assert(pv.take(k + 1).drop_last() == pv.take(k as int));
        assert(pv.take(k + 1).last() == (patch@[k as int].0@, patch@[k as int].1@));
        let key = chars_of(patch[k].0.as_str());
        match field_value_of(section, key.as_slice(), &patch[k].1) {
            Ok(v) => {
                current.set(key.as_slice(), v);
            },
            Err(e) => {
                proof {
                    lemma_merge_err(section, start, pv, k + 1);
                }
                return Err(e);
            },
        }
        k += 1;
    }
    assert(pv.take(patch@.len() as int) == pv);
    Ok(())
}

// ---------------------------------------------------------------------------
// Defaults
// ---------------------------------------------------------------------------

pub open spec fn text_value(s: Seq<char>) -> SettingModel {
    SettingModel::Text(s)
}

/// The values a section has before anything is saved.
pub open spec fn default_values(section: SetupSection) -> Map<Seq<char>, SettingModel> {
    let e = Map::<Seq<char>, SettingModel>::empty();
    match section {
        SetupSection::Analysis => e.insert("defaultStudentScope"@, text_value("valid"@)).insert(
            "showInactiveStudents"@,
            SettingModel::Bool(false),
        ).insert("showDeletedEntries"@, SettingModel::Bool(false)).insert(
            "histogramBins"@,
            SettingModel::Int(10),
        ).insert("defaultSortBy"@, text_value("sortOrder"@)).insert(
            "defaultTopBottomCount"@,
            SettingModel::Int(5),
        ),
        SetupSection::Attendance => e.insert("schoolYearStartMonth"@, SettingModel::Int(9)).insert(
            "presentCode"@,
            text_value("P"@),
        ).insert("absentCode"@, text_value("A"@)).insert("lateCode"@, text_value("L"@)).insert(
            "excusedCode"@,
            text_value("E"@),
        ).insert("tardyThresholdMinutes"@, SettingModel::Int(10)),
        SetupSection::Comments => e.insert("defaultTransferPolicy"@, text_value("fill_blank"@)).insert(
            "appendSeparator"@,
            text_value(" "@),
        ).insert("enforceFit"@, SettingModel::Bool(true)).insert(
            "enforceMaxChars"@,
            SettingModel::Bool(true),
        ).insert("defaultMaxChars"@, SettingModel::Int(600)),
        SetupSection::Printer => e.insert("fontScale"@, SettingModel::Int(100)).insert(
            "landscapeWideTables"@,
            SettingModel::Bool(true),
        ).insert("repeatHeaders"@, SettingModel::Bool(true)).insert(
            "showGeneratedAt"@,
            SettingModel::Bool(true),
        ).insert("defaultMarginMm"@, SettingModel::Int(12)),
        SetupSection::Planner => e.insert("defaultLessonDurationMinutes"@, SettingModel::Int(75)).insert(
            "defaultPublishStatus"@,
            text_value("draft"@),
        ).insert("showArchivedByDefault"@, SettingModel::Bool(false)).insert(
            "defaultUnitTitlePrefix"@,
            text_value("Unit"@),
        ),
        SetupSection::CourseDescription => e.insert("defaultPeriodMinutes"@, SettingModel::Int(75)).insert(
            "defaultPeriodsPerWeek"@,
            SettingModel::Int(5),
        ).insert("defaultTotalWeeks"@, SettingModel::Int(36)).insert(
            "includePolicyByDefault"@,
            SettingModel::Bool(true),
        ),
        SetupSection::Reports => e.insert("plannerHeaderStyle"@, text_value("classic"@)).insert(
            "showGeneratedAt"@,
            SettingModel::Bool(true),
        ).insert("defaultStudentScope"@, text_value("valid"@)),
        SetupSection::Security => e.insert("passwordEnabled"@, SettingModel::Bool(false)).insert(
            "passwordHint"@,
            SettingModel::Null,
        ).insert("confirmDeletes"@, SettingModel::Bool(true)).insert(
            "autoLockMinutes"@,
            SettingModel::Int(0),
        ),
        SetupSection::Email => e.insert("enabled"@, SettingModel::Bool(false)).insert(
            "fromName"@,
            text_value(""@),
        ).insert("replyTo"@, text_value(""@)).insert("subjectPrefix"@, text_value("MarkBook"@)).insert(
            "defaultCc"@,
            text_value(""@),
        ),
    }
}

fn put(v: &mut SectionValues, key: &str, x: SettingValue)
    ensures
        final(v)@ == old(v)@.insert(key@, x@),
{
    let k = chars_of(key);
    v.set(k.as_slice(), x);
}

fn text(s: &str) -> (r: SettingValue)
    ensures
        r@ == text_value(s@),
{
    SettingValue::Text(String::from_str(s))
}

/// The values a section has before anything is saved.
pub fn default_section(section: SetupSection) -> (r: SectionValues)
    ensures
        r@ == default_values(section),
{
    let mut v = SectionValues::new();
    match section {
        SetupSection::Analysis => {
            put(&mut v, "defaultStudentScope", text("valid"));
            put(&mut v, "showInactiveStudents", SettingValue::Bool(false));
            put(&mut v, "showDeletedEntries", SettingValue::Bool(false));
            put(&mut v, "histogramBins", SettingValue::Int(10));
            put(&mut v, "defaultSortBy", text("sortOrder"));
            put(&mut v, "defaultTopBottomCount", SettingValue::Int(5));
        },
        SetupSection::Attendance => {
            put(&mut v, "schoolYearStartMonth", SettingValue::Int(9));
            put(&mut v, "presentCode", text("P"));
            put(&mut v, "absentCode", text("A"));
            put(&mut v, "lateCode", text("L"));
            put(&mut v, "excusedCode", text("E"));
            put(&mut v, "tardyThresholdMinutes", SettingValue::Int(10));
        },
        SetupSection::Comments => {
            put(&mut v, "defaultTransferPolicy", text("fill_blank"));
            put(&mut v, "appendSeparator", text(" "));
            put(&mut v, "enforceFit", SettingValue::Bool(true));
            put(&mut v, "enforceMaxChars", SettingValue::Bool(true));
            put(&mut v, "defaultMaxChars", SettingValue::Int(600));
        },
        SetupSection::Printer => {
            put(&mut v, "fontScale", SettingValue::Int(100));
            put(&mut v, "landscapeWideTables", SettingValue::Bool(true));
            put(&mut v, "repeatHeaders", SettingValue::Bool(true));
            put(&mut v, "showGeneratedAt", SettingValue::Bool(true));
            put(&mut v, "defaultMarginMm", SettingValue::Int(12));
        },
        SetupSection::Planner => {
            put(&mut v, "defaultLessonDurationMinutes", SettingValue::Int(75));
            put(&mut v, "defaultPublishStatus", text("draft"));
            put(&mut v, "showArchivedByDefault", SettingValue::Bool(false));
            put(&mut v, "defaultUnitTitlePrefix", text("Unit"));
        },
        SetupSection::CourseDescription => {
            put(&mut v, "defaultPeriodMinutes", SettingValue::Int(75));
            put(&mut v, "defaultPeriodsPerWeek", SettingValue::Int(5));
            put(&mut v, "defaultTotalWeeks", SettingValue::Int(36));
            put(&mut v, "includePolicyByDefault", SettingValue::Bool(true));
        },
        SetupSection::Reports => {
            put(&mut v, "plannerHeaderStyle", text("classic"));
            put(&mut v, "showGeneratedAt", SettingValue::Bool(true));
            put(&mut v, "defaultStudentScope", text("valid"));
        },
        SetupSection::Security => {
            put(&mut v, "passwordEnabled", SettingValue::Bool(false));
            put(&mut v, "passwordHint", SettingValue::Null);
            put(&mut v, "confirmDeletes", SettingValue::Bool(true));
            put(&mut v, "autoLockMinutes", SettingValue::Int(0));
        },
        SetupSection::Email => {
            put(&mut v, "enabled", SettingValue::Bool(false));
            put(&mut v, "fromName", text(""));
            put(&mut v, "replyTo", text(""));
            put(&mut v, "subjectPrefix", text("MarkBook"));
            put(&mut v, "defaultCc", text(""));
        },
    }
    v
}

/// A section as it is loaded: its defaults, with the saved fields (where a
/// saved object is found) applied as a patch as far as they are accepted.
pub open spec fn loaded_values(section: SetupSection, saved: Option<Seq<(Seq<char>, SettingModel)>>) -> Map<
    Seq<char>,
    SettingModel,
> {
    match saved {
        None => default_values(section),
        Some(p) => merge_spec(section, default_values(section), p).0,
    }
}

/// A section as it is loaded (see `loaded_values`), from the saved object
/// of the section, if there is one.
pub fn load_section(section: SetupSection, saved: Option<&Vec<(String, SettingValue)>>) -> (r: SectionValues)
    ensures
        r@ == loaded_values(
            section,
            match saved {
                Some(p) => Some(setting_entries(p@)),
                None => None,
            },
        ),
{
    let mut current = default_section(section);
    match saved {
        Some(p) => {
            let _ = merge_section_patch(section, &mut current, p);
        },
        None => {},
    }
    current
}

// ---------------------------------------------------------------------------
// Laws
// ---------------------------------------------------------------------------

proof fn lemma_merge_outcome_free(
    section: SetupSection,
    a: Map<Seq<char>, SettingModel>,
    b: Map<Seq<char>, SettingModel>,
    patch: Seq<(Seq<char>, SettingModel)>,
)
    ensures
        merge_spec(section, a, patch).1 == merge_spec(section, b, patch).1,
    decreases patch.len(),
{
    if patch.len() > 0 {
        lemma_merge_outcome_free(section, a, b, patch.drop_last());
    }
}

proof fn lemma_merge_after_insert(
    section: SetupSection,
    m: Map<Seq<char>, SettingModel>,
    k: Seq<char>,
    v: SettingModel,
    w: SettingModel,
    patch: Seq<(Seq<char>, SettingModel)>,
)
    requires
        merge_spec(section, m, patch).1 is Ok,
    ensures
        merge_spec(section, m.insert(k, v), patch).0.insert(k, w) == merge_spec(section, m, patch).0.insert(
            k,
            w,
        ),
    decreases patch.len(),
{
    lemma_merge_outcome_free(section, m, m.insert(k, v), patch);
    if patch.len() > 0 {
        let p = patch.drop_last();
        lemma_merge_outcome_free(section, m, m.insert(k, v), p);
        lemma_merge_after_insert(section, m, k, v, w, p);
        let (k2, v2) = patch.last();
        let x = merge_spec(section, m.insert(k, v), p).0;
        let y = merge_spec(section, m, p).0;
        match field_value(section, k2, v2) {
            Ok(nv) => {
                if k2 == k {
                    assert(x.insert(k2, nv).insert(k, w) =~= x.insert(k, w));
                    assert(y.insert(k2, nv).insert(k, w) =~= y.insert(k, w));
                } else {
                    assert(x.insert(k2, nv).insert(k, w) =~= x.insert(k, w).insert(k2, nv));
                    assert(y.insert(k2, nv).insert(k, w) =~= y.insert(k, w).insert(k2, nv));
                }
            },
            Err(_) => {},
        }
    }
}

/// A patch that a section accepts, applied once more to the section it
/// gave, is accepted again and changes nothing.
pub proof fn law_merge_idempotent(
    section: SetupSection,
    current: Map<Seq<char>, SettingModel>,
    patch: Seq<(Seq<char>, SettingModel)>,
)
    requires
        merge_spec(section, current, patch).1 is Ok,
    ensures
        merge_spec(section, merge_spec(section, current, patch).0, patch) == merge_spec(
            section,
            current,
            patch,
        ),
    decreases patch.len(),
{
    let m = merge_spec(section, current, patch).0;
    lemma_merge_outcome_free(section, current, m, patch);
    if patch.len() > 0 {
        let p = patch.drop_last();
        let (k, v) = patch.last();
        law_merge_idempotent(section, current, p);
        let y = merge_spec(section, current, p).0;
        match field_value(section, k, v) {
            Ok(nv) => {
                assert(m == y.insert(k, nv));
                lemma_merge_after_insert(section, y, k, nv, nv, p);
                lemma_merge_outcome_free(section, y, y.insert(k, nv), p);
            },
            Err(_) => {},
        }
    }
}

/// Whether a section's rule for field `k` keeps `v` as it is.
pub open spec fn stable(section: SetupSection, k: Seq<char>, v: SettingModel) -> bool {
    field_value(section, k, v) == Ok::<SettingModel, Seq<char>>(v)
}

/// A patch made of a section's own current values, each of which its rule
/// keeps as it is, is accepted and leaves the section unchanged.
pub proof fn law_merge_stable_values(
    section: SetupSection,
    current: Map<Seq<char>, SettingModel>,
    patch: Seq<(Seq<char>, SettingModel)>,
)
    requires
        forall|i: int|
            0 <= i < patch.len() ==> current.dom().contains((#[trigger] patch[i]).0) && patch[i].1
                == current[patch[i].0] && stable(section, patch[i].0, patch[i].1),
    ensures
        merge_spec(section, current, patch) == (current, Ok::<(), Seq<char>>(())),
    decreases patch.len(),
{
    if patch.len() > 0 {
        let p = patch.drop_last();
        assert forall|i: int| 0 <= i < p.len() implies current.dom().contains((#[trigger] p[i]).0) && p[i].1
            == current[p[i].0] && stable(section, p[i].0, p[i].1) by {
            assert(p[i] == patch[i]);
        }
        law_merge_stable_values(section, current, p);
        let (k, v) = patch.last();
        assert(patch.last() == patch[patch.len() - 1]);
        assert(current.insert(k, v) =~= current);
    }
}

/// A text of ASCII letters, digits and `_`: trimming keeps it, and its
/// length in bytes is its length.
proof fn lemma_plain_word(s: Seq<char>)
    requires
        forall|i: int| 0 <= i < s.len() ==> crate::text::is_ascii_alnum(#[trigger] s[i]) || s[i] == '_',
    ensures
        trim(s) == s,
        utf8_len(s) == s.len(),
    decreases s.len(),
{
    assert forall|i: int| 0 <= i < s.len() implies !crate::text::is_ws(#[trigger] s[i]) by {
        assert(crate::text::is_ascii_alnum(s[i]) || s[i] == '_');
    }
    crate::text::lemma_trim_no_ws(s);
    if s.len() > 0 {
        let d = s.drop_last();
        assert forall|i: int| 0 <= i < d.len() implies crate::text::is_ascii_alnum(#[trigger] d[i]) || d[i]
            == '_' by {
            assert(d[i] == s[i]);
        }
        lemma_plain_word(d);
        assert(crate::text::is_ascii_alnum(s.last()) || s.last() == '_');
    }
}

/// A text with no upper-case ASCII letter is its own lower case; one with
/// no lower-case ASCII letter is its own upper case.
proof fn lemma_case_kept(s: Seq<char>)
    ensures
        (forall|i: int| 0 <= i < s.len() ==> !crate::text::is_ascii_upper(#[trigger] s[i])) ==> lower(s) == s,
        (forall|i: int| 0 <= i < s.len() ==> !crate::text::is_ascii_lower(#[trigger] s[i])) ==> upper(s) == s,
{
    assert((forall|i: int| 0 <= i < s.len() ==> !crate::text::is_ascii_upper(#[trigger] s[i])) ==> lower(s) =~= s);
    assert((forall|i: int| 0 <= i < s.len() ==> !crate::text::is_ascii_lower(#[trigger] s[i])) ==> upper(s) =~= s);
}

proof fn lemma_analysis_stable()
    ensures
        forall|k: Seq<char>|
            #[trigger] default_values(SetupSection::Analysis).dom().contains(k) ==> stable(
                SetupSection::Analysis,
                k,
                default_values(SetupSection::Analysis)[k],
            ),
{
    reveal_strlit("defaultStudentScope");
    reveal_strlit("showInactiveStudents");
    reveal_strlit("showDeletedEntries");
    reveal_strlit("histogramBins");
    reveal_strlit("defaultSortBy");
    reveal_strlit("defaultTopBottomCount");
    reveal_strlit("valid");
    reveal_strlit("all");
    reveal_strlit("active");
    reveal_strlit("sortOrder");
    reveal_strlit("sortorder");
    lemma_plain_word("valid"@);
    lemma_case_kept("valid"@);
    lemma_plain_word("sortOrder"@);
    assert(lower("sortOrder"@) =~= "sortorder"@);
    let d = default_values(SetupSection::Analysis);
    assert(stable(SetupSection::Analysis, "defaultStudentScope"@, text_value("valid"@)));
    assert(stable(SetupSection::Analysis, "showInactiveStudents"@, SettingModel::Bool(false)));
    assert(stable(SetupSection::Analysis, "showDeletedEntries"@, SettingModel::Bool(false)));
    assert(stable(SetupSection::Analysis, "histogramBins"@, SettingModel::Int(10)));
    assert("defaultSortBy"@ != "histogramBins"@) by {
        assert("defaultSortBy"@[0] != "histogramBins"@[0]);
    }
    assert(stable(SetupSection::Analysis, "defaultSortBy"@, text_value("sortOrder"@)));
    assert(stable(SetupSection::Analysis, "defaultTopBottomCount"@, SettingModel::Int(5)));
}

proof fn lemma_attendance_stable()
    ensures
        forall|k: Seq<char>|
            #[trigger] default_values(SetupSection::Attendance).dom().contains(k) ==> stable(
                SetupSection::Attendance,
                k,
                default_values(SetupSection::Attendance)[k],
            ),
{
    reveal_strlit("A");
    reveal_strlit("E");
    reveal_strlit("L");
    reveal_strlit("P");
    reveal_strlit("absentCode");
    reveal_strlit("excusedCode");
    reveal_strlit("lateCode");
    reveal_strlit("presentCode");
    reveal_strlit("schoolYearStartMonth");
    reveal_strlit("tardyThresholdMinutes");
    lemma_plain_word("P"@);
    lemma_case_kept("P"@);
    lemma_plain_word("A"@);
    lemma_case_kept("A"@);
    lemma_plain_word("L"@);
    lemma_case_kept("L"@);
    lemma_plain_word("E"@);
    lemma_case_kept("E"@);
    assert("presentCode"@ != "excusedCode"@) by {
        assert("presentCode"@[0] != "excusedCode"@[0]);
    }
    assert(stable(SetupSection::Attendance, "schoolYearStartMonth"@, SettingModel::Int(9)));
    assert(stable(SetupSection::Attendance, "presentCode"@, text_value("P"@)));
    assert(stable(SetupSection::Attendance, "absentCode"@, text_value("A"@)));
    assert(stable(SetupSection::Attendance, "lateCode"@, text_value("L"@)));
    assert(stable(SetupSection::Attendance, "excusedCode"@, text_value("E"@)));
    assert(stable(SetupSection::Attendance, "tardyThresholdMinutes"@, SettingModel::Int(10)));
}

proof fn lemma_comments_stable()
    ensures
        forall|k: Seq<char>|
            #[trigger] default_values(SetupSection::Comments).dom().contains(k) && k != "appendSeparator"@ ==> stable(
                SetupSection::Comments,
                k,
                default_values(SetupSection::Comments)[k],
            ),
{
    reveal_strlit("append");
    reveal_strlit("appendSeparator");
    reveal_strlit("defaultMaxChars");
    reveal_strlit("defaultTransferPolicy");
    reveal_strlit("enforceFit");
    reveal_strlit("enforceMaxChars");
    reveal_strlit("fill_blank");
    reveal_strlit("replace");
    reveal_strlit("source_if_longer");
    lemma_plain_word("fill_blank"@);
    lemma_case_kept("fill_blank"@);
    assert("appendSeparator"@ != "enforceMaxChars"@) by {
        assert("appendSeparator"@[0] != "enforceMaxChars"@[0]);
    }
    assert("appendSeparator"@ != "defaultMaxChars"@) by {
        assert("appendSeparator"@[0] != "defaultMaxChars"@[0]);
    }
    assert("enforceMaxChars"@ != "defaultMaxChars"@) by {
        assert("enforceMaxChars"@[0] != "defaultMaxChars"@[0]);
    }
    assert(stable(SetupSection::Comments, "defaultTransferPolicy"@, text_value("fill_blank"@)));
    assert(stable(SetupSection::Comments, "enforceFit"@, SettingModel::Bool(true)));
    assert(stable(SetupSection::Comments, "enforceMaxChars"@, SettingModel::Bool(true)));
    assert(stable(SetupSection::Comments, "defaultMaxChars"@, SettingModel::Int(600)));
}

proof fn lemma_printer_stable()
    ensures
        forall|k: Seq<char>|
            #[trigger] default_values(SetupSection::Printer).dom().contains(k) ==> stable(
                SetupSection::Printer,
                k,
                default_values(SetupSection::Printer)[k],
            ),
{
    reveal_strlit("defaultMarginMm");
    reveal_strlit("fontScale");
    reveal_strlit("landscapeWideTables");
    reveal_strlit("repeatHeaders");
    reveal_strlit("showGeneratedAt");
    assert("showGeneratedAt"@ != "defaultMarginMm"@) by {
        assert("showGeneratedAt"@[0] != "defaultMarginMm"@[0]);
    }
    assert(stable(SetupSection::Printer, "fontScale"@, SettingModel::Int(100)));
    assert(stable(SetupSection::Printer, "landscapeWideTables"@, SettingModel::Bool(true)));
    assert(stable(SetupSection::Printer, "repeatHeaders"@, SettingModel::Bool(true)));
    assert(stable(SetupSection::Printer, "showGeneratedAt"@, SettingModel::Bool(true)));
    assert(stable(SetupSection::Printer, "defaultMarginMm"@, SettingModel::Int(12)));
}

proof fn lemma_planner_stable()
    ensures
        forall|k: Seq<char>|
            #[trigger] default_values(SetupSection::Planner).dom().contains(k) ==> stable(
                SetupSection::Planner,
                k,
                default_values(SetupSection::Planner)[k],
            ),
{
    reveal_strlit("Unit");
    reveal_strlit("archived");
    reveal_strlit("defaultLessonDurationMinutes");
    reveal_strlit("defaultPublishStatus");
    reveal_strlit("defaultUnitTitlePrefix");
    reveal_strlit("draft");
    reveal_strlit("published");
    reveal_strlit("showArchivedByDefault");
    lemma_plain_word("draft"@);
    lemma_case_kept("draft"@);
    lemma_plain_word("Unit"@);
    lemma_case_kept("Unit"@);
    assert(stable(SetupSection::Planner, "defaultLessonDurationMinutes"@, SettingModel::Int(75)));
    assert(stable(SetupSection::Planner, "defaultPublishStatus"@, text_value("draft"@)));
    assert(stable(SetupSection::Planner, "showArchivedByDefault"@, SettingModel::Bool(false)));
    assert(stable(SetupSection::Planner, "defaultUnitTitlePrefix"@, text_value("Unit"@)));
}

proof fn lemma_course_description_stable()
    ensures
        forall|k: Seq<char>|
            #[trigger] default_values(SetupSection::CourseDescription).dom().contains(k) ==> stable(
                SetupSection::CourseDescription,
                k,
                default_values(SetupSection::CourseDescription)[k],
            ),
{
    reveal_strlit("defaultPeriodMinutes");
    reveal_strlit("defaultPeriodsPerWeek");
    reveal_strlit("defaultTotalWeeks");
    reveal_strlit("includePolicyByDefault");
    assert(stable(SetupSection::CourseDescription, "defaultPeriodMinutes"@, SettingModel::Int(75)));
    assert(stable(SetupSection::CourseDescription, "defaultPeriodsPerWeek"@, SettingModel::Int(5)));
    assert(stable(SetupSection::CourseDescription, "defaultTotalWeeks"@, SettingModel::Int(36)));
    assert(stable(SetupSection::CourseDescription, "includePolicyByDefault"@, SettingModel::Bool(true)));
}

proof fn lemma_reports_stable()
    ensures
        forall|k: Seq<char>|
            #[trigger] default_values(SetupSection::Reports).dom().contains(k) ==> stable(
                SetupSection::Reports,
                k,
                default_values(SetupSection::Reports)[k],
            ),
{
    reveal_strlit("active");
    reveal_strlit("all");
    reveal_strlit("classic");
    reveal_strlit("compact");
    reveal_strlit("defaultStudentScope");
    reveal_strlit("minimal");
    reveal_strlit("plannerHeaderStyle");
    reveal_strlit("showGeneratedAt");
    reveal_strlit("valid");
    lemma_plain_word("classic"@);
    lemma_case_kept("classic"@);
    lemma_plain_word("valid"@);
    lemma_case_kept("valid"@);
    assert(stable(SetupSection::Reports, "plannerHeaderStyle"@, text_value("classic"@)));
    assert(stable(SetupSection::Reports, "showGeneratedAt"@, SettingModel::Bool(true)));
    assert(stable(SetupSection::Reports, "defaultStudentScope"@, text_value("valid"@)));
}

proof fn lemma_security_stable()
    ensures
        forall|k: Seq<char>|
            #[trigger] default_values(SetupSection::Security).dom().contains(k) ==> stable(
                SetupSection::Security,
                k,
                default_values(SetupSection::Security)[k],
            ),
{
    reveal_strlit("autoLockMinutes");
    reveal_strlit("confirmDeletes");
    reveal_strlit("passwordEnabled");
    reveal_strlit("passwordHint");
    assert("passwordEnabled"@ != "autoLockMinutes"@) by {
        assert("passwordEnabled"@[0] != "autoLockMinutes"@[0]);
    }
    assert(stable(SetupSection::Security, "passwordEnabled"@, SettingModel::Bool(false)));
    assert(stable(SetupSection::Security, "passwordHint"@, SettingModel::Null));
    assert(stable(SetupSection::Security, "confirmDeletes"@, SettingModel::Bool(true)));
    assert(stable(SetupSection::Security, "autoLockMinutes"@, SettingModel::Int(0)));
}

proof fn lemma_email_stable()
    ensures
        forall|k: Seq<char>|
            #[trigger] default_values(SetupSection::Email).dom().contains(k) ==> stable(
                SetupSection::Email,
                k,
                default_values(SetupSection::Email)[k],
            ),
{
    reveal_strlit("");
    reveal_strlit("MarkBook");
    reveal_strlit("defaultCc");
    reveal_strlit("enabled");
    reveal_strlit("fromName");
    reveal_strlit("replyTo");
    reveal_strlit("subjectPrefix");
    lemma_plain_word(""@);
    lemma_case_kept(""@);
    lemma_plain_word(""@);
    lemma_case_kept(""@);
    lemma_plain_word("MarkBook"@);
    lemma_case_kept("MarkBook"@);
    lemma_plain_word(""@);
    lemma_case_kept(""@);
    assert("enabled"@ != "replyTo"@) by {
        assert("enabled"@[0] != "replyTo"@[0]);
    }
    assert(stable(SetupSection::Email, "enabled"@, SettingModel::Bool(false)));
    assert(stable(SetupSection::Email, "fromName"@, text_value(""@)));
    assert(stable(SetupSection::Email, "replyTo"@, text_value(""@)));
    assert(stable(SetupSection::Email, "subjectPrefix"@, text_value("MarkBook"@)));
    assert(stable(SetupSection::Email, "defaultCc"@, text_value(""@)));
}

/// Saving a section's default values and loading them back gives the
/// defaults: a patch made of the section's own defaults (any of them, in
/// any order, repeats allowed) is accepted and changes nothing. This holds
/// for every default that a save keeps as it is: all but the comment
/// separator, a single space, which a save trims to nothing.
pub proof fn law_defaults_reload(section: SetupSection, patch: Seq<(Seq<char>, SettingModel)>)
    requires
        forall|i: int|
            0 <= i < patch.len() ==> default_values(section).dom().contains((#[trigger] patch[i]).0)
                && patch[i].1 == default_values(section)[patch[i].0] && !(section is Comments && patch[i].0
                == "appendSeparator"@),
    ensures
        merge_spec(section, default_values(section), patch) == (default_values(section), Ok::<(), Seq<char>>(())),
        loaded_values(section, Some(patch)) == default_values(section),
{
    match section {
        SetupSection::Analysis => lemma_analysis_stable(),
        SetupSection::Attendance => lemma_attendance_stable(),
        SetupSection::Comments => lemma_comments_stable(),
        SetupSection::Printer => lemma_printer_stable(),
        SetupSection::Planner => lemma_planner_stable(),
        SetupSection::CourseDescription => lemma_course_description_stable(),
        SetupSection::Reports => lemma_reports_stable(),
        SetupSection::Security => lemma_security_stable(),
        SetupSection::Email => lemma_email_stable(),
    }
    let d = default_values(section);
    assert forall|i: int| 0 <= i < patch.len() implies d.dom().contains((#[trigger] patch[i]).0) && patch[i].1
        == d[patch[i].0] && stable(section, patch[i].0, patch[i].1) by {
        assert(d.dom().contains(patch[i].0));
    }
    law_merge_stable_values(section, d, patch);
}


// ---------------------------------------------------------------------------
// The words of a choice field
// ---------------------------------------------------------------------------

/// The words that the refusal message of choice `c` lists, in order.
pub open spec fn listed_words(c: Choices) -> Seq<Seq<char>> {
    match c {
        Choices::StudentScope => seq!["all"@, "active"@, "valid"@],
        Choices::TransferPolicy => seq!["replace"@, "append"@, "fill_blank"@, "source_if_longer"@],
        Choices::PublishStatus => seq!["draft"@, "published"@, "archived"@],
        Choices::HeaderStyle => seq!["compact"@, "classic"@, "minimal"@],
    }
}

/// Words written one after another, separated by `, `.
pub open spec fn word_list(ws: Seq<Seq<char>>) -> Seq<char>
    decreases ws.len(),
{
    if ws.len() == 0 {
        Seq::empty()
    } else if ws.len() == 1 {
        ws[0]
    } else {
        word_list(ws.drop_last()) + ", "@ + ws.last()
    }
}

/// The refusal message of a choice field names the field and lists exactly
/// the words `listed_words` gives.
pub proof fn law_choice_message_lists_words(c: Choices, k: Seq<char>)
    ensures
        choice_message(c, k) == k + " must be one of: "@ + word_list(listed_words(c)),
{
    reveal_with_fuel(word_list, 5);
    reveal_strlit(", ");
    reveal_strlit(" must be one of: ");
    match c {
        Choices::StudentScope => {
            reveal_strlit("all");
            reveal_strlit("active");
            reveal_strlit("valid");
            reveal_strlit(" must be one of: all, active, valid");
            let ws = listed_words(c);
            assert(ws.drop_last().drop_last() =~= seq!["all"@]);
            assert(ws.drop_last() =~= seq!["all"@, "active"@]);
            assert(" must be one of: all, active, valid"@ =~= " must be one of: "@ + word_list(ws));
            assert(k + " must be one of: all, active, valid"@ =~= k + " must be one of: "@ + word_list(ws));
        },
        Choices::TransferPolicy => {
            reveal_strlit("replace");
            reveal_strlit("append");
            reveal_strlit("fill_blank");
            reveal_strlit("source_if_longer");
            reveal_strlit(" must be one of: replace, append, fill_blank, source_if_longer");
            let ws = listed_words(c);
            assert(ws.drop_last().drop_last().drop_last() =~= seq!["replace"@]);
            assert(ws.drop_last().drop_last() =~= seq!["replace"@, "append"@]);
            assert(ws.drop_last() =~= seq!["replace"@, "append"@, "fill_blank"@]);
            assert(" must be one of: replace, append, fill_blank, source_if_longer"@ =~= " must be one of: "@
                + word_list(ws));
            assert(k + " must be one of: replace, append, fill_blank, source_if_longer"@ =~= k
                + " must be one of: "@ + word_list(ws));
        },
        Choices::PublishStatus => {
            reveal_strlit("draft");
            reveal_strlit("published");
            reveal_strlit("archived");
            reveal_strlit(" must be one of: draft, published, archived");
            let ws = listed_words(c);
            assert(ws.drop_last().drop_last() =~= seq!["draft"@]);
            assert(ws.drop_last() =~= seq!["draft"@, "published"@]);
            assert(" must be one of: draft, published, archived"@ =~= " must be one of: "@ + word_list(ws));
            assert(k + " must be one of: draft, published, archived"@ =~= k + " must be one of: "@ + word_list(ws));
        },
        Choices::HeaderStyle => {
            reveal_strlit("compact");
            reveal_strlit("classic");
            reveal_strlit("minimal");
            reveal_strlit(" must be one of: compact, classic, minimal");
            let ws = listed_words(c);
            assert(ws.drop_last().drop_last() =~= seq!["compact"@]);
            assert(ws.drop_last() =~= seq!["compact"@, "classic"@]);
            assert(" must be one of: compact, classic, minimal"@ =~= " must be one of: "@ + word_list(ws));
            assert(k + " must be one of: compact, classic, minimal"@ =~= k + " must be one of: "@ + word_list(ws));
        },
    }
}

/// A choice field takes a text exactly where, trimmed and in lower case, it
/// is one of the words that the field's refusal message lists, and then
/// stores it in that form (a text too long for the field is refused first).
pub proof fn law_choice_field_takes_listed_words(section: SetupSection, k: Seq<char>, v: Seq<char>)
    requires
        field_rule(section, k) matches Some(FieldRule::Choice(max, _)) && utf8_len(trim(v)) <= max,
    ensures
        field_rule(section, k) matches Some(FieldRule::Choice(_, c)) && (listed_words(c).contains(lower(trim(v)))
            ==> field_value(section, k, SettingModel::Text(v)) == Ok::<SettingModel, Seq<char>>(
            SettingModel::Text(lower(trim(v))),
        )) && (!listed_words(c).contains(lower(trim(v))) ==> field_value(section, k, SettingModel::Text(v))
            == Err::<SettingModel, Seq<char>>(choice_message(c, k))),
{
    match field_rule(section, k) {
        Some(FieldRule::Choice(max, c)) => {
            let w = lower(trim(v));
            let ws = listed_words(c);
            if ws.contains(w) {
                let i = choose|i: int| 0 <= i < ws.len() && ws[i] == w;
                assert(chosen(c, w));
            } else {
                if chosen(c, w) {
                    match c {
                        Choices::StudentScope => {
                            if w == "all"@ {
                                assert(ws[0] == w);
                            } else if w == "active"@ {
                                assert(ws[1] == w);
                            } else {
                                assert(ws[2] == w);
                            }
                        },
                        Choices::TransferPolicy => {
                            if w == "replace"@ {
                                assert(ws[0] == w);
                            } else if w == "append"@ {
                                assert(ws[1] == w);
                            } else if w == "fill_blank"@ {
                                assert(ws[2] == w);
                            } else {
                                assert(ws[3] == w);
                            }
                        },
                        Choices::PublishStatus => {
                            if w == "draft"@ {
                                assert(ws[0] == w);
                            } else if w == "published"@ {
                                assert(ws[1] == w);
                            } else {
                                assert(ws[2] == w);
                            }
                        },
                        Choices::HeaderStyle => {
                            if w == "compact"@ {
                                assert(ws[0] == w);
                            } else if w == "classic"@ {
                                assert(ws[1] == w);
                            } else {
                                assert(ws[2] == w);
                            }
                        },
                    }
                }
            }
        },
        _ => {},
    }
}

} // verus!
