//! The inputs of new planner units and lessons: which fields a request
//! gives, trimmed and checked, and which one it gets wrong first.
use vstd::prelude::*;
use crate::params::{
    all_texts, kept_items, non_blank, opt_view, parse_bool, parse_opt_i64, parse_opt_string,
    parse_string_array, text_of, texts, ParamValue,
};
use crate::text::{append_chars, chars_of, string_of_seq, trim, trim_chars};

verus! {

/// An optional text parameter (see `parse_opt_string`).
pub open spec fn opt_string_param(v: Option<&ParamValue>) -> Result<Option<Seq<char>>, Seq<char>> {
    match v {
        None | Some(ParamValue::Null) => Ok(None),
        Some(ParamValue::Text(s)) => Ok(non_blank(s@)),
        _ => Err("must be string or null"@),
    }
}

/// A list-of-texts parameter (see `parse_string_array`).
pub open spec fn string_list_param(v: Option<&ParamValue>) -> Result<Seq<Seq<char>>, Seq<char>> {
    match v {
        None | Some(ParamValue::Null) => Ok(Seq::empty()),
        Some(ParamValue::List(items)) => if all_texts(items@) {
            Ok(kept_items(items@))
        } else {
            Err("must be array of strings"@)
        },
        _ => Err("must be array of strings"@),
    }
}

/// A boolean parameter (see `parse_bool`).
pub open spec fn bool_param(v: Option<&ParamValue>, d: bool) -> Result<bool, Seq<char>> {
    match v {
        None | Some(ParamValue::Null) => Ok(d),
        Some(ParamValue::Bool(b)) => Ok(*b),
        _ => Err("must be boolean"@),
    }
}

/// An optional integer parameter (see `parse_opt_i64`).
pub open spec fn opt_int_param(v: Option<&ParamValue>) -> Result<Option<i64>, Seq<char>> {
    match v {
        None | Some(ParamValue::Null) => Ok(None),
        Some(ParamValue::Int(n)) => Ok(Some(*n)),
        _ => Err("must be integer or null"@),
    }
}

/// The refusal of input field `field` whose parameter is refused with `m`.
pub open spec fn field_error<T>(r: Result<T, Seq<char>>, field: Seq<char>) -> Option<Seq<char>> {
    match r {
        Err(m) => Some("input."@ + field + " "@ + m),
        Ok(_) => None,
    }
}

/// The refusal of a title: required, and not blank once trimmed.
pub open spec fn title_error(title: Option<Seq<char>>) -> Option<Seq<char>> {
    match title {
        None => Some("input.title is required"@),
        Some(t) => if trim(t).len() == 0 {
            Some("input.title must not be empty"@)
        } else {
            None
        },
    }
}

/// The refusal of a sort order: an integer or null, and not below 0.
pub open spec fn sort_order_error(v: Option<&ParamValue>) -> Option<Seq<char>> {
    match opt_int_param(v) {
        Err(m) => field_error(opt_int_param(v), "sortOrder"@),
        Ok(Some(n)) => if n < 0 {
            Some("input.sortOrder must be >= 0"@)
        } else {
            None
        },
        Ok(None) => None,
    }
}

fn input_message(field: &str, m: &str) -> (r: String)
    ensures
        r@ == "input."@ + field@ + " "@ + m@,
{
    let mut out = chars_of("input.");
    append_chars(&mut out, chars_of(field).as_slice());
    append_chars(&mut out, chars_of(" ").as_slice());
    append_chars(&mut out, chars_of(m).as_slice());
    string_of_seq(&out)
}

fn title_of(title: Option<&ParamValue>) -> (r: Result<String, String>)
    ensures
        match r {
            Ok(t) => title_error(text_of(title)) is None && t@ == trim(text_of(title)->Some_0),
            Err(e) => title_error(text_of(title)) == Some(e@),
        },
{
    match title {
        Some(ParamValue::Text(s)) => {
            let t = trim_chars(chars_of(s.as_str()).as_slice());
            if t.len() == 0 {
                Err(String::from_str("input.title must not be empty"))
            } else {
                Ok(string_of_seq(&t))
            }
        },
        _ => Err(String::from_str("input.title is required")),
    }
}

fn opt_string_field(v: Option<&ParamValue>, field: &str) -> (r: Result<Option<String>, String>)
    ensures
        match r {
            Ok(x) => opt_string_param(v) == Ok::<Option<Seq<char>>, Seq<char>>(opt_view(x)),
            Err(e) => field_error(opt_string_param(v), field@) == Some(e@),
        },
{
    match parse_opt_string(v) {
        Ok(x) => Ok(x),
        Err(m) => Err(input_message(field, m)),
    }
}

fn string_list_field(v: Option<&ParamValue>, field: &str) -> (r: Result<Vec<String>, String>)
    ensures
        match r {
            Ok(x) => string_list_param(v) == Ok::<Seq<Seq<char>>, Seq<char>>(texts(x@)),
            Err(e) => field_error(string_list_param(v), field@) == Some(e@),
        },
{
    match parse_string_array(v) {
        Ok(x) => {
            proof {
                if x@.len() == 0 {
                    assert(texts(x@) =~= Seq::<Seq<char>>::empty());
                }
            }
            Ok(x)
        },
        Err(m) => Err(input_message(field, m)),
    }
}

fn bool_field(v: Option<&ParamValue>, d: bool, field: &str) -> (r: Result<bool, String>)
    ensures
        match r {
            Ok(x) => bool_param(v, d) == Ok::<bool, Seq<char>>(x),
            Err(e) => field_error(bool_param(v, d), field@) == Some(e@),
        },
{
    match parse_bool(v, d) {
        Ok(x) => Ok(x),
        Err(m) => Err(input_message(field, m)),
    }
}

fn sort_order_field(v: Option<&ParamValue>) -> (r: Result<Option<i64>, String>)
    ensures
        match r {
            Ok(x) => sort_order_error(v) is None && opt_int_param(v) == Ok::<Option<i64>, Seq<char>>(x),
            Err(e) => sort_order_error(v) == Some(e@),
        },
{
    match parse_opt_i64(v) {
        Ok(Some(n)) => if n >= 0 {
            Ok(Some(n))
        } else {
            Err(String::from_str("input.sortOrder must be >= 0"))
        },
        Ok(None) => Ok(None),
        Err(m) => Err(input_message("sortOrder", m)),
    }
}

/// The input of a new unit. A sort order of none means after the class's
/// last unit.
pub struct UnitInput {
    pub title: String,
    pub start_date: Option<String>,
    pub end_date: Option<String>,
    pub summary: String,
    pub expectations: Vec<String>,
    pub resources: Vec<String>,
    pub archived: bool,
    pub sort_order: Option<i64>,
}

/// The first refusal of a new unit's input, in the order title, start
/// date, end date, summary, expectations, resources, archived, sort order.
pub open spec fn unit_error(
    title: Option<&ParamValue>,
    start_date: Option<&ParamValue>,
    end_date: Option<&ParamValue>,
    summary: Option<&ParamValue>,
    expectations: Option<&ParamValue>,
    resources: Option<&ParamValue>,
    archived: Option<&ParamValue>,
    sort_order: Option<&ParamValue>,
) -> Option<Seq<char>> {
    if title_error(text_of(title)) is Some {
        title_error(text_of(title))
    } else if field_error(opt_string_param(start_date), "startDate"@) is Some {
        field_error(opt_string_param(start_date), "startDate"@)
    } else if field_error(opt_string_param(end_date), "endDate"@) is Some {
        field_error(opt_string_param(end_date), "endDate"@)
    } else if field_error(opt_string_param(summary), "summary"@) is Some {
        field_error(opt_string_param(summary), "summary"@)
    } else if field_error(string_list_param(expectations), "expectations"@) is Some {
        field_error(string_list_param(expectations), "expectations"@)
    } else if field_error(string_list_param(resources), "resources"@) is Some {
        field_error(string_list_param(resources), "resources"@)
    } else if field_error(bool_param(archived, false), "archived"@) is Some {
        field_error(bool_param(archived, false), "archived"@)
    } else {
        sort_order_error(sort_order)
    }
}

/// The input of a new unit: the fields trimmed (blank texts as none, the
/// summary blank where it has none, blank list items left out), archived
/// only where asked, or the first refusal (see `unit_error`).
pub fn unit_input(
    title: Option<&ParamValue>,
    start_date: Option<&ParamValue>,
    end_date: Option<&ParamValue>,
    summary: Option<&ParamValue>,
    expectations: Option<&ParamValue>,
    resources: Option<&ParamValue>,
    archived: Option<&ParamValue>,
    sort_order: Option<&ParamValue>,
) -> (r: Result<UnitInput, String>)
    ensures
        match r {
            Ok(u) => {
                &&& unit_error(title, start_date, end_date, summary, expectations, resources, archived, sort_order)
                    is None
                &&& u.title@ == trim(text_of(title)->Some_0)
                &&& opt_string_param(start_date) == Ok::<Option<Seq<char>>, Seq<char>>(opt_view(u.start_date))
                &&& opt_string_param(end_date) == Ok::<Option<Seq<char>>, Seq<char>>(opt_view(u.end_date))
                &&& (opt_string_param(summary) matches Ok(s) && u.summary@ == match s {
                    Some(x) => x,
                    None => Seq::empty(),
                })
                &&& string_list_param(expectations) == Ok::<Seq<Seq<char>>, Seq<char>>(texts(u.expectations@))
                &&& string_list_param(resources) == Ok::<Seq<Seq<char>>, Seq<char>>(texts(u.resources@))
                &&& bool_param(archived, false) == Ok::<bool, Seq<char>>(u.archived)
                &&& opt_int_param(sort_order) == Ok::<Option<i64>, Seq<char>>(u.sort_order)
            },
            Err(e) => unit_error(title, start_date, end_date, summary, expectations, resources, archived, sort_order)
                == Some(e@),
        },
{
    let t = match title_of(title) {
        Ok(x) => x,
        Err(e) => return Err(e),
    };
    let sd = match opt_string_field(start_date, "startDate") {
        Ok(x) => x,
        Err(e) => return Err(e),
    };
    let ed = match opt_string_field(end_date, "endDate") {
        Ok(x) => x,
        Err(e) => return Err(e),
    };
    let sm = match opt_string_field(summary, "summary") {
        Ok(x) => x,
        Err(e) => return Err(e),
    };
    let ex = match string_list_field(expectations, "expectations") {
        Ok(x) => x,
        Err(e) => return Err(e),
    };
    let rs = match string_list_field(resources, "resources") {
        Ok(x) => x,
        Err(e) => return Err(e),
    };
    let ar = match bool_field(archived, false, "archived") {
        Ok(x) => x,
        Err(e) => return Err(e),
    };
    let so = match sort_order_field(sort_order) {
        Ok(x) => x,
        Err(e) => return Err(e),
    };
    let summary_text = match sm {
        Some(s) => s,
        None => String::new(),
    };
    Ok(
        UnitInput {
            title: t,
            start_date: sd,
            end_date: ed,
            summary: summary_text,
            expectations: ex,
            resources: rs,
            archived: ar,
            sort_order: so,
        },
    )
}

/// The title and unit of a new lesson, or the first refusal: the title
/// (see `title_error`), then the unit id (an optional text).
pub fn lesson_head(title: Option<&ParamValue>, unit_id: Option<&ParamValue>) -> (r: Result<(String, Option<String>), String>)
    ensures
        match r {
            Ok(h) => {
                &&& title_error(text_of(title)) is None
                &&& h.0@ == trim(text_of(title)->Some_0)
                &&& opt_string_param(unit_id) == Ok::<Option<Seq<char>>, Seq<char>>(opt_view(h.1))
            },
            Err(e) => if title_error(text_of(title)) is Some {
                title_error(text_of(title)) == Some(e@)
            } else {
                field_error(opt_string_param(unit_id), "unitId"@) == Some(e@)
            },
        },
{
    let t = match title_of(title) {
        Ok(x) => x,
        Err(e) => return Err(e),
    };
    let u = match opt_string_field(unit_id, "unitId") {
        Ok(x) => x,
        Err(e) => return Err(e),
    };
    Ok((t, u))
}

/// The other fields of a new lesson.
pub struct LessonRest {
    pub lesson_date: Option<String>,
    pub outline: String,
    pub detail: String,
    pub follow_up: String,
    pub homework: String,
    pub duration_minutes: i64,
    pub archived: bool,
    pub sort_order: Option<i64>,
}

/// The refusal of a lesson's duration: an integer or null, and above 0.
pub open spec fn duration_error(v: Option<&ParamValue>) -> Option<Seq<char>> {
    match opt_int_param(v) {
        Err(m) => field_error(opt_int_param(v), "durationMinutes"@),
        Ok(Some(n)) => if n <= 0 {
            Some("input.durationMinutes must be > 0"@)
        } else {
            None
        },
        Ok(None) => None,
    }
}

/// The first refusal of the other fields of a new lesson, in the order
/// date, outline, detail, follow-up, homework, duration, archived, sort
/// order.
pub open spec fn lesson_rest_error(
    lesson_date: Option<&ParamValue>,
    outline: Option<&ParamValue>,
    detail: Option<&ParamValue>,
    follow_up: Option<&ParamValue>,
    homework: Option<&ParamValue>,
    duration: Option<&ParamValue>,
    archived: Option<&ParamValue>,
    sort_order: Option<&ParamValue>,
) -> Option<Seq<char>> {
    if field_error(opt_string_param(lesson_date), "lessonDate"@) is Some {
        field_error(opt_string_param(lesson_date), "lessonDate"@)
    } else if field_error(opt_string_param(outline), "outline"@) is Some {
        field_error(opt_string_param(outline), "outline"@)
    } else if field_error(opt_string_param(detail), "detail"@) is Some {
        field_error(opt_string_param(detail), "detail"@)
    } else if field_error(opt_string_param(follow_up), "followUp"@) is Some {
        field_error(opt_string_param(follow_up), "followUp"@)
    } else if field_error(opt_string_param(homework), "homework"@) is Some {
        field_error(opt_string_param(homework), "homework"@)
    } else if duration_error(duration) is Some {
        duration_error(duration)
    } else if field_error(bool_param(archived, false), "archived"@) is Some {
        field_error(bool_param(archived, false), "archived"@)
    } else {
        sort_order_error(sort_order)
    }
}

/// A text field, blank where it has none.
pub open spec fn text_or_blank(r: Result<Option<Seq<char>>, Seq<char>>) -> Seq<char> {
    match r {
        Ok(Some(x)) => x,
        _ => Seq::empty(),
    }
}

fn text_field(v: Option<&ParamValue>, field: &str) -> (r: Result<String, String>)
    ensures
        match r {
            Ok(x) => opt_string_param(v) is Ok && x@ == text_or_blank(opt_string_param(v)),
            Err(e) => field_error(opt_string_param(v), field@) == Some(e@),
        },
{
    match opt_string_field(v, field) {
        Ok(Some(x)) => Ok(x),
        Ok(None) => Ok(String::new()),
        Err(e) => Err(e),
    }
}

/// The other fields of a new lesson: texts trimmed (outline, detail,
/// follow-up and homework blank where none is given), the duration
/// (`default_duration` where none is given), archived only where asked,
/// or the first refusal (see `lesson_rest_error`).
pub fn lesson_rest(
    lesson_date: Option<&ParamValue>,
    outline: Option<&ParamValue>,
    detail: Option<&ParamValue>,
    follow_up: Option<&ParamValue>,
    homework: Option<&ParamValue>,
    duration: Option<&ParamValue>,
    archived: Option<&ParamValue>,
    sort_order: Option<&ParamValue>,
    default_duration: i64,
) -> (r: Result<LessonRest, String>)
    ensures
        match r {
            Ok(l) => {
                &&& lesson_rest_error(
                    lesson_date,
                    outline,
                    detail,
                    follow_up,
                    homework,
                    duration,
                    archived,
                    sort_order,
                ) is None
                &&& opt_string_param(lesson_date) == Ok::<Option<Seq<char>>, Seq<char>>(opt_view(l.lesson_date))
                &&& l.outline@ == text_or_blank(opt_string_param(outline))
                &&& l.detail@ == text_or_blank(opt_string_param(detail))
                &&& l.follow_up@ == text_or_blank(opt_string_param(follow_up))
                &&& l.homework@ == text_or_blank(opt_string_param(homework))
                &&& l.duration_minutes == match opt_int_param(duration) {
                    Ok(Some(n)) => n,
                    _ => default_duration,
                }
                &&& bool_param(archived, false) == Ok::<bool, Seq<char>>(l.archived)
                &&& opt_int_param(sort_order) == Ok::<Option<i64>, Seq<char>>(l.sort_order)
            },
            Err(e) => lesson_rest_error(
                lesson_date,
                outline,
                detail,
                follow_up,
                homework,
                duration,
                archived,
                sort_order,
            ) == Some(e@),
        },
{
    let ld = match opt_string_field(lesson_date, "lessonDate") {
        Ok(x) => x,
        Err(e) => return Err(e),
    };
    let ol = match text_field(outline, "outline") {
        Ok(x) => x,
        Err(e) => return Err(e),
    };
    let dt = match text_field(detail, "detail") {
        Ok(x) => x,
        Err(e) => return Err(e),
    };
    let fu = match text_field(follow_up, "followUp") {
        Ok(x) => x,
        Err(e) => return Err(e),
    };
    let hw = match text_field(homework, "homework") {
        Ok(x) => x,
        Err(e) => return Err(e),
    };
    let du = match parse_opt_i64(duration) {
        Ok(Some(n)) => if n > 0 {
            n
        } else {
            return Err(String::from_str("input.durationMinutes must be > 0"));
        },
        Ok(None) => default_duration,
        Err(m) => return Err(input_message("durationMinutes", m)),
    };
    let ar = match bool_field(archived, false, "archived") {
        Ok(x) => x,
        Err(e) => return Err(e),
    };
    let so = match sort_order_field(sort_order) {
        Ok(x) => x,
        Err(e) => return Err(e),
    };
    Ok(
        LessonRest {
            lesson_date: ld,
            outline: ol,
            detail: dt,
            follow_up: fu,
            homework: hw,
            duration_minutes: du,
            archived: ar,
            sort_order: so,
        },
    )
}

} // verus!
