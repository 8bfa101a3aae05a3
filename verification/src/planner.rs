//! Dates of the lesson planner.
use vstd::prelude::*;
use crate::text::{chars_of, string_of_seq, trim, trim_chars};

verus! {

/// What chrono makes of a date text `s` moved by `days` days: nothing where
/// `s` is no `%Y-%m-%d` date; a date without a value where the move leaves
/// chrono's range of dates or of time spans; else the moved date written
/// as `%Y-%m-%d`.
pub uninterp spec fn ymd_shift(s: Seq<char>, days: i64) -> Option<Option<Seq<char>>>;

pub open spec fn opt_opt_view(r: Option<Option<String>>) -> Option<Option<Seq<char>>> {
    match r {
        None => None,
        Some(None) => Some(None),
        Some(Some(x)) => Some(Some(x@)),
    }
}

/// chrono's `NaiveDate::parse_from_str(s, "%Y-%m-%d")`, then
/// `TimeDelta::try_days(days)` and `NaiveDate::checked_add_signed`, then
/// `format("%Y-%m-%d")`. The contract names the outcome `ymd_shift` of the
/// text and the day count, and claims nothing more of it.
#[verifier::external_body]
fn shift_ymd(s: &str, days: i64) -> (r: Option<Option<String>>)
    ensures
        opt_opt_view(r) == ymd_shift(s@, days),
{
    let d = match chrono::NaiveDate::parse_from_str(s, "%Y-%m-%d") {
        Ok(d) => d,
        Err(_) => return None,
    };
    let t = match chrono::TimeDelta::try_days(days) {
        Some(t) => t,
        None => return Some(None),
    };
    match d.checked_add_signed(t) {
        Some(x) => Some(Some(x.format("%Y-%m-%d").to_string())),
        None => Some(None),
    }
}

pub open spec fn opt_text(o: Option<String>) -> Option<Seq<char>> {
    match o {
        Some(s) => Some(s@),
        None => None,
    }
}

/// A planner date moved by `day_offset` days: nothing for no date or a
/// blank one; the date trimmed where the offset is 0 or the text is no
/// `%Y-%m-%d` date; else the moved date.
pub open spec fn shifted_date(value: Option<Seq<char>>, day_offset: i64) -> Option<Seq<char>> {
    match value {
        None => None,
        Some(v) => {
            let t = trim(v);
            if t.len() == 0 {
                None
            } else if day_offset == 0 {
                Some(t)
            } else {
                match ymd_shift(t, day_offset) {
                    None => Some(t),
                    Some(Some(x)) => Some(x),
                    Some(None) => None,
                }
            }
        },
    }
}

/// Whether moving the date leaves chrono's range (where the planner stops
/// with a panic).
pub open spec fn shift_overflows(value: Option<Seq<char>>, day_offset: i64) -> bool {
    match value {
        None => false,
        Some(v) => trim(v).len() > 0 && day_offset != 0 && ymd_shift(trim(v), day_offset) == Some(
            None::<Seq<char>>,
        ),
    }
}

/// A planner date moved by `day_offset` days (see `shifted_date`), where
/// the move stays in chrono's range.
pub fn shift_iso_date(value: Option<String>, day_offset: i64) -> (r: Option<String>)
    requires
        !shift_overflows(opt_text(value), day_offset),
    ensures
        opt_text(r) == shifted_date(opt_text(value), day_offset),
{
    let raw = match value {
        Some(v) => v,
        None => return None,
    };
    let t = trim_chars(chars_of(raw.as_str()).as_slice());
    if t.len() == 0 {
        return None;
    }
    let trimmed = string_of_seq(&t);
    if day_offset == 0 {
        return Some(trimmed);
    }
    let outcome = shift_ymd(trimmed.as_str(), day_offset);
    apply_shift(trimmed, outcome)
}

/// The planner date given the outcome of moving the trimmed date `trimmed`:
/// the date itself where it is no date, the moved date where there is one,
/// and nothing where the move left chrono's range.
pub fn apply_shift(trimmed: String, outcome: Option<Option<String>>) -> (r: Option<String>)
    ensures
        opt_text(r) == match opt_opt_view(outcome) {
            None => Some(trimmed@),
            Some(Some(x)) => Some(x),
            Some(None) => None,
        },
{
    match outcome {
        None => Some(trimmed),
        Some(Some(x)) => Some(x),
        Some(None) => None,
    }
}

/// A planner date moved by `day_offset` days: `None` where the move leaves
/// chrono's range, else the moved date (see `shift_iso_date`).
pub fn shift_iso_date_checked(value: Option<String>, day_offset: i64) -> (r: Option<Option<String>>)
    ensures
        match r {
            None => shift_overflows(opt_text(value), day_offset),
            Some(d) => !shift_overflows(opt_text(value), day_offset) && opt_text(d) == shifted_date(
                opt_text(value),
                day_offset,
            ),
        },
{
    let overflows = match &value {
        None => false,
        Some(v) => {
            let t = trim_chars(chars_of(v.as_str()).as_slice());
            if t.len() == 0 || day_offset == 0 {
                false
            } else {
                let s = string_of_seq(&t);
                match shift_ymd(s.as_str(), day_offset) {
                    Some(None) => true,
                    _ => false,
                }
            }
        },
    };
    if overflows {
        None
    } else {
        Some(shift_iso_date(value, day_offset))
    }
}


// ---------------------------------------------------------------------------
// Lists stored as JSON text
// ---------------------------------------------------------------------------

pub open spec fn texts_view(v: Seq<String>) -> Seq<Seq<char>> {
    v.map_values(|x: String| x@)
}

/// What serde_json makes of `raw` read as a JSON array of strings: nothing
/// where it is no such array.
pub uninterp spec fn json_string_list(raw: Seq<char>) -> Option<Seq<Seq<char>>>;

/// `serde_json::from_str::<Vec<String>>(raw)`, its error dropped. The
/// contract names the outcome `json_string_list` of the text and claims
/// nothing more of it.
#[verifier::external_body]
fn json_string_list_of(raw: &str) -> (r: Option<Vec<String>>)
    ensures
        match r {
            Some(v) => json_string_list(raw@) == Some(texts_view(v@)),
            None => json_string_list(raw@) is None,
        },
{
    serde_json::from_str::<Vec<String>>(raw).ok()
}

/// What serde_json writes for a list of strings as a JSON array: nothing
/// where it reports an error.
pub uninterp spec fn json_list_text(values: Seq<Seq<char>>) -> Option<Seq<char>>;

/// `serde_json::to_string(values)` for a slice of strings, its error
/// dropped. The contract names the outcome `json_list_text` of the strings
/// and claims nothing more of it.
#[verifier::external_body]
fn json_list_text_of(values: &[String]) -> (r: Option<String>)
    ensures
        match r {
            Some(t) => json_list_text(texts_view(values@)) == Some(t@),
            None => json_list_text(texts_view(values@)) is None,
        },
{
    serde_json::to_string(values).ok()
}

/// A list column of the planner read back: the strings of the JSON array
/// `raw`, none where `raw` is no array of strings.
pub fn parse_json_array_string(raw: &str) -> (r: Vec<String>)
    ensures
        texts_view(r@) == match json_string_list(raw@) {
            Some(v) => v,
            None => Seq::empty(),
        },
{
    match json_string_list_of(raw) {
        Some(v) => v,
        None => Vec::new(),
    }
}

/// A list of the planner as it is stored: the JSON array of its strings,
/// `[]` where serde_json reports an error.
pub fn json_array_string(values: &[String]) -> (r: String)
    ensures
        r@ == match json_list_text(texts_view(values@)) {
            Some(t) => t,
            None => "[]"@,
        },
{
    match json_list_text_of(values) {
        Some(t) => t,
        None => String::from_str("[]"),
    }
}

} // verus!
