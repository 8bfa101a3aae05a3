//! The rules by which the request handlers read their parameters.
use vstd::prelude::*;
use crate::text::{
    append_chars, chars_eq, chars_eq_str, chars_of, lower, lower_chars, string_of_seq, trim,
    trim_chars,
};

verus! {

/// A request parameter, as far as the handlers read it: null, a boolean, an
/// integer that fits `i64`, a text, a list (each item a text, or something
/// else), or anything else.
pub enum ParamValue {
    Null,
    Bool(bool),
    Int(i64),
    Text(String),
    List(Vec<Option<String>>),
    Other,
}

pub open spec fn opt_view(o: Option<String>) -> Option<Seq<char>> {
    match o {
        Some(s) => Some(s@),
        None => None,
    }
}

pub open spec fn texts(v: Seq<String>) -> Seq<Seq<char>> {
    v.map_values(|x: String| x@)
}

/// A boolean parameter: `default` where it is absent or null.
pub fn parse_bool(v: Option<&ParamValue>, default: bool) -> (r: Result<bool, &'static str>)
    ensures
        match v {
            None | Some(ParamValue::Null) => r == Ok::<bool, &'static str>(default),
            Some(ParamValue::Bool(b)) => r == Ok::<bool, &'static str>(*b),
            _ => r matches Err(e) && e@ == "must be boolean"@,
        },
{
    match v {
        None => Ok(default),
        Some(ParamValue::Null) => Ok(default),
        Some(ParamValue::Bool(b)) => Ok(*b),
        Some(_) => Err("must be boolean"),
    }
}

/// A text trimmed, where that leaves something.
pub open spec fn non_blank(s: Seq<char>) -> Option<Seq<char>> {
    if trim(s).len() > 0 {
        Some(trim(s))
    } else {
        None
    }
}

pub(crate) fn non_blank_of(s: &String) -> (r: Option<String>)
    ensures
        opt_view(r) == non_blank(s@),
{
    let t = trim_chars(chars_of(s.as_str()).as_slice());
    if t.len() > 0 {
        Some(string_of_seq(&t))
    } else {
        None
    }
}

/// An optional text parameter: nothing where it is absent, null or blank,
/// else the text trimmed.
pub fn parse_opt_string(v: Option<&ParamValue>) -> (r: Result<Option<String>, &'static str>)
    ensures
        match v {
            None | Some(ParamValue::Null) => r matches Ok(x) && x is None,
            Some(ParamValue::Text(s)) => r matches Ok(x) && opt_view(x) == non_blank(s@),
            _ => r matches Err(e) && e@ == "must be string or null"@,
        },
{
    match v {
        None => Ok(None),
        Some(ParamValue::Null) => Ok(None),
        Some(ParamValue::Text(s)) => Ok(non_blank_of(s)),
        Some(_) => Err("must be string or null"),
    }
}

/// An optional integer parameter.
pub fn parse_opt_i64(v: Option<&ParamValue>) -> (r: Result<Option<i64>, &'static str>)
    ensures
        match v {
            None | Some(ParamValue::Null) => r == Ok::<Option<i64>, &'static str>(None),
            Some(ParamValue::Int(n)) => r == Ok::<Option<i64>, &'static str>(Some(*n)),
            _ => r matches Err(e) && e@ == "must be integer or null"@,
        },
{
    match v {
        None => Ok(None),
        Some(ParamValue::Null) => Ok(None),
        Some(ParamValue::Int(n)) => Ok(Some(*n)),
        Some(_) => Err("must be integer or null"),
    }
}

/// Whether every item of a list is a text.
pub open spec fn all_texts(items: Seq<Option<String>>) -> bool {
    forall|i: int| 0 <= i < items.len() ==> #[trigger] items[i] is Some
}

/// The items of a list of texts, trimmed, the blank ones left out.
pub open spec fn kept_items(items: Seq<Option<String>>) -> Seq<Seq<char>>
    decreases items.len(),
{
    if items.len() == 0 {
        Seq::empty()
    } else {
        let prev = kept_items(items.drop_last());
        match items.last() {
            Some(s) => if trim(s@).len() > 0 {
                prev.push(trim(s@))
            } else {
                prev
            },
            None => prev,
        }
    }
}

/// The items of a list of texts, trimmed, the blank ones and repeats left
/// out (the first of equal items is kept).
pub open spec fn distinct_items(items: Seq<Option<String>>) -> Seq<Seq<char>>
    decreases items.len(),
{
    if items.len() == 0 {
        Seq::empty()
    } else {
        let prev = distinct_items(items.drop_last());
        match items.last() {
            Some(s) => if trim(s@).len() > 0 && !prev.contains(trim(s@)) {
                prev.push(trim(s@))
            } else {
                prev
            },
            None => prev,
        }
    }
}

/// A list-of-texts parameter: empty where it is absent or null; the
/// non-blank items trimmed where every item is a text.
pub fn parse_string_array(v: Option<&ParamValue>) -> (r: Result<Vec<String>, &'static str>)
    ensures
        match v {
            None | Some(ParamValue::Null) => r matches Ok(x) && x@.len() == 0,
            Some(ParamValue::List(items)) => if all_texts(items@) {
                r matches Ok(x) && texts(x@) == kept_items(items@)
            } else {
                r matches Err(e) && e@ == "must be array of strings"@
            },
            _ => r matches Err(e) && e@ == "must be array of strings"@,
        },
{
    let items = match v {
        None => return Ok(Vec::new()),
        Some(ParamValue::Null) => return Ok(Vec::new()),
        Some(ParamValue::List(items)) => items,
        Some(_) => return Err("must be array of strings"),
    };
    let mut out: Vec<String> = Vec::new();
    let mut k: usize = 0;
    assert(texts(out@) =~= kept_items(items@.take(0)));
    while k < items.len()
        invariant
            v == Some(&ParamValue::List(*items)),
            k <= items@.len(),
            all_texts(items@.take(k as int)),
            texts(out@) == kept_items(items@.take(k as int)),
        decreases items@.len() - k,
    {
        assert(items@.take(k + 1).drop_last() == items@.take(k as int));
        match &items[k] {
            None => {
                assert(!all_texts(items@));
                return Err("must be array of strings");
            },
            Some(s) => {
                let t = trim_chars(chars_of(s.as_str()).as_slice());
                if t.len() > 0 {
                    let ghost before = texts(out@);
                    out.push(string_of_seq(&t));
                    assert(texts(out@) == before.push(t@));
                }
            },
        }
        k += 1;
        assert(all_texts(items@.take(k as int))) by {
            assert forall|i: int| 0 <= i < k implies #[trigger] items@.take(k as int)[i] is Some by {
                if i < k - 1 {
                    assert(items@.take(k - 1)[i] == items@.take(k as int)[i]);
                }
            }
        }
    }
    assert(items@.take(items@.len() as int) == items@);
    Ok(out)
}

/// `key` followed by `tail`.
pub(crate) fn keyed(key: &str, tail: &str) -> (r: String)
    ensures
        r@ == key@ + tail@,
{
    let mut out = chars_of(key);
    append_chars(&mut out, chars_of(tail).as_slice());
    string_of_seq(&out)
}

/// Whether `s` is among `v`.
fn contains_string(v: &Vec<String>, s: &Vec<char>) -> (r: bool)
    ensures
        r == texts(v@).contains(s@),
{
    let mut i: usize = 0;
    while i < v.len()
        invariant
            i <= v@.len(),
            forall|j: int| 0 <= j < i ==> v@[j]@ != s@,
        decreases v@.len() - i,
    {
        if chars_eq(chars_of(v[i].as_str()).as_slice(), s.as_slice()) {
            assert(texts(v@)[i as int] == s@);
            return true;
        }
        i += 1;
    }
    assert(!texts(v@).contains(s@)) by {
        if texts(v@).contains(s@) {
            let j = choose|j: int| 0 <= j < texts(v@).len() && texts(v@)[j] == s@;
            assert(v@[j]@ == s@);
        }
    }
    false
}

/// A required list of lesson ids: the non-blank items, trimmed, each once;
/// refused where it is absent, not a list of texts, or leaves no id.
pub fn parse_required_string_array(v: Option<&ParamValue>, key: &str) -> (r: Result<Vec<String>, String>)
    ensures
        match v {
            None => r matches Err(e) && e@ == "missing "@ + key@,
            Some(ParamValue::List(items)) => if !all_texts(items@) {
                r matches Err(e) && e@ == key@ + " must be array of strings"@
            } else if distinct_items(items@).len() == 0 {
                r matches Err(e) && e@ == key@ + " must contain at least one lesson id"@
            } else {
                r matches Ok(x) && texts(x@) == distinct_items(items@)
            },
            _ => r matches Err(e) && e@ == key@ + " must be array of strings"@,
        },
{
    let items = match v {
        None => return Err(keyed("missing ", key)),
        Some(ParamValue::List(items)) => items,
        Some(_) => return Err(keyed(key, " must be array of strings")),
    };
    let mut out: Vec<String> = Vec::new();
    let mut k: usize = 0;
    assert(texts(out@) =~= distinct_items(items@.take(0)));
    while k < items.len()
        invariant
            v == Some(&ParamValue::List(*items)),
            k <= items@.len(),
            all_texts(items@.take(k as int)),
            texts(out@) == distinct_items(items@.take(k as int)),
        decreases items@.len() - k,
    {
        assert(items@.take(k + 1).drop_last() == items@.take(k as int));
        match &items[k] {
            None => {
                assert(!all_texts(items@));
                return Err(keyed(key, " must be array of strings"));
            },
            Some(s) => {
                let t = trim_chars(chars_of(s.as_str()).as_slice());
                if t.len() > 0 && !contains_string(&out, &t) {
                    let ghost before = texts(out@);
                    out.push(string_of_seq(&t));
                    assert(texts(out@) == before.push(t@));
                }
            },
        }
        k += 1;
        assert(all_texts(items@.take(k as int))) by {
            assert forall|i: int| 0 <= i < k implies #[trigger] items@.take(k as int)[i] is Some by {
                if i < k - 1 {
                    assert(items@.take(k - 1)[i] == items@.take(k as int)[i]);
                }
            }
        }
    }
    assert(items@.take(items@.len() as int) == items@);
    if out.len() == 0 {
        return Err(keyed(key, " must contain at least one lesson id"));
    }
    Ok(out)
}

/// The title mode of a copy: `same` or `appendCopy` (given in any ASCII
/// case, with white space around), `default` where the parameter is no
/// text; any other mode is refused.
pub open spec fn title_mode(v: Option<Seq<char>>, default: Seq<char>) -> Result<Seq<char>, Seq<char>> {
    let mode = match v {
        Some(raw) => lower(trim(raw)),
        None => default,
    };
    if mode != "same"@ && mode != "appendcopy"@ {
        Err("titleMode must be one of: same, appendCopy"@)
    } else if mode == "appendcopy"@ {
        Ok("appendCopy"@)
    } else {
        Ok("same"@)
    }
}

/// The text of a parameter that is a text.
pub open spec fn text_of(v: Option<&ParamValue>) -> Option<Seq<char>> {
    match v {
        Some(ParamValue::Text(s)) => Some(s@),
        _ => None,
    }
}

/// The title mode of a copy (see `title_mode`).
pub fn parse_title_mode(v: Option<&ParamValue>, default: &str) -> (r: Result<String, String>)
    ensures
        match r {
            Ok(m) => title_mode(text_of(v), default@) == Ok::<Seq<char>, Seq<char>>(m@),
            Err(e) => title_mode(text_of(v), default@) == Err::<Seq<char>, Seq<char>>(e@),
        },
{
    let mode = match v {
        Some(ParamValue::Text(raw)) => lower_chars(trim_chars(chars_of(raw.as_str()).as_slice()).as_slice()),
        _ => chars_of(default),
    };
    if !chars_eq_str(mode.as_slice(), "same") && !chars_eq_str(mode.as_slice(), "appendcopy") {
        return Err(String::from_str("titleMode must be one of: same, appendCopy"));
    }
    if chars_eq_str(mode.as_slice(), "appendcopy") {
        Ok(String::from_str("appendCopy"))
    } else {
        Ok(String::from_str("same"))
    }
}

/// Whether `kind` names a planner artifact: a unit, a lesson, a course
/// description or a time-management plan.
pub fn validate_artifact_kind(kind: &str) -> (r: bool)
    ensures
        r == (kind@ == "unit"@ || kind@ == "lesson"@ || kind@ == "course_description"@ || kind@
            == "time_management"@),
{
    let k = chars_of(kind);
    chars_eq_str(k.as_slice(), "unit") || chars_eq_str(k.as_slice(), "lesson") || chars_eq_str(
        k.as_slice(),
        "course_description",
    ) || chars_eq_str(k.as_slice(), "time_management")
}

/// Whether `status` is a publishing status: draft, published or archived.
pub fn validate_publish_status(status: &str) -> (r: bool)
    ensures
        r == (status@ == "draft"@ || status@ == "published"@ || status@ == "archived"@),
{
    let s = chars_of(status);
    chars_eq_str(s.as_slice(), "draft") || chars_eq_str(s.as_slice(), "published") || chars_eq_str(
        s.as_slice(),
        "archived",
    )
}

/// An optional text field of a mark set: nothing where it is absent, null
/// or blank, else the text trimmed; anything else is refused.
pub fn normalized_opt_str(value: Option<&ParamValue>, field: &str) -> (r: Result<Option<String>, String>)
    ensures
        match value {
            None | Some(ParamValue::Null) => r matches Ok(x) && x is None,
            Some(ParamValue::Text(s)) => r matches Ok(x) && opt_view(x) == non_blank(s@),
            _ => r matches Err(e) && e@ == field@ + " must be string or null"@,
        },
{
    match value {
        None => Ok(None),
        Some(ParamValue::Null) => Ok(None),
        Some(ParamValue::Text(s)) => Ok(non_blank_of(s)),
        Some(_) => Err(keyed(field, " must be string or null")),
    }
}

/// Which students a report covers.
#[derive(Clone, Copy, Debug, PartialEq, Eq, Structural)]
pub enum StudentScope {
    All,
    Active,
    Valid,
}

impl StudentScope {
    /// The scope's name.
    pub fn as_str(self) -> (r: &'static str)
        ensures
            r@ == match self {
                StudentScope::All => "all"@,
                StudentScope::Active => "active"@,
                StudentScope::Valid => "valid"@,
            },
    {
        match self {
            StudentScope::All => "all",
            StudentScope::Active => "active",
            StudentScope::Valid => "valid",
        }
    }
}

/// The scope a report asks for: `all` where it names none; else `all`,
/// `active` or `valid` in any ASCII case; any other name is refused, and
/// given back lower-cased.
pub fn parse_student_scope(raw: Option<&str>) -> (r: Result<StudentScope, String>)
    ensures
        match raw {
            None => r == Ok::<StudentScope, String>(StudentScope::All),
            Some(s) => if lower(s@) == "all"@ {
                r == Ok::<StudentScope, String>(StudentScope::All)
            } else if lower(s@) == "active"@ {
                r == Ok::<StudentScope, String>(StudentScope::Active)
            } else if lower(s@) == "valid"@ {
                r == Ok::<StudentScope, String>(StudentScope::Valid)
            } else {
                r matches Err(e) && e@ == lower(s@)
            },
        },
{
    match raw {
        None => Ok(StudentScope::All),
        Some(s) => {
            let l = lower_chars(chars_of(s).as_slice());
            if chars_eq_str(l.as_slice(), "all") {
                Ok(StudentScope::All)
            } else if chars_eq_str(l.as_slice(), "active") {
                Ok(StudentScope::Active)
            } else if chars_eq_str(l.as_slice(), "valid") {
                Ok(StudentScope::Valid)
            } else {
                Err(string_of_seq(&l))
            }
        },
    }
}

/// A required text parameter: its text trimmed, where it is a text that is
/// not blank; else `missing {key}`.
pub fn get_required_str(v: Option<&ParamValue>, key: &str) -> (r: Result<String, String>)
    ensures
        match text_of(v) {
            Some(s) => if trim(s).len() > 0 {
                r matches Ok(x) && x@ == trim(s)
            } else {
                r matches Err(e) && e@ == "missing "@ + key@
            },
            None => r matches Err(e) && e@ == "missing "@ + key@,
        },
{
    match v {
        Some(ParamValue::Text(s)) => {
            let t = trim_chars(chars_of(s.as_str()).as_slice());
            if t.len() > 0 {
                Ok(string_of_seq(&t))
            } else {
                Err(keyed("missing ", key))
            }
        },
        _ => Err(keyed("missing ", key)),
    }
}

/// A text setting read in lower case, where it is not blank; else
/// `default`.
pub open spec fn setup_string(
    m: Map<Seq<char>, crate::setup::SettingModel>,
    field: Seq<char>,
    default: Seq<char>,
) -> Seq<char> {
    match m.get(field) {
        Some(crate::setup::SettingModel::Text(s)) => if trim(lower(s)).len() > 0 {
            lower(s)
        } else {
            default
        },
        _ => default,
    }
}

/// A text setting of a saved setup section (see `setup_string`).
pub fn get_setup_string(section: &crate::setup::SectionValues, field: &str, default: &str) -> (r: String)
    ensures
        r@ == setup_string(section@, field@, default@),
{
    match section.get(field) {
        Some(crate::setup::SettingValue::Text(s)) => {
            let l = lower_chars(chars_of(s.as_str()).as_slice());
            if trim_chars(l.as_slice()).len() > 0 {
                string_of_seq(&l)
            } else {
                String::from_str(default)
            }
        },
        _ => String::from_str(default),
    }
}

/// A choice among words: the request's word in lower case, or `default`.
pub open spec fn chosen_word(param: Option<Seq<char>>, default: Seq<char>) -> Seq<char> {
    match param {
        Some(p) => lower(p),
        None => default,
    }
}

pub open spec fn opt_str_view(o: Option<&str>) -> Option<Seq<char>> {
    match o {
        Some(s) => Some(s@),
        None => None,
    }
}

fn chosen_word_of(param: Option<&str>, default: &String) -> (r: Vec<char>)
    ensures
        r@ == chosen_word(opt_str_view(param), default@),
{
    match param {
        Some(p) => lower_chars(chars_of(p).as_slice()),
        None => chars_of(default.as_str()),
    }
}

/// How roster rows are matched to students: `student_no_then_name`,
/// `name_only` or `sort_order`, from the request or else the setup.
pub fn parse_student_match_mode(param: Option<&str>, default_mode: &String) -> (r: Result<String, String>)
    ensures
        ({
            let m = chosen_word(opt_str_view(param), default_mode@);
            if m == "student_no_then_name"@ || m == "name_only"@ || m == "sort_order"@ {
                r matches Ok(x) && x@ == m
            } else {
                r matches Err(e) && e@ == "invalid matchMode"@
            }
        }),
{
    let m = chosen_word_of(param, default_mode);
    if chars_eq_str(m.as_slice(), "student_no_then_name") || chars_eq_str(m.as_slice(), "name_only")
        || chars_eq_str(m.as_slice(), "sort_order") {
        Ok(string_of_seq(&m))
    } else {
        Err(String::from_str("invalid matchMode"))
    }
}

/// What a transfer does with an assessment that is already in the target:
/// `merge_existing`, `append_new` or `stop_on_collision`, from the request
/// or else the setup.
pub fn parse_collision_policy(param: Option<&str>, default_policy: &String) -> (r: Result<String, String>)
    ensures
        ({
            let m = chosen_word(opt_str_view(param), default_policy@);
            if m == "merge_existing"@ || m == "append_new"@ || m == "stop_on_collision"@ {
                r matches Ok(x) && x@ == m
            } else {
                r matches Err(e) && e@ == "invalid collisionPolicy"@
            }
        }),
{
    let m = chosen_word_of(param, default_policy);
    if chars_eq_str(m.as_slice(), "merge_existing") || chars_eq_str(m.as_slice(), "append_new")
        || chars_eq_str(m.as_slice(), "stop_on_collision") {
        Ok(string_of_seq(&m))
    } else {
        Err(String::from_str("invalid collisionPolicy"))
    }
}

/// How a transfer merges comments: `replace`, `append`, `fill_blank` or
/// `source_if_longer`, from the request or else the setup.
pub fn parse_comment_policy(param: Option<&str>, default_policy: &String) -> (r: Result<String, String>)
    ensures
        ({
            let m = chosen_word(opt_str_view(param), default_policy@);
            if m == "replace"@ || m == "append"@ || m == "fill_blank"@ || m == "source_if_longer"@ {
                r matches Ok(x) && x@ == m
            } else {
                r matches Err(e) && e@ == "invalid commentPolicy"@
            }
        }),
{
    let m = chosen_word_of(param, default_policy);
    if chars_eq_str(m.as_slice(), "replace") || chars_eq_str(m.as_slice(), "append") || chars_eq_str(
        m.as_slice(),
        "fill_blank",
    ) || chars_eq_str(m.as_slice(), "source_if_longer") {
        Ok(string_of_seq(&m))
    } else {
        Err(String::from_str("invalid commentPolicy"))
    }
}

/// Which students an export covers: `all`, `active` or `valid`, from the
/// request or else the setup.
pub fn parse_scope(param: Option<&str>, default_scope: &String) -> (r: Result<String, String>)
    ensures
        ({
            let m = chosen_word(opt_str_view(param), default_scope@);
            if m == "all"@ || m == "active"@ || m == "valid"@ {
                r matches Ok(x) && x@ == m
            } else {
                r matches Err(e) && e@ == "studentScope must be one of: all, active, valid"@
            }
        }),
{
    let m = chosen_word_of(param, default_scope);
    if chars_eq_str(m.as_slice(), "all") || chars_eq_str(m.as_slice(), "active") || chars_eq_str(
        m.as_slice(),
        "valid",
    ) {
        Ok(string_of_seq(&m))
    } else {
        Err(String::from_str("studentScope must be one of: all, active, valid"))
    }
}

/// The filters of a marks export: a term, a category (its name in lower
/// case; blank or `ALL` is no filter) and a mask of assessment types.
pub struct ExportFilters {
    pub term: Option<i64>,
    pub category_name: Option<String>,
    pub types_mask: Option<i64>,
}

/// The filters of a marks export: none where the request has none; a
/// refusal where they are no object, the term is neither an integer nor
/// null, or the category neither a text nor null; a types mask that is no
/// integer is no filter.
pub open spec fn export_filters(filters: Option<Option<Map<Seq<char>, crate::setup::SettingModel>>>) -> Result<
    (Option<i64>, Option<Seq<char>>, Option<i64>),
    Seq<char>,
> {
    match filters {
        None => Ok((None, None, None)),
        Some(None) => Err("filters must be object"@),
        Some(Some(m)) => {
            let term: Result<Option<i64>, Seq<char>> = match m.get("term"@) {
                None | Some(crate::setup::SettingModel::Null) => Ok(None),
                Some(crate::setup::SettingModel::Int(n)) => Ok(Some(n)),
                Some(_) => Err("filters.term must be integer or null"@),
            };
            let cat: Result<Option<Seq<char>>, Seq<char>> = match m.get("categoryName"@) {
                None | Some(crate::setup::SettingModel::Null) => Ok(None),
                Some(crate::setup::SettingModel::Text(s)) => if trim(s).len() == 0
                    || crate::text::eq_ignore_case(trim(s), "ALL"@) {
                    Ok(None)
                } else {
                    Ok(Some(lower(trim(s))))
                },
                Some(_) => Err("filters.categoryName must be string or null"@),
            };
            let mask: Option<i64> = match m.get("typesMask"@) {
                Some(crate::setup::SettingModel::Int(n)) => Some(n),
                _ => None,
            };
            match term {
                Err(e) => Err(e),
                Ok(t) => match cat {
                    Err(e) => Err(e),
                    Ok(c) => Ok((t, c, mask)),
                },
            }
        },
    }
}

pub open spec fn filters_view(f: Option<Option<&crate::setup::SectionValues>>) -> Option<
    Option<Map<Seq<char>, crate::setup::SettingModel>>,
> {
    match f {
        None => None,
        Some(None) => Some(None),
        Some(Some(m)) => Some(Some(m@)),
    }
}

/// The filters of a marks export (see `export_filters`): `None` where the
/// request has none, `Some(None)` where it has something that is no
/// object, else the object's fields.
pub fn parse_filters(filters: Option<Option<&crate::setup::SectionValues>>) -> (r: Result<ExportFilters, String>)
    ensures
        match r {
            Ok(f) => export_filters(filters_view(filters)) == Ok::<
                (Option<i64>, Option<Seq<char>>, Option<i64>),
                Seq<char>,
            >((f.term, opt_view(f.category_name), f.types_mask)),
            Err(e) => export_filters(filters_view(filters)) == Err::<
                (Option<i64>, Option<Seq<char>>, Option<i64>),
                Seq<char>,
            >(e@),
        },
{
    let m = match filters {
        None => return Ok(ExportFilters { term: None, category_name: None, types_mask: None }),
        Some(None) => return Err(String::from_str("filters must be object")),
        Some(Some(m)) => m,
    };
    let term = match m.get("term") {
        None | Some(crate::setup::SettingValue::Null) => None,
        Some(crate::setup::SettingValue::Int(n)) => Some(*n),
        Some(_) => return Err(String::from_str("filters.term must be integer or null")),
    };
    let category_name = match m.get("categoryName") {
        None | Some(crate::setup::SettingValue::Null) => None,
        Some(crate::setup::SettingValue::Text(s)) => {
            let t = trim_chars(chars_of(s.as_str()).as_slice());
            if t.len() == 0 || crate::text::eq_ignore_case_chars(t.as_slice(), chars_of("ALL").as_slice()) {
                None
            } else {
                Some(string_of_seq(&lower_chars(t.as_slice())))
            }
        },
        Some(_) => return Err(String::from_str("filters.categoryName must be string or null")),
    };
    let types_mask = match m.get("typesMask") {
        Some(crate::setup::SettingValue::Int(n)) => Some(*n),
        _ => None,
    };
    Ok(ExportFilters { term, category_name, types_mask })
}

/// Whether an assessment passes the filters of a marks export: its term
/// equals the term filter (where there is one), its category's key equals
/// the category filter (an assessment without a category passes no
/// category filter), and its type passes the mask.
pub fn assessment_passes_filters(
    filters: &ExportFilters,
    term: Option<i64>,
    legacy_type: Option<i64>,
    category_name: Option<&str>,
) -> (r: bool)
    ensures
        r == ((filters.term is None || filters.term == term) && match filters.category_name {
            None => true,
            Some(c) => match category_name {
                Some(n) => crate::keys::key_of(n@) == c@,
                None => false,
            },
        } && match filters.types_mask {
            None => true,
            Some(m) => {
                let t = match legacy_type {
                    Some(x) => x,
                    None => 0,
                };
                0 <= t < 63 && crate::integrations::mask_bit(m, t as u32)
            },
        }),
{
    let term_ok = match filters.term {
        None => true,
        Some(t) => match term {
            Some(x) => x == t,
            None => false,
        },
    };
    let category_ok = match &filters.category_name {
        None => true,
        Some(c) => match category_name {
            Some(n) => {
                let k = crate::keys::normalize_key(n);
                chars_eq(chars_of(k.as_str()).as_slice(), chars_of(c.as_str()).as_slice())
            },
            None => false,
        },
    };
    let types_ok = crate::integrations::matches_types_mask(filters.types_mask, legacy_type);
    term_ok && category_ok && types_ok
}

/// The lesson ids of a request are distinct, and none is blank.
pub proof fn law_distinct_items(items: Seq<Option<String>>)
    ensures
        forall|i: int, j: int|
            0 <= i < j < distinct_items(items).len() ==> distinct_items(items)[i] != distinct_items(
                items,
            )[j],
        forall|i: int| 0 <= i < distinct_items(items).len() ==> #[trigger] distinct_items(items)[i].len() > 0,
    decreases items.len(),
{
    if items.len() > 0 {
        law_distinct_items(items.drop_last());
        let prev = distinct_items(items.drop_last());
        let cur = distinct_items(items);
        if cur.len() > prev.len() {
            assert(cur == prev.push(cur.last()));
            assert(!prev.contains(cur.last()));
            assert forall|i: int, j: int| 0 <= i < j < cur.len() implies cur[i] != cur[j] by {
                if j == prev.len() {
                    assert(cur[i] == prev[i]);
                    if cur[i] == cur[j] {
                        assert(prev.contains(cur.last()));
                    }
                } else {
                    assert(cur[i] == prev[i] && cur[j] == prev[j]);
                }
            }
            assert forall|i: int| 0 <= i < cur.len() implies #[trigger] cur[i].len() > 0 by {
                if i < prev.len() {
                    assert(cur[i] == prev[i]);
                }
            }
        } else {
            assert(cur == prev);
        }
    }
}

} // verus!
