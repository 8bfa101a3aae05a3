//! The rules of the mark-set requests that do not depend on the stored
//! class: the names of a new or copied mark set, its options, and the
//! changes that a settings patch asks for.
use vstd::prelude::*;
use crate::params::{keyed, non_blank, non_blank_of, normalized_opt_str, opt_view, text_of, ParamValue};
use crate::setup::{utf8_len, utf8_len_exceeds, SectionValues, SettingModel, SettingValue};
use crate::text::{append_chars, chars_eq, chars_of, string_of_seq, trim, trim_chars, upper, upper_chars};

verus! {

/// The longest code of a mark set, in bytes.
pub const MAX_CODE_BYTES: usize = 15;

/// The code and description of a new mark set: both required texts,
/// trimmed, not blank, and the code at most 15 bytes long.
pub open spec fn create_names(code: Option<Seq<char>>, description: Option<Seq<char>>) -> Result<
    (Seq<char>, Seq<char>),
    Seq<char>,
> {
    match code {
        None => Err("missing code"@),
        Some(c) => if trim(c).len() == 0 {
            Err("code must not be empty"@)
        } else if utf8_len(trim(c)) > 15 {
            Err("code must be 15 chars or fewer"@)
        } else {
            match description {
                None => Err("missing description"@),
                Some(d) => if trim(d).len() == 0 {
                    Err("description must not be empty"@)
                } else {
                    Ok((trim(c), trim(d)))
                },
            }
        },
    }
}

/// The code and description of a new mark set (see `create_names`).
pub fn mark_set_create_names(code: Option<&ParamValue>, description: Option<&ParamValue>) -> (r: Result<
    (String, String),
    String,
>)
    ensures
        match r {
            Ok(n) => create_names(text_of(code), text_of(description)) == Ok::<
                (Seq<char>, Seq<char>),
                Seq<char>,
            >((n.0@, n.1@)),
            Err(e) => create_names(text_of(code), text_of(description)) == Err::<
                (Seq<char>, Seq<char>),
                Seq<char>,
            >(e@),
        },
{
    let c = match code {
        Some(ParamValue::Text(s)) => trim_chars(chars_of(s.as_str()).as_slice()),
        _ => return Err(String::from_str("missing code")),
    };
    if c.len() == 0 {
        return Err(String::from_str("code must not be empty"));
    }
    if utf8_len_exceeds(c.as_slice(), MAX_CODE_BYTES) {
        return Err(String::from_str("code must be 15 chars or fewer"));
    }
    let d = match description {
        Some(ParamValue::Text(s)) => trim_chars(chars_of(s.as_str()).as_slice()),
        _ => return Err(String::from_str("missing description")),
    };
    if d.len() == 0 {
        return Err(String::from_str("description must not be empty"));
    }
    Ok((string_of_seq(&c), string_of_seq(&d)))
}

/// The options of a new mark set.
pub struct MarkSetOptions {
    pub file_prefix: String,
    pub full_code: Option<String>,
    pub room: Option<String>,
    pub day: Option<String>,
    pub period: Option<String>,
    pub block_title: Option<String>,
    pub weight_method: i64,
    pub calc_method: i64,
    pub make_default: bool,
}

/// An integer parameter, or `d` where it is none.
pub open spec fn int_or(v: Option<&ParamValue>, d: i64) -> i64 {
    match v {
        Some(ParamValue::Int(n)) => *n,
        _ => d,
    }
}

/// A text field of a mark set: none where it is absent, null or blank,
/// else trimmed; anything else refused as `{field} must be string or null`.
pub open spec fn opt_field(v: Option<&ParamValue>, field: Seq<char>) -> Result<Option<Seq<char>>, Seq<char>> {
    match v {
        None | Some(ParamValue::Null) => Ok(None),
        Some(ParamValue::Text(s)) => Ok(non_blank(s@)),
        _ => Err(field + " must be string or null"@),
    }
}

/// Whether `o` is the options that the parameters give a new mark set with
/// `code`: the file prefix (the code where none is given), the text
/// fields, the weight method (1 where none is given; 0 to 2) and the
/// calculation method (0 where none is given; 0 to 4), and whether it
/// becomes the default (no where none is given).
pub open spec fn options_match(
    o: MarkSetOptions,
    code: Seq<char>,
    file_prefix: Option<&ParamValue>,
    full_code: Option<&ParamValue>,
    room: Option<&ParamValue>,
    day: Option<&ParamValue>,
    period: Option<&ParamValue>,
    block_title: Option<&ParamValue>,
    weight_method: Option<&ParamValue>,
    calc_method: Option<&ParamValue>,
    make_default: Option<&ParamValue>,
) -> bool {
    &&& o.file_prefix@ == match text_of(file_prefix) {
        Some(p) => if trim(p).len() > 0 {
            trim(p)
        } else {
            code
        },
        None => code,
    }
    &&& opt_field(full_code, "fullCode"@) == Ok::<Option<Seq<char>>, Seq<char>>(opt_view(o.full_code))
    &&& opt_field(room, "room"@) == Ok::<Option<Seq<char>>, Seq<char>>(opt_view(o.room))
    &&& opt_field(day, "day"@) == Ok::<Option<Seq<char>>, Seq<char>>(opt_view(o.day))
    &&& opt_field(period, "period"@) == Ok::<Option<Seq<char>>, Seq<char>>(opt_view(o.period))
    &&& opt_field(block_title, "blockTitle"@) == Ok::<Option<Seq<char>>, Seq<char>>(opt_view(o.block_title))
    &&& o.weight_method == int_or(weight_method, 1) && 0 <= o.weight_method <= 2
    &&& o.calc_method == int_or(calc_method, 0) && 0 <= o.calc_method <= 4
    &&& o.make_default == match make_default {
        Some(ParamValue::Bool(b)) => *b,
        _ => false,
    }
}

/// The refusal that the options of a new mark set get, where they get one:
/// the first text field that is neither text nor null, then a weight
/// method outside 0 to 2, then a calculation method outside 0 to 4.
pub open spec fn options_refusal(
    full_code: Option<&ParamValue>,
    room: Option<&ParamValue>,
    day: Option<&ParamValue>,
    period: Option<&ParamValue>,
    block_title: Option<&ParamValue>,
    weight_method: Option<&ParamValue>,
    calc_method: Option<&ParamValue>,
) -> Option<Seq<char>> {
    if opt_field(full_code, "fullCode"@) is Err {
        Some(opt_field(full_code, "fullCode"@)->Err_0)
    } else if opt_field(room, "room"@) is Err {
        Some(opt_field(room, "room"@)->Err_0)
    } else if opt_field(day, "day"@) is Err {
        Some(opt_field(day, "day"@)->Err_0)
    } else if opt_field(period, "period"@) is Err {
        Some(opt_field(period, "period"@)->Err_0)
    } else if opt_field(block_title, "blockTitle"@) is Err {
        Some(opt_field(block_title, "blockTitle"@)->Err_0)
    } else if !(0 <= int_or(weight_method, 1) <= 2) {
        Some("weightMethod must be 0, 1, or 2"@)
    } else if !(0 <= int_or(calc_method, 0) <= 4) {
        Some("calcMethod must be 0..4"@)
    } else {
        None
    }
}

fn int_param(v: Option<&ParamValue>, d: i64) -> (r: i64)
    ensures
        r == int_or(v, d),
{
    match v {
        Some(ParamValue::Int(n)) => *n,
        _ => d,
    }
}

/// The options of a new mark set with `code` (see `options_match` and
/// `options_refusal`).
pub fn mark_set_create_options(
    code: &str,
    file_prefix: Option<&ParamValue>,
    full_code: Option<&ParamValue>,
    room: Option<&ParamValue>,
    day: Option<&ParamValue>,
    period: Option<&ParamValue>,
    block_title: Option<&ParamValue>,
    weight_method: Option<&ParamValue>,
    calc_method: Option<&ParamValue>,
    make_default: Option<&ParamValue>,
) -> (r: Result<MarkSetOptions, String>)
    ensures
        match r {
            Ok(o) => options_refusal(full_code, room, day, period, block_title, weight_method, calc_method) is None
                && options_match(
                o,
                code@,
                file_prefix,
                full_code,
                room,
                day,
                period,
                block_title,
                weight_method,
                calc_method,
                make_default,
            ),
            Err(e) => options_refusal(full_code, room, day, period, block_title, weight_method, calc_method)
                == Some(e@),
        },
{
    let prefix = match file_prefix {
        Some(ParamValue::Text(s)) => match non_blank_of(s) {
            Some(p) => p,
            None => String::from_str(code),
        },
        _ => String::from_str(code),
    };
    let full_code = normalized_opt_str(full_code, "fullCode")?;
    let room = normalized_opt_str(room, "room")?;
    let day = normalized_opt_str(day, "day")?;
    let period = normalized_opt_str(period, "period")?;
    let block_title = normalized_opt_str(block_title, "blockTitle")?;
    let wm = int_param(weight_method, 1);
    if wm < 0 || wm > 2 {
        return Err(String::from_str("weightMethod must be 0, 1, or 2"));
    }
    let cm = int_param(calc_method, 0);
    if cm < 0 || cm > 4 {
        return Err(String::from_str("calcMethod must be 0..4"));
    }
    let make_default = match make_default {
        Some(ParamValue::Bool(b)) => *b,
        _ => false,
    };
    Ok(
        MarkSetOptions {
            file_prefix: prefix,
            full_code,
            room,
            day,
            period,
            block_title,
            weight_method: wm,
            calc_method: cm,
            make_default,
        },
    )
}

/// The code and description of a copy of a mark set: those given, trimmed,
/// where they are texts that are not blank; else the source's file prefix
/// followed by `C`, and the source's description followed by ` (Copy)`.
/// A code of more than 15 bytes is refused.
pub open spec fn clone_names(
    code: Option<Seq<char>>,
    description: Option<Seq<char>>,
    source_prefix: Seq<char>,
    source_description: Seq<char>,
) -> Result<(Seq<char>, Seq<char>), Seq<char>> {
    let c = match code {
        Some(x) => if trim(x).len() > 0 {
            trim(x)
        } else {
            source_prefix + "C"@
        },
        None => source_prefix + "C"@,
    };
    let d = match description {
        Some(x) => if trim(x).len() > 0 {
            trim(x)
        } else {
            source_description + " (Copy)"@
        },
        None => source_description + " (Copy)"@,
    };
    if utf8_len(c) > 15 {
        Err("code must be 15 chars or fewer"@)
    } else {
        Ok((c, d))
    }
}

fn given_or(v: Option<&ParamValue>, base: &str, tail: &str) -> (r: Vec<char>)
    ensures
        r@ == match text_of(v) {
            Some(x) => if trim(x).len() > 0 {
                trim(x)
            } else {
                base@ + tail@
            },
            None => base@ + tail@,
        },
{
    match v {
        Some(ParamValue::Text(s)) => {
            let t = trim_chars(chars_of(s.as_str()).as_slice());
            if t.len() > 0 {
                return t;
            }
        },
        _ => {},
    }
    chars_of(keyed(base, tail).as_str())
}

/// The code and description of a copy of a mark set (see `clone_names`).
pub fn mark_set_clone_names(
    code: Option<&ParamValue>,
    description: Option<&ParamValue>,
    source_prefix: &str,
    source_description: &str,
) -> (r: Result<(String, String), String>)
    ensures
        match r {
            Ok(n) => clone_names(text_of(code), text_of(description), source_prefix@, source_description@) == Ok::<
                (Seq<char>, Seq<char>),
                Seq<char>,
            >((n.0@, n.1@)),
            Err(e) => clone_names(text_of(code), text_of(description), source_prefix@, source_description@) == Err::<
                (Seq<char>, Seq<char>),
                Seq<char>,
            >(e@),
        },
{
    let c = given_or(code, source_prefix, "C");
    if utf8_len_exceeds(c.as_slice(), MAX_CODE_BYTES) {
        return Err(String::from_str("code must be 15 chars or fewer"));
    }
    let d = given_or(description, source_description, " (Copy)");
    Ok((string_of_seq(&c), string_of_seq(&d)))
}

/// A column change: the column and its new value.
pub open spec fn change_view(c: (String, SettingValue)) -> (Seq<char>, SettingModel) {
    (c.0@, c.1@)
}

pub open spec fn changes_view(v: Seq<(String, SettingValue)>) -> Seq<(Seq<char>, SettingModel)> {
    v.map_values(|c: (String, SettingValue)| change_view(c))
}

/// The change of a text column that the patch asks for under `key`:
/// none where the patch has no such field; null where it is null or blank;
/// else the text trimmed; anything else refused.
pub open spec fn text_change(m: Map<Seq<char>, SettingModel>, key: Seq<char>, col: Seq<char>) -> Result<
    Option<(Seq<char>, SettingModel)>,
    Seq<char>,
> {
    if !m.dom().contains(key) {
        Ok(None)
    } else {
        match m[key] {
            SettingModel::Null => Ok(Some((col, SettingModel::Null))),
            SettingModel::Text(t) => Ok(
                Some(
                    (
                        col,
                        if trim(t).len() == 0 {
                            SettingModel::Null
                        } else {
                            SettingModel::Text(trim(t))
                        },
                    ),
                ),
            ),
            _ => Err("patch."@ + key + " must be string or null"@),
        }
    }
}

/// The change of an integer column that the patch asks for under `key`:
/// none where the patch has no such field; the integer where it is one
/// from 0 to `hi`; else a refusal.
pub open spec fn int_change(
    m: Map<Seq<char>, SettingModel>,
    key: Seq<char>,
    col: Seq<char>,
    hi: i64,
    range_msg: Seq<char>,
) -> Result<Option<(Seq<char>, SettingModel)>, Seq<char>> {
    if !m.dom().contains(key) {
        Ok(None)
    } else {
        match m[key] {
            SettingModel::Int(n) => if 0 <= n <= hi {
                Ok(Some((col, SettingModel::Int(n))))
            } else {
                Err(range_msg)
            },
            _ => Err("patch."@ + key + " must be integer"@),
        }
    }
}

pub open spec fn add_change(
    acc: Result<Seq<(Seq<char>, SettingModel)>, Seq<char>>,
    c: Result<Option<(Seq<char>, SettingModel)>, Seq<char>>,
) -> Result<Seq<(Seq<char>, SettingModel)>, Seq<char>> {
    match acc {
        Err(e) => Err(e),
        Ok(s) => match c {
            Err(e) => Err(e),
            Ok(None) => Ok(s),
            Ok(Some(x)) => Ok(s.push(x)),
        },
    }
}

/// The column changes of a mark set's settings patch, in the order full
/// code, room, day, period, block title, weight method, calculation method;
/// the first bad field refuses the patch, and so does a patch with none of
/// them.
pub open spec fn settings_changes(m: Map<Seq<char>, SettingModel>) -> Result<Seq<(Seq<char>, SettingModel)>, Seq<char>> {
    let a0: Result<Seq<(Seq<char>, SettingModel)>, Seq<char>> = Ok(Seq::empty());
    let a1 = add_change(a0, text_change(m, "fullCode"@, "full_code"@));
    let a2 = add_change(a1, text_change(m, "room"@, "room"@));
    let a3 = add_change(a2, text_change(m, "day"@, "day"@));
    let a4 = add_change(a3, text_change(m, "period"@, "period"@));
    let a5 = add_change(a4, text_change(m, "blockTitle"@, "block_title"@));
    let a6 = add_change(
        a5,
        int_change(m, "weightMethod"@, "weight_method"@, 2, "patch.weightMethod must be 0, 1, or 2"@),
    );
    let a7 = add_change(a6, int_change(m, "calcMethod"@, "calc_method"@, 4, "patch.calcMethod must be 0..4"@));
    match a7 {
        Ok(s) => if s.len() == 0 {
            Err("patch must include at least one field"@)
        } else {
            Ok(s)
        },
        Err(e) => Err(e),
    }
}

pub open spec fn opt_change_view(o: Option<(String, SettingValue)>) -> Option<(Seq<char>, SettingModel)> {
    match o {
        Some(c) => Some(change_view(c)),
        None => None,
    }
}

fn patch_message(key: &str, tail: &str) -> (r: String)
    ensures
        r@ == "patch."@ + key@ + tail@,
{
    let mut out = chars_of("patch.");
    append_chars(&mut out, chars_of(key).as_slice());
    append_chars(&mut out, chars_of(tail).as_slice());
    string_of_seq(&out)
}

fn text_change_of(patch: &SectionValues, key: &str, col: &str) -> (r: Result<Option<(String, SettingValue)>, String>)
    ensures
        match r {
            Ok(o) => text_change(patch@, key@, col@) == Ok::<Option<(Seq<char>, SettingModel)>, Seq<char>>(
                opt_change_view(o),
            ),
            Err(e) => text_change(patch@, key@, col@) == Err::<Option<(Seq<char>, SettingModel)>, Seq<char>>(e@),
        },
{
    match patch.get(key) {
        None => Ok(None),
        Some(SettingValue::Null) => Ok(Some((String::from_str(col), SettingValue::Null))),
        Some(SettingValue::Text(t)) => {
            let v = match non_blank_of(t) {
                Some(x) => SettingValue::Text(x),
                None => SettingValue::Null,
            };
            Ok(Some((String::from_str(col), v)))
        },
        Some(_) => Err(patch_message(key, " must be string or null")),
    }
}

fn int_change_of(patch: &SectionValues, key: &str, col: &str, hi: i64, range_msg: &str) -> (r: Result<
    Option<(String, SettingValue)>,
    String,
>)
    ensures
        match r {
            Ok(o) => int_change(patch@, key@, col@, hi, range_msg@) == Ok::<
                Option<(Seq<char>, SettingModel)>,
                Seq<char>,
            >(opt_change_view(o)),
            Err(e) => int_change(patch@, key@, col@, hi, range_msg@) == Err::<
                Option<(Seq<char>, SettingModel)>,
                Seq<char>,
            >(e@),
        },
{
    match patch.get(key) {
        None => Ok(None),
        Some(SettingValue::Int(n)) => if 0 <= *n && *n <= hi {
            Ok(Some((String::from_str(col), SettingValue::Int(*n))))
        } else {
            Err(String::from_str(range_msg))
        },
        Some(_) => Err(patch_message(key, " must be integer")),
    }
}

fn push_change(out: &mut Vec<(String, SettingValue)>, c: Option<(String, SettingValue)>)
    ensures
        changes_view(final(out)@) == match opt_change_view(c) {
            Some(x) => changes_view(old(out)@).push(x),
            None => changes_view(old(out)@),
        },
{
    match c {
        Some(x) => {
            let ghost before = changes_view(out@);
            let ghost xv = change_view(x);
            out.push(x);
            assert(changes_view(out@) =~= before.push(xv));
        },
        None => {},
    }
}

/// The column changes of a mark set's settings patch (see
/// `settings_changes`).
pub fn mark_set_settings_changes(patch: &SectionValues) -> (r: Result<Vec<(String, SettingValue)>, String>)
    ensures
        match r {
            Ok(v) => settings_changes(patch@) == Ok::<Seq<(Seq<char>, SettingModel)>, Seq<char>>(changes_view(v@)),
            Err(e) => settings_changes(patch@) == Err::<Seq<(Seq<char>, SettingModel)>, Seq<char>>(e@),
        },
{
    let mut out: Vec<(String, SettingValue)> = Vec::new();
    assert(changes_view(out@) =~= Seq::<(Seq<char>, SettingModel)>::empty());
    let c = text_change_of(patch, "fullCode", "full_code")?;
    push_change(&mut out, c);
    let c = text_change_of(patch, "room", "room")?;
    push_change(&mut out, c);
    let c = text_change_of(patch, "day", "day")?;
    push_change(&mut out, c);
    let c = text_change_of(patch, "period", "period")?;
    push_change(&mut out, c);
    let c = text_change_of(patch, "blockTitle", "block_title")?;
    push_change(&mut out, c);
    let c = int_change_of(patch, "weightMethod", "weight_method", 2, "patch.weightMethod must be 0, 1, or 2")?;
    push_change(&mut out, c);
    let c = int_change_of(patch, "calcMethod", "calc_method", 4, "patch.calcMethod must be 0..4")?;
    push_change(&mut out, c);
    if out.len() == 0 {
        return Err(String::from_str("patch must include at least one field"));
    }
    Ok(out)
}

/// The options of pasting a copied entry: where to insert it (none means
/// at the end; a negative index is refused) and whether its title gets
/// ` (Clone)` appended (`appendClone`, the default) or stays (`same`);
/// any other title mode is refused.
pub open spec fn entry_clone_options(insert_at: Option<&ParamValue>, title_mode: Option<Seq<char>>) -> Result<
    (Option<i64>, bool),
    Seq<char>,
> {
    let at = match insert_at {
        Some(ParamValue::Int(n)) => Some(*n),
        _ => None,
    };
    if at matches Some(n) && n < 0 {
        Err("insertAtIdx must be >= 0"@)
    } else {
        match title_mode {
            None => Ok((at, true)),
            Some(m) => if m == "same"@ {
                Ok((at, false))
            } else if m == "appendClone"@ {
                Ok((at, true))
            } else {
                Err("titleMode must be 'same' or 'appendClone'"@)
            },
        }
    }
}

/// The options of pasting a copied entry (see `entry_clone_options`).
pub fn parse_entry_clone_options(insert_at: Option<&ParamValue>, title_mode: Option<&ParamValue>) -> (r: Result<
    (Option<i64>, bool),
    String,
>)
    ensures
        match r {
            Ok(o) => entry_clone_options(insert_at, text_of(title_mode)) == Ok::<(Option<i64>, bool), Seq<char>>(o),
            Err(e) => entry_clone_options(insert_at, text_of(title_mode)) == Err::<(Option<i64>, bool), Seq<char>>(
                e@,
            ),
        },
{
    let at = match insert_at {
        Some(ParamValue::Int(n)) => Some(*n),
        _ => None,
    };
    if let Some(n) = at {
        if n < 0 {
            return Err(String::from_str("insertAtIdx must be >= 0"));
        }
    }
    match title_mode {
        Some(ParamValue::Text(m)) => {
            let c = chars_of(m.as_str());
            if crate::text::chars_eq_str(c.as_slice(), "same") {
                Ok((at, false))
            } else if crate::text::chars_eq_str(c.as_slice(), "appendClone") {
                Ok((at, true))
            } else {
                Err(String::from_str("titleMode must be 'same' or 'appendClone'"))
            }
        },
        _ => Ok((at, true)),
    }
}

/// Where a pasted entry goes among `count` entries: the index asked for,
/// kept within 0 and `count`; the end where none is asked for.
pub fn entry_insert_index(insert_at: Option<i64>, count: i64) -> (r: i64)
    requires
        count >= 0,
    ensures
        r == match insert_at {
            Some(n) => if n < 0 {
                0
            } else if n > count {
                count
            } else {
                n
            },
            None => count,
        },
{
    match insert_at {
        Some(n) => if n < 0 {
            0
        } else if n > count {
            count
        } else {
            n
        },
        None => count,
    }
}

/// The title of a pasted entry: the copied title (`Cloned Entry` where it
/// has none), followed by ` (Clone)` where asked.
pub fn cloned_entry_title(source_title: Option<&str>, append: bool) -> (r: String)
    ensures
        r@ == ({
            let t = match source_title {
                Some(s) => s@,
                None => "Cloned Entry"@,
            };
            if append {
                t + " (Clone)"@
            } else {
                t
            }
        }),
{
    let t = match source_title {
        Some(s) => s,
        None => "Cloned Entry",
    };
    if append {
        keyed(t, " (Clone)")
    } else {
        String::from_str(t)
    }
}

/// Whether a class's mark sets (ids and codes) hold one other than
/// `exclude` whose code is `code`, ignoring ASCII case.
pub open spec fn code_taken(ids: Seq<Seq<char>>, codes: Seq<Seq<char>>, code: Seq<char>, exclude: Option<Seq<char>>) -> bool {
    exists|i: int|
        0 <= i < codes.len() && #[trigger] upper(codes[i]) == upper(code) && match exclude {
            Some(x) => ids[i] != x,
            None => true,
        }
}

pub open spec fn texts_of(v: Seq<String>) -> Seq<Seq<char>> {
    v.map_values(|s: String| s@)
}

pub open spec fn opt_str_view(o: Option<&str>) -> Option<Seq<char>> {
    match o {
        Some(s) => Some(s@),
        None => None,
    }
}

/// A mark set's code must be unique in its class, ignoring ASCII case;
/// `exclude` is the mark set being changed, whose own code does not count.
pub fn mark_set_code_free(ids: &Vec<String>, codes: &Vec<String>, code: &str, exclude: Option<&str>) -> (r: Result<
    (),
    String,
>)
    requires
        ids@.len() == codes@.len(),
    ensures
        match r {
            Ok(_) => !code_taken(texts_of(ids@), texts_of(codes@), code@, opt_str_view(exclude)),
            Err(e) => code_taken(texts_of(ids@), texts_of(codes@), code@, opt_str_view(exclude)) && e@
                == "mark set code already exists in class"@,
        },
{
    let ghost iv = texts_of(ids@);
    let ghost cv = texts_of(codes@);
    let want = upper_chars(chars_of(code).as_slice());
    let mut i: usize = 0;
    while i < codes.len()
        invariant
            i <= codes@.len() == ids@.len(),
            iv == texts_of(ids@),
            cv == texts_of(codes@),
            want@ == upper(code@),
            forall|q: int|
                0 <= q < i ==> !(upper(#[trigger] cv[q]) == upper(code@) && match opt_str_view(exclude) {
                    Some(x) => iv[q] != x,
                    None => true,
                }),
        decreases codes@.len() - i,
    {
        assert(cv[i as int] == codes@[i as int]@);
        assert(iv[i as int] == ids@[i as int]@);
        let c = upper_chars(chars_of(codes[i].as_str()).as_slice());
        if chars_eq(c.as_slice(), want.as_slice()) {
            let counts = match exclude {
                Some(x) => !chars_eq(chars_of(ids[i].as_str()).as_slice(), chars_of(x).as_slice()),
                None => true,
            };
            if counts {
                return Err(String::from_str("mark set code already exists in class"));
            }
        }
        i += 1;
    }
    Ok(())
}

/// The options of a mark-set transfer: its collision policy
/// (`merge_existing` where none is given; `append_new` or
/// `stop_on_collision`) and whether titles get ` (Transfer)` appended
/// (`appendTransfer`) or stay (`same`, where none is given); any other
/// word is refused. Words are matched exactly.
pub open spec fn transfer_options(policy: Option<Seq<char>>, title_mode: Option<Seq<char>>) -> Result<
    (Seq<char>, bool),
    Seq<char>,
> {
    let p: Result<Seq<char>, Seq<char>> = match policy {
        None => Ok("merge_existing"@),
        Some(w) => if w == "merge_existing"@ || w == "append_new"@ || w == "stop_on_collision"@ {
            Ok(w)
        } else {
            Err("invalid collisionPolicy"@)
        },
    };
    match p {
        Err(e) => Err(e),
        Ok(pw) => match title_mode {
            None => Ok((pw, false)),
            Some(m) => if m == "same"@ {
                Ok((pw, false))
            } else if m == "appendTransfer"@ {
                Ok((pw, true))
            } else {
                Err("invalid titleMode"@)
            },
        },
    }
}

/// The options of a mark-set transfer (see `transfer_options`); a
/// parameter that is not a text counts as not given.
pub fn parse_transfer_options(policy: Option<&ParamValue>, title_mode: Option<&ParamValue>) -> (r: Result<
    (String, bool),
    String,
>)
    ensures
        match r {
            Ok(o) => transfer_options(text_of(policy), text_of(title_mode)) == Ok::<(Seq<char>, bool), Seq<char>>(
                (o.0@, o.1),
            ),
            Err(e) => transfer_options(text_of(policy), text_of(title_mode)) == Err::<(Seq<char>, bool), Seq<char>>(
                e@,
            ),
        },
{
    let p = match policy {
        Some(ParamValue::Text(w)) => {
            let c = chars_of(w.as_str());
            if crate::text::chars_eq_str(c.as_slice(), "merge_existing") || crate::text::chars_eq_str(
                c.as_slice(),
                "append_new",
            ) || crate::text::chars_eq_str(c.as_slice(), "stop_on_collision") {
                string_of_seq(&c)
            } else {
                return Err(String::from_str("invalid collisionPolicy"));
            }
        },
        _ => String::from_str("merge_existing"),
    };
    match title_mode {
        Some(ParamValue::Text(m)) => {
            let c = chars_of(m.as_str());
            if crate::text::chars_eq_str(c.as_slice(), "same") {
                Ok((p, false))
            } else if crate::text::chars_eq_str(c.as_slice(), "appendTransfer") {
                Ok((p, true))
            } else {
                Err(String::from_str("invalid titleMode"))
            }
        },
        _ => Ok((p, false)),
    }
}

/// The title of a transferred assessment: the source's, followed by
/// ` (Transfer)` where asked.
pub fn transfer_title(source_title: &str, append: bool) -> (r: String)
    ensures
        r@ == if append {
            source_title@ + " (Transfer)"@
        } else {
            source_title@
        },
{
    if append {
        keyed(source_title, " (Transfer)")
    } else {
        String::from_str(source_title)
    }
}

/// The assessments a transfer takes: all where none are named; else the
/// texts of the list (other items left out); anything but a list is
/// refused.
pub fn parse_selected_ids(v: Option<&ParamValue>) -> (r: Result<Option<Vec<String>>, String>)
    ensures
        match v {
            None => r matches Ok(None),
            Some(ParamValue::List(items)) => r matches Ok(Some(ids)) && texts_of(ids@) == present_items(items@),
            Some(_) => r matches Err(e) && e@ == "assessmentIds must be an array of strings"@,
        },
{
    match v {
        None => Ok(None),
        Some(ParamValue::List(items)) => {
            let mut out: Vec<String> = Vec::new();
            let mut i: usize = 0;
            assert(items@.take(0) =~= Seq::<Option<String>>::empty());
            assert(texts_of(out@) =~= Seq::<Seq<char>>::empty());
            while i < items.len()
                invariant
                    i <= items@.len(),
                    texts_of(out@) == present_items(items@.take(i as int)),
                decreases items@.len() - i,
            {
                assert(items@.take(i + 1).drop_last() =~= items@.take(i as int));
                assert(items@.take(i + 1).last() == items@[i as int]);
                match &items[i] {
                    Some(s) => {
                        let ghost before = texts_of(out@);
                        out.push(s.clone());
                        assert(texts_of(out@) =~= before.push(s@));
                    },
                    None => {},
                }
                i += 1;
            }
            assert(items@.take(items@.len() as int) =~= items@);
            Ok(Some(out))
        },
        Some(_) => Err(String::from_str("assessmentIds must be an array of strings")),
    }
}

/// The texts among the items of a list, in order.
pub open spec fn present_items(items: Seq<Option<String>>) -> Seq<Seq<char>>
    decreases items.len(),
{
    if items.len() == 0 {
        Seq::empty()
    } else {
        match items.last() {
            Some(s) => present_items(items.drop_last()).push(s@),
            None => present_items(items.drop_last()),
        }
    }
}

/// The change of a required text column that an assessment patch asks
/// for under `key`: the text trimmed; one that is no text, or is blank,
/// refused.
pub open spec fn required_text_change(m: Map<Seq<char>, SettingModel>, key: Seq<char>, col: Seq<char>) -> Result<
    Option<(Seq<char>, SettingModel)>,
    Seq<char>,
> {
    if !m.dom().contains(key) {
        Ok(None)
    } else {
        match m[key] {
            SettingModel::Text(t) => if trim(t).len() == 0 {
                Err("patch."@ + key + " must not be empty"@)
            } else {
                Ok(Some((col, SettingModel::Text(trim(t)))))
            },
            _ => Err("patch."@ + key + " must be string"@),
        }
    }
}

/// The change of an optional integer column: null, or the integer; else
/// refused.
pub open spec fn opt_int_change(m: Map<Seq<char>, SettingModel>, key: Seq<char>, col: Seq<char>) -> Result<
    Option<(Seq<char>, SettingModel)>,
    Seq<char>,
> {
    if !m.dom().contains(key) {
        Ok(None)
    } else {
        match m[key] {
            SettingModel::Null => Ok(Some((col, SettingModel::Null))),
            SettingModel::Int(n) => Ok(Some((col, SettingModel::Int(n)))),
            _ => Err("patch."@ + key + " must be integer or null"@),
        }
    }
}

/// The change of an optional number column: null, or the number (an
/// integer, or another number as its decimal text); else refused.
pub open spec fn opt_number_change(m: Map<Seq<char>, SettingModel>, key: Seq<char>, col: Seq<char>) -> Result<
    Option<(Seq<char>, SettingModel)>,
    Seq<char>,
> {
    if !m.dom().contains(key) {
        Ok(None)
    } else {
        match m[key] {
            SettingModel::Null => Ok(Some((col, SettingModel::Null))),
            SettingModel::Int(n) => Ok(Some((col, SettingModel::Int(n)))),
            SettingModel::Number(t) => Ok(Some((col, SettingModel::Number(t)))),
            _ => Err("patch."@ + key + " must be number or null"@),
        }
    }
}

/// The column changes that one row of a bulk assessment update asks for,
/// in the order date, category, title, term, type, weight, out-of; the
/// first bad field refuses the row, and so does a patch with none of them.
pub open spec fn assessment_changes(m: Map<Seq<char>, SettingModel>) -> Result<Seq<(Seq<char>, SettingModel)>, Seq<char>> {
    let a0: Result<Seq<(Seq<char>, SettingModel)>, Seq<char>> = Ok(Seq::empty());
    let a1 = add_change(a0, text_change(m, "date"@, "date"@));
    let a2 = add_change(a1, text_change(m, "categoryName"@, "category_name"@));
    let a3 = add_change(a2, required_text_change(m, "title"@, "title"@));
    let a4 = add_change(a3, opt_int_change(m, "term"@, "term"@));
    let a5 = add_change(a4, opt_int_change(m, "legacyType"@, "legacy_type"@));
    let a6 = add_change(a5, opt_number_change(m, "weight"@, "weight"@));
    let a7 = add_change(a6, opt_number_change(m, "outOf"@, "out_of"@));
    match a7 {
        Ok(s) => if s.len() == 0 {
            Err("patch must include at least one field"@)
        } else {
            Ok(s)
        },
        Err(e) => Err(e),
    }
}

fn required_text_change_of(patch: &SectionValues, key: &str, col: &str) -> (r: Result<
    Option<(String, SettingValue)>,
    String,
>)
    ensures
        match r {
            Ok(o) => required_text_change(patch@, key@, col@) == Ok::<Option<(Seq<char>, SettingModel)>, Seq<char>>(
                opt_change_view(o),
            ),
            Err(e) => required_text_change(patch@, key@, col@) == Err::<
                Option<(Seq<char>, SettingModel)>,
                Seq<char>,
            >(e@),
        },
{
    match patch.get(key) {
        None => Ok(None),
        Some(SettingValue::Text(t)) => {
            let v = non_blank_of(t);
            match v {
                Some(x) => Ok(Some((String::from_str(col), SettingValue::Text(x)))),
                None => Err(patch_message(key, " must not be empty")),
            }
        },
        Some(_) => Err(patch_message(key, " must be string")),
    }
}

fn opt_int_change_of(patch: &SectionValues, key: &str, col: &str) -> (r: Result<Option<(String, SettingValue)>, String>)
    ensures
        match r {
            Ok(o) => opt_int_change(patch@, key@, col@) == Ok::<Option<(Seq<char>, SettingModel)>, Seq<char>>(
                opt_change_view(o),
            ),
            Err(e) => opt_int_change(patch@, key@, col@) == Err::<Option<(Seq<char>, SettingModel)>, Seq<char>>(e@),
        },
{
    match patch.get(key) {
        None => Ok(None),
        Some(SettingValue::Null) => Ok(Some((String::from_str(col), SettingValue::Null))),
        Some(SettingValue::Int(n)) => Ok(Some((String::from_str(col), SettingValue::Int(*n)))),
        Some(_) => Err(patch_message(key, " must be integer or null")),
    }
}

fn opt_number_change_of(patch: &SectionValues, key: &str, col: &str) -> (r: Result<
    Option<(String, SettingValue)>,
    String,
>)
    ensures
        match r {
            Ok(o) => opt_number_change(patch@, key@, col@) == Ok::<Option<(Seq<char>, SettingModel)>, Seq<char>>(
                opt_change_view(o),
            ),
            Err(e) => opt_number_change(patch@, key@, col@) == Err::<Option<(Seq<char>, SettingModel)>, Seq<char>>(
                e@,
            ),
        },
{
    match patch.get(key) {
        None => Ok(None),
        Some(SettingValue::Null) => Ok(Some((String::from_str(col), SettingValue::Null))),
        Some(SettingValue::Int(n)) => Ok(Some((String::from_str(col), SettingValue::Int(*n)))),
        Some(SettingValue::Number(t)) => Ok(Some((String::from_str(col), SettingValue::Number(t.clone())))),
        Some(_) => Err(patch_message(key, " must be number or null")),
    }
}

/// The column changes that one row of a bulk assessment update asks for
/// (see `assessment_changes`).
pub fn assessment_patch_changes(patch: &SectionValues) -> (r: Result<Vec<(String, SettingValue)>, String>)
    ensures
        match r {
            Ok(v) => assessment_changes(patch@) == Ok::<Seq<(Seq<char>, SettingModel)>, Seq<char>>(changes_view(v@)),
            Err(e) => assessment_changes(patch@) == Err::<Seq<(Seq<char>, SettingModel)>, Seq<char>>(e@),
        },
{
    let mut out: Vec<(String, SettingValue)> = Vec::new();
    assert(changes_view(out@) =~= Seq::<(Seq<char>, SettingModel)>::empty());
    let c = match text_change_of(patch, "date", "date") {
        Ok(c) => c,
        Err(e) => return Err(e),
    };
    push_change(&mut out, c);
    let c = match text_change_of(patch, "categoryName", "category_name") {
        Ok(c) => c,
        Err(e) => return Err(e),
    };
    push_change(&mut out, c);
    let c = match required_text_change_of(patch, "title", "title") {
        Ok(c) => c,
        Err(e) => return Err(e),
    };
    push_change(&mut out, c);
    let c = match opt_int_change_of(patch, "term", "term") {
        Ok(c) => c,
        Err(e) => return Err(e),
    };
    push_change(&mut out, c);
    let c = match opt_int_change_of(patch, "legacyType", "legacy_type") {
        Ok(c) => c,
        Err(e) => return Err(e),
    };
    push_change(&mut out, c);
    let c = match opt_number_change_of(patch, "weight", "weight") {
        Ok(c) => c,
        Err(e) => return Err(e),
    };
    push_change(&mut out, c);
    let c = match opt_number_change_of(patch, "outOf", "out_of") {
        Ok(c) => c,
        Err(e) => return Err(e),
    };
    push_change(&mut out, c);
    if out.len() == 0 {
        return Err(String::from_str("patch must include at least one field"));
    }
    Ok(out)
}


// ---------------------------------------------------------------------------
// Bulk assessment update
// ---------------------------------------------------------------------------

/// One row of a bulk assessment update, as far as the rules read it: whether
/// it is an object, its `assessmentId` where that is a string, and its
/// `patch` where that is an object.
pub struct BulkUpdateRow {
    pub is_object: bool,
    pub assessment_id: Option<String>,
    pub patch: Option<SectionValues>,
}

pub struct BulkUpdateRowModel {
    pub is_object: bool,
    pub assessment_id: Option<Seq<char>>,
    pub patch: Option<Map<Seq<char>, SettingModel>>,
}

impl View for BulkUpdateRow {
    type V = BulkUpdateRowModel;

    open spec fn view(&self) -> BulkUpdateRowModel {
        BulkUpdateRowModel {
            is_object: self.is_object,
            assessment_id: opt_view(self.assessment_id),
            patch: match self.patch {
                Some(p) => Some(p@),
                None => None,
            },
        }
    }
}

/// What one row asks for: the assessment and its column changes; or the
/// row refused, with its assessment id where it has one and the message.
pub open spec fn bulk_row_check(row: BulkUpdateRowModel) -> Result<
    (Seq<char>, Seq<(Seq<char>, SettingModel)>),
    (Option<Seq<char>>, Seq<char>),
> {
    if !row.is_object {
        Err((None, "update row must be object"@))
    } else {
        match row.assessment_id {
            None => Err((None, "assessmentId is required"@)),
            Some(id) => match row.patch {
                None => Err((Some(id), "patch is required"@)),
                Some(p) => match assessment_changes(p) {
                    Ok(cs) => Ok((id, cs)),
                    Err(e) => Err((Some(id), e)),
                },
            },
        }
    }
}

fn copy_string(s: &String) -> (r: String)
    ensures
        r@ == s@,
{
    string_of_seq(&chars_of(s.as_str()))
}

/// What one row of a bulk assessment update asks for (see `bulk_row_check`).
pub fn check_bulk_row(row: &BulkUpdateRow) -> (r: Result<(String, Vec<(String, SettingValue)>), (Option<String>, String)>)
    ensures
        match r {
            Ok((id, cs)) => bulk_row_check(row@) == Ok::<
                (Seq<char>, Seq<(Seq<char>, SettingModel)>),
                (Option<Seq<char>>, Seq<char>),
            >((id@, changes_view(cs@))),
            Err((id, m)) => bulk_row_check(row@) == Err::<
                (Seq<char>, Seq<(Seq<char>, SettingModel)>),
                (Option<Seq<char>>, Seq<char>),
            >((opt_view(id), m@)),
        },
{
    if !row.is_object {
        return Err((None, String::from_str("update row must be object")));
    }
    let id = match &row.assessment_id {
        Some(id) => copy_string(id),
        None => return Err((None, String::from_str("assessmentId is required"))),
    };
    let patch = match &row.patch {
        Some(p) => p,
        None => return Err((Some(id), String::from_str("patch is required"))),
    };
    match assessment_patch_changes(patch) {
        Ok(cs) => Ok((id, cs)),
        Err(e) => Err((Some(id), e)),
    }
}

/// What the database answered to one row's update: the number of rows it
/// changed, or its error message.
pub enum UpdateOutcome {
    Changed(u64),
    Failed(String),
}

pub enum UpdateOutcomeModel {
    Changed(u64),
    Failed(Seq<char>),
}

impl View for UpdateOutcome {
    type V = UpdateOutcomeModel;

    open spec fn view(&self) -> UpdateOutcomeModel {
        match self {
            UpdateOutcome::Changed(n) => UpdateOutcomeModel::Changed(*n),
            UpdateOutcome::Failed(m) => UpdateOutcomeModel::Failed(m@),
        }
    }
}

/// A refused row of a bulk update: its index, its assessment id where it
/// has one, a code and a message.
pub struct RowRejection {
    pub index: usize,
    pub assessment_id: Option<String>,
    pub code: String,
    pub message: String,
}

pub struct RowRejectionModel {
    pub index: nat,
    pub assessment_id: Option<Seq<char>>,
    pub code: Seq<char>,
    pub message: Seq<char>,
}

impl View for RowRejection {
    type V = RowRejectionModel;

    open spec fn view(&self) -> RowRejectionModel {
        RowRejectionModel {
            index: self.index as nat,
            assessment_id: opt_view(self.assessment_id),
            code: self.code@,
            message: self.message@,
        }
    }
}

/// How row `index` ends: refused as `bad_params` where its check fails;
/// else, by the database's answer, refused as `not_found` where no row
/// changed, refused as `db_update_failed` with the error, or updated (none).
pub open spec fn row_rejection(index: nat, row: BulkUpdateRowModel, outcome: UpdateOutcomeModel) -> Option<
    RowRejectionModel,
> {
    match bulk_row_check(row) {
        Err((id, m)) => Some(RowRejectionModel { index, assessment_id: id, code: "bad_params"@, message: m }),
        Ok((id, _)) => match outcome {
            UpdateOutcomeModel::Changed(n) => if n == 0 {
                Some(
                    RowRejectionModel {
                        index,
                        assessment_id: Some(id),
                        code: "not_found"@,
                        message: "assessment not found"@,
                    },
                )
            } else {
                None
            },
            UpdateOutcomeModel::Failed(m) => Some(
                RowRejectionModel { index, assessment_id: Some(id), code: "db_update_failed"@, message: m },
            ),
        },
    }
}

/// The rows updated and the rows refused (in order) of a bulk update whose
/// rows are `rows` and whose database answers are `outcomes`, row by row.
pub open spec fn bulk_tally(rows: Seq<BulkUpdateRowModel>, outcomes: Seq<UpdateOutcomeModel>) -> (
    nat,
    Seq<RowRejectionModel>,
)
    decreases rows.len(),
{
    if rows.len() == 0 {
        (0, Seq::empty())
    } else {
        let n = (rows.len() - 1) as nat;
        let (u, rj) = bulk_tally(rows.take(n as int), outcomes);
        match row_rejection(n, rows[n as int], outcomes[n as int]) {
            Some(x) => (u, rj.push(x)),
            None => (u + 1, rj),
        }
    }
}

/// What a bulk assessment update reports: the number of rows updated and the
/// rows refused.
pub struct BulkUpdateTally {
    pub updated: usize,
    pub rejected: Vec<RowRejection>,
}

/// The report of a bulk assessment update whose rows are `rows`, where the
/// database answered `outcomes[i]` to row `i` (read only for rows whose
/// check passed). Every row is either updated or refused.
pub fn bulk_update_tally(rows: &Vec<BulkUpdateRow>, outcomes: &Vec<UpdateOutcome>) -> (r: BulkUpdateTally)
    requires
        rows@.len() == outcomes@.len(),
    ensures
        (r.updated as nat, r.rejected@.map_values(|x: RowRejection| x@)) == bulk_tally(
            rows@.map_values(|x: BulkUpdateRow| x@),
            outcomes@.map_values(|x: UpdateOutcome| x@),
        ),
        r.updated + r.rejected@.len() == rows@.len(),
{
    let ghost rv = rows@.map_values(|x: BulkUpdateRow| x@);
    let ghost ov = outcomes@.map_values(|x: UpdateOutcome| x@);
    let mut updated: usize = 0;
    let mut rejected: Vec<RowRejection> = Vec::new();
    let mut k: usize = 0;
    assert(rv.take(0) =~= Seq::<BulkUpdateRowModel>::empty());
    while k < rows.len()
        invariant
            k <= rows@.len() == outcomes@.len(),
            rv == rows@.map_values(|x: BulkUpdateRow| x@),
            ov == outcomes@.map_values(|x: UpdateOutcome| x@),
            (updated as nat, rejected@.map_values(|x: RowRejection| x@)) == bulk_tally(rv.take(k as int), ov),
            updated + rejected@.len() == k,
        decreases rows@.len() - k,
    {
        let ghost before = rejected@.map_values(|x: RowRejection| x@);
        assert(rv.take(k + 1).take(k as int) =~= rv.take(k as int));
        assert(rv.take(k + 1)[k as int] == rows@[k as int]@);
        let rej: Option<RowRejection> = match check_bulk_row(&rows[k]) {
            Err((id, m)) => Some(
                RowRejection { index: k, assessment_id: id, code: String::from_str("bad_params"), message: m },
            ),
            Ok((id, _)) => match &outcomes[k] {
                UpdateOutcome::Changed(n) => if *n == 0 {
                    Some(
                        RowRejection {
                            index: k,
                            assessment_id: Some(id),
                            code: String::from_str("not_found"),
                            message: String::from_str("assessment not found"),
                        },
                    )
                } else {
                    None
                },
                UpdateOutcome::Failed(m) => Some(
                    RowRejection {
                        index: k,
                        assessment_id: Some(id),
                        code: String::from_str("db_update_failed"),
                        message: copy_string(m),
                    },
                ),
            },
        };
        match rej {
            Some(x) => {
                let ghost xv = x@;
                rejected.push(x);
                assert(rejected@.map_values(|x: RowRejection| x@) =~= before.push(xv));
            },
            None => {
                updated += 1;
            },
        }
        k += 1;
    }
    assert(rv.take(rows@.len() as int) =~= rv);
    BulkUpdateTally { updated, rejected }
}


/// Every row of a bulk update is either counted as updated or reported as
/// refused, and the refused rows are reported in row order, each with the
/// index of a row.
pub proof fn law_bulk_update_accounts_every_row(
    rows: Seq<BulkUpdateRowModel>,
    outcomes: Seq<UpdateOutcomeModel>,
)
    ensures
        bulk_tally(rows, outcomes).0 + bulk_tally(rows, outcomes).1.len() == rows.len(),
        forall|a: int|
            0 <= a < bulk_tally(rows, outcomes).1.len() ==> #[trigger] bulk_tally(rows, outcomes).1[a].index
                < rows.len(),
        forall|a: int, b: int|
            0 <= a < b < bulk_tally(rows, outcomes).1.len() ==> #[trigger] bulk_tally(rows, outcomes).1[a].index
                < #[trigger] bulk_tally(rows, outcomes).1[b].index,
    decreases rows.len(),
{
    if rows.len() > 0 {
        let n = (rows.len() - 1) as nat;
        law_bulk_update_accounts_every_row(rows.take(n as int), outcomes);
        let (u, rj) = bulk_tally(rows.take(n as int), outcomes);
        match row_rejection(n, rows[n as int], outcomes[n as int]) {
            Some(x) => {
                assert(x.index == n);
                assert(bulk_tally(rows, outcomes).1 == rj.push(x));
            },
            None => {},
        }
    }
}

} // verus!
