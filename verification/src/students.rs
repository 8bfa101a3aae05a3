//! The rules of the student requests: a new student's fields, the
//! changes a patch asks for, and membership in the class's mark sets.
use vstd::prelude::*;
use crate::marksets::{add_change, change_view, changes_view, opt_change_view};
use crate::params::{non_blank, non_blank_of, opt_view, text_of, ParamValue};
use crate::setup::{SectionValues, SettingModel, SettingValue};
use crate::text::{chars_of, eq_ignore_case, eq_ignore_case_chars, string_of_seq, trim, trim_chars, upper, upper_chars};

verus! {

/// `n` ones.
pub open spec fn ones(n: nat) -> Seq<char> {
    Seq::new(n, |i: int| '1')
}

/// Whether `s` is made of `0` and `1` only.
pub open spec fn is_bits(s: Seq<char>) -> bool {
    forall|i: int| 0 <= i < s.len() ==> #[trigger] s[i] == '0' || s[i] == '1'
}

/// A student's membership mask for a class of `count` mark sets: one
/// character per mark set, `1` where the student is in it. No mask (read
/// as `TBA`), a blank one, `TBA` in any case, or one with anything but `0`
/// and `1` (once trimmed and upper-cased) puts the student in every mark
/// set; a mask of `0` and `1` is cut to `count` or filled up with `1`.
pub open spec fn mask_for(raw: Option<Seq<char>>, count: nat) -> Seq<char> {
    let t = trim(
        match raw {
            Some(s) => s,
            None => "TBA"@,
        },
    );
    let up = upper(t);
    if count == 0 {
        Seq::empty()
    } else if t.len() == 0 || eq_ignore_case(t, "TBA"@) || !is_bits(up) {
        ones(count)
    } else if up.len() >= count {
        up.take(count as int)
    } else {
        up + ones((count - up.len()) as nat)
    }
}

/// A student's membership mask for a class of `mark_set_count` mark sets
/// (see `mask_for`).
pub fn normalize_mark_set_mask(raw: Option<String>, mark_set_count: usize) -> (r: String)
    ensures
        r@ == mask_for(
            match raw {
                Some(s) => Some(s@),
                None => None,
            },
            mark_set_count as nat,
        ),
{
    if mark_set_count == 0 {
        return String::new();
    }
    let s = match &raw {
        Some(s) => chars_of(s.as_str()),
        None => chars_of("TBA"),
    };
    let t = trim_chars(s.as_slice());
    let up = upper_chars(t.as_slice());
    let mut bits = true;
    let mut i: usize = 0;
    while i < up.len()
        invariant
            i <= up@.len(),
            bits == forall|j: int| 0 <= j < i ==> #[trigger] up@[j] == '0' || up@[j] == '1',
        decreases up@.len() - i,
    {
        if up[i] != '0' && up[i] != '1' {
            bits = false;
        }
        i += 1;
    }
    let tba = chars_of("TBA");
    let mut out: Vec<char> = Vec::new();
    if t.len() == 0 || eq_ignore_case_chars(t.as_slice(), tba.as_slice()) || !bits {
        let mut k: usize = 0;
        while k < mark_set_count
            invariant
                k <= mark_set_count,
                out@ == ones(k as nat),
            decreases mark_set_count - k,
        {
            out.push('1');
            k += 1;
            assert(out@ == ones(k as nat));
        }
    } else {
        let mut k: usize = 0;
        while k < mark_set_count
            invariant
                k <= mark_set_count,
                out@ == (if up@.len() >= mark_set_count {
                    up@.take(mark_set_count as int)
                } else {
                    up@ + ones((mark_set_count - up@.len()) as nat)
                }).take(k as int),
            decreases mark_set_count - k,
        {
            let c = if k < up.len() {
                up[k]
            } else {
                '1'
            };
            out.push(c);
            k += 1;
            assert(out@ == (if up@.len() >= mark_set_count {
                up@.take(mark_set_count as int)
            } else {
                up@ + ones((mark_set_count - up@.len()) as nat)
            }).take(k as int));
        }
        assert((if up@.len() >= mark_set_count {
            up@.take(mark_set_count as int)
        } else {
            up@ + ones((mark_set_count - up@.len()) as nat)
        }).take(mark_set_count as int) == (if up@.len() >= mark_set_count {
            up@.take(mark_set_count as int)
        } else {
            up@ + ones((mark_set_count - up@.len()) as nat)
        }));
    }
    string_of_seq(&out)
}

/// A membership mask has one character per mark set, each `0` or `1`.
pub proof fn law_mask_shape(raw: Option<Seq<char>>, count: nat)
    ensures
        mask_for(raw, count).len() == count,
        is_bits(mask_for(raw, count)),
{
}

/// A membership mask reads back as itself.
pub proof fn law_mask_idempotent(raw: Option<Seq<char>>, count: nat)
    ensures
        mask_for(Some(mask_for(raw, count)), count) == mask_for(raw, count),
{
    lemma_bits_mask(mask_for(raw, count), count);
}

/// A mask of `count` bits is its own normal form.
proof fn lemma_bits_mask(m: Seq<char>, count: nat)
    requires
        is_bits(m),
        m.len() == count,
    ensures
        mask_for(Some(m), count) == m,
{
    if count > 0 {
        lemma_bits_fixed(m);
        if eq_ignore_case(m, "TBA"@) {
            reveal_strlit("TBA");
            assert(crate::text::lower("TBA"@)[0] == 't');
            assert(crate::text::lower(m)[0] == crate::text::lower_char(m[0]));
        }
        assert(m.take(count as int) == m);
    }
}

/// The mask after putting a student in mark set `bit` (or taking them out
/// of it): the normal mask with that character set to `1` (or `0`), where
/// it has one.
pub open spec fn mask_with(raw: Option<Seq<char>>, count: nat, bit: nat, enabled: bool) -> Seq<char> {
    let m = mask_for(raw, count);
    if bit < m.len() {
        m.update(
            bit as int,
            if enabled {
                '1'
            } else {
                '0'
            },
        )
    } else {
        m
    }
}

/// Whether mask `m` puts the student in mark set `bit`.
pub open spec fn in_mark_set(m: Seq<char>, bit: int) -> bool {
    0 <= bit < m.len() && m[bit] == '1'
}

/// The mask after putting a student in mark set `bit` of a class of
/// `mark_set_count` mark sets, or taking them out of it (see `mask_with`).
pub fn set_membership(raw: Option<String>, mark_set_count: usize, bit: usize, enabled: bool) -> (r: String)
    ensures
        r@ == mask_with(
            match raw {
                Some(s) => Some(s@),
                None => None,
            },
            mark_set_count as nat,
            bit as nat,
            enabled,
        ),
{
    let m = normalize_mark_set_mask(raw, mark_set_count);
    let mut v = chars_of(m.as_str());
    if bit < v.len() {
        v.set(
            bit,
            if enabled {
                '1'
            } else {
                '0'
            },
        );
    }
    string_of_seq(&v)
}

/// Putting a student in a mark set or taking them out of it changes that
/// mark set's membership only: the new mask reads back as itself, has one
/// bit per mark set, puts the student in that mark set exactly where asked,
/// and leaves every other mark set as it was.
pub proof fn law_membership_read_back(raw: Option<Seq<char>>, count: nat, bit: nat, enabled: bool)
    requires
        bit < count,
    ensures
        mask_with(raw, count, bit, enabled).len() == count,
        mask_for(Some(mask_with(raw, count, bit, enabled)), count) == mask_with(raw, count, bit, enabled),
        in_mark_set(mask_with(raw, count, bit, enabled), bit as int) == enabled,
        forall|j: int|
            j != bit ==> #[trigger] in_mark_set(mask_with(raw, count, bit, enabled), j) == in_mark_set(
                mask_for(raw, count),
                j,
            ),
{
    law_mask_shape(raw, count);
    let m = mask_with(raw, count, bit, enabled);
    assert(is_bits(m)) by {
        assert forall|i: int| 0 <= i < m.len() implies #[trigger] m[i] == '0' || m[i] == '1' by {
            if i != bit {
                assert(m[i] == mask_for(raw, count)[i]);
            }
        }
    }
    lemma_bits_mask(m, count);
}

proof fn lemma_bits_fixed(m: Seq<char>)
    requires
        is_bits(m),
    ensures
        trim(m) == m,
        upper(m) == m,
{
    crate::text::lemma_trim_no_ws(m);
    assert(upper(m) =~= m);
}

/// The fields of a new student.
pub struct NewStudent {
    pub last_name: String,
    pub first_name: String,
    pub student_no: Option<String>,
    pub birth_date: Option<String>,
    pub active: bool,
}

/// The fields of a new student: both names required texts (trimmed, not
/// blank); number and birth date trimmed where they are texts that are not
/// blank; active unless the request says otherwise.
pub open spec fn new_student(
    last: Option<Seq<char>>,
    first: Option<Seq<char>>,
    student_no: Option<Seq<char>>,
    birth_date: Option<Seq<char>>,
    active: Option<bool>,
) -> Result<(Seq<char>, Seq<char>, Option<Seq<char>>, Option<Seq<char>>, bool), Seq<char>> {
    match last {
        None => Err("missing lastName"@),
        Some(l) => match first {
            None => Err("missing firstName"@),
            Some(f) => if trim(l).len() == 0 || trim(f).len() == 0 {
                Err("firstName/lastName must not be empty"@)
            } else {
                Ok(
                    (
                        trim(l),
                        trim(f),
                        match student_no {
                            Some(n) => non_blank(n),
                            None => None,
                        },
                        match birth_date {
                            Some(b) => non_blank(b),
                            None => None,
                        },
                        match active {
                            Some(b) => b,
                            None => true,
                        },
                    ),
                )
            },
        },
    }
}

pub open spec fn bool_of(v: Option<&ParamValue>) -> Option<bool> {
    match v {
        Some(ParamValue::Bool(b)) => Some(*b),
        _ => None,
    }
}

fn opt_non_blank(v: Option<&ParamValue>) -> (r: Option<String>)
    ensures
        opt_view(r) == match text_of(v) {
            Some(s) => non_blank(s),
            None => None,
        },
{
    match v {
        Some(ParamValue::Text(s)) => non_blank_of(s),
        _ => None,
    }
}

/// The fields of a new student (see `new_student`).
pub fn new_student_fields(
    last_name: Option<&ParamValue>,
    first_name: Option<&ParamValue>,
    student_no: Option<&ParamValue>,
    birth_date: Option<&ParamValue>,
    active: Option<&ParamValue>,
) -> (r: Result<NewStudent, String>)
    ensures
        match r {
            Ok(s) => new_student(
                text_of(last_name),
                text_of(first_name),
                text_of(student_no),
                text_of(birth_date),
                bool_of(active),
            ) == Ok::<(Seq<char>, Seq<char>, Option<Seq<char>>, Option<Seq<char>>, bool), Seq<char>>(
                (s.last_name@, s.first_name@, opt_view(s.student_no), opt_view(s.birth_date), s.active),
            ),
            Err(e) => new_student(
                text_of(last_name),
                text_of(first_name),
                text_of(student_no),
                text_of(birth_date),
                bool_of(active),
            ) == Err::<(Seq<char>, Seq<char>, Option<Seq<char>>, Option<Seq<char>>, bool), Seq<char>>(e@),
        },
{
    let l = match last_name {
        Some(ParamValue::Text(s)) => trim_chars(chars_of(s.as_str()).as_slice()),
        _ => return Err(String::from_str("missing lastName")),
    };
    let f = match first_name {
        Some(ParamValue::Text(s)) => trim_chars(chars_of(s.as_str()).as_slice()),
        _ => return Err(String::from_str("missing firstName")),
    };
    if l.len() == 0 || f.len() == 0 {
        return Err(String::from_str("firstName/lastName must not be empty"));
    }
    let active = match active {
        Some(ParamValue::Bool(b)) => *b,
        _ => true,
    };
    Ok(
        NewStudent {
            last_name: string_of_seq(&l),
            first_name: string_of_seq(&f),
            student_no: opt_non_blank(student_no),
            birth_date: opt_non_blank(birth_date),
            active,
        },
    )
}

/// The change of a name column that a student patch asks for under `key`:
/// the name trimmed; a blank one or one that is no text refused.
pub open spec fn name_change(m: Map<Seq<char>, SettingModel>, key: Seq<char>, col: Seq<char>) -> Result<
    Option<(Seq<char>, SettingModel)>,
    Seq<char>,
> {
    if !m.dom().contains(key) {
        Ok(None)
    } else {
        match m[key] {
            SettingModel::Text(t) => if trim(t).len() == 0 {
                Err(key + " must not be empty"@)
            } else {
                Ok(Some((col, SettingModel::Text(trim(t)))))
            },
            _ => Err("patch."@ + key + " must be a string"@),
        }
    }
}

/// The change of an optional text column that a student patch asks for
/// under `key`: null where it is null or blank, else the text trimmed.
pub open spec fn opt_text_change(m: Map<Seq<char>, SettingModel>, key: Seq<char>, col: Seq<char>) -> Result<
    Option<(Seq<char>, SettingModel)>,
    Seq<char>,
> {
    if !m.dom().contains(key) {
        Ok(None)
    } else {
        match m[key] {
            SettingModel::Null => Ok(Some((col, SettingModel::Null))),
            SettingModel::Text(t) => Ok(
                Some(
                    (
                        col,
                        if trim(t).len() == 0 {
                            SettingModel::Null
                        } else {
                            SettingModel::Text(trim(t))
                        },
                    ),
                ),
            ),
            _ => Err("patch."@ + key + " must be a string or null"@),
        }
    }
}

/// The change of the active flag that a student patch asks for: 1 or 0.
pub open spec fn active_change(m: Map<Seq<char>, SettingModel>) -> Result<Option<(Seq<char>, SettingModel)>, Seq<char>> {
    if !m.dom().contains("active"@) {
        Ok(None)
    } else {
        match m["active"@] {
            SettingModel::Bool(b) => Ok(
                Some(
                    (
                        "active"@,
                        SettingModel::Int(
                            if b {
                                1
                            } else {
                                0
                            },
                        ),
                    ),
                ),
            ),
            _ => Err("patch.active must be a boolean"@),
        }
    }
}

/// The column changes of a student patch, in the order last name, first
/// name, number, birth date, active; the first bad field refuses the
/// patch, and so does a patch with none of them.
pub open spec fn student_changes(m: Map<Seq<char>, SettingModel>) -> Result<Seq<(Seq<char>, SettingModel)>, Seq<char>> {
    let a0: Result<Seq<(Seq<char>, SettingModel)>, Seq<char>> = Ok(Seq::empty());
    let a1 = add_change(a0, name_change(m, "lastName"@, "last_name"@));
    let a2 = add_change(a1, name_change(m, "firstName"@, "first_name"@));
    let a3 = add_change(a2, opt_text_change(m, "studentNo"@, "student_no"@));
    let a4 = add_change(a3, opt_text_change(m, "birthDate"@, "birth_date"@));
    let a5 = add_change(a4, active_change(m));
    match a5 {
        Ok(s) => if s.len() == 0 {
            Err("patch must include at least one field"@)
        } else {
            Ok(s)
        },
        Err(e) => Err(e),
    }
}

fn joined(a: &str, b: &str, c: &str) -> (r: String)
    ensures
        r@ == a@ + b@ + c@,
{
    let mut out = chars_of(a);
    crate::text::append_chars(&mut out, chars_of(b).as_slice());
    crate::text::append_chars(&mut out, chars_of(c).as_slice());
    string_of_seq(&out)
}

fn name_change_of(patch: &SectionValues, key: &str, col: &str) -> (r: Result<Option<(String, SettingValue)>, String>)
    ensures
        match r {
            Ok(o) => name_change(patch@, key@, col@) == Ok::<Option<(Seq<char>, SettingModel)>, Seq<char>>(
                opt_change_view(o),
            ),
            Err(e) => name_change(patch@, key@, col@) == Err::<Option<(Seq<char>, SettingModel)>, Seq<char>>(e@),
        },
{
    match patch.get(key) {
        None => Ok(None),
        Some(SettingValue::Text(t)) => {
            let v = non_blank_of(t);
            match v {
                Some(x) => {
                    let c = String::from_str(col);
                    assert(c@ == col@);
                    assert(x@ == trim(t@));
                    Ok(Some((c, SettingValue::Text(x))))
                },
                None => {
                    let e = joined(key, " must not be empty", "");
                    assert(""@ =~= Seq::<char>::empty()) by {
                        reveal_strlit("");
                    }
                    assert(e@ =~= key@ + " must not be empty"@);
                    Err(e)
                },
            }
        },
        Some(_) => Err(joined("patch.", key, " must be a string")),
    }
}

fn opt_text_change_of(patch: &SectionValues, key: &str, col: &str) -> (r: Result<
    Option<(String, SettingValue)>,
    String,
>)
    ensures
        match r {
            Ok(o) => opt_text_change(patch@, key@, col@) == Ok::<Option<(Seq<char>, SettingModel)>, Seq<char>>(
                opt_change_view(o),
            ),
            Err(e) => opt_text_change(patch@, key@, col@) == Err::<Option<(Seq<char>, SettingModel)>, Seq<char>>(
                e@,
            ),
        },
{
    match patch.get(key) {
        None => Ok(None),
        Some(SettingValue::Null) => Ok(Some((String::from_str(col), SettingValue::Null))),
        Some(SettingValue::Text(t)) => {
            let v = match non_blank_of(t) {
                Some(x) => SettingValue::Text(x),
                None => SettingValue::Null,
            };
            Ok(Some((String::from_str(col), v)))
        },
        Some(_) => Err(joined("patch.", key, " must be a string or null")),
    }
}

fn push_change(out: &mut Vec<(String, SettingValue)>, c: Option<(String, SettingValue)>)
    ensures
        changes_view(final(out)@) == match opt_change_view(c) {
            Some(x) => changes_view(old(out)@).push(x),
            None => changes_view(old(out)@),
        },
{
    match c {
        Some(x) => {
            let ghost before = changes_view(out@);
            let ghost xv = change_view(x);
            out.push(x);
            assert(changes_view(out@) =~= before.push(xv));
        },
        None => {},
    }
}

/// The column changes of a student patch (see `student_changes`).
pub fn student_patch_changes(patch: &SectionValues) -> (r: Result<Vec<(String, SettingValue)>, String>)
    ensures
        match r {
            Ok(v) => student_changes(patch@) == Ok::<Seq<(Seq<char>, SettingModel)>, Seq<char>>(changes_view(v@)),
            Err(e) => student_changes(patch@) == Err::<Seq<(Seq<char>, SettingModel)>, Seq<char>>(e@),
        },
{
    let mut out: Vec<(String, SettingValue)> = Vec::new();
    assert(changes_view(out@) =~= Seq::<(Seq<char>, SettingModel)>::empty());
    let c = name_change_of(patch, "lastName", "last_name")?;
    push_change(&mut out, c);
    let c = name_change_of(patch, "firstName", "first_name")?;
    push_change(&mut out, c);
    let c = opt_text_change_of(patch, "studentNo", "student_no")?;
    push_change(&mut out, c);
    let c = opt_text_change_of(patch, "birthDate", "birth_date")?;
    push_change(&mut out, c);
    let c = match patch.get("active") {
        None => None,
        Some(SettingValue::Bool(b)) => Some(
            (
                String::from_str("active"),
                SettingValue::Int(
                    if *b {
                        1
                    } else {
                        0
                    },
                ),
            ),
        ),
        Some(_) => return Err(String::from_str("patch.active must be a boolean")),
    };
    push_change(&mut out, c);
    if out.len() == 0 {
        return Err(String::from_str("patch must include at least one field"));
    }
    Ok(out)
}

} // verus!
