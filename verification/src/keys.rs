//! The keys by which records of different origins are matched: names,
//! assessments and stored preferences.
use vstd::prelude::*;
use crate::num::{i64_decimal, int_decimal};
use crate::text::{
    append_chars, chars_of, lemma_trim_idempotent, lower, lower_chars, string_of_seq, trim,
    trim_chars,
};

verus! {

/// `s` trimmed and in ASCII lower case.
pub open spec fn key_of(s: Seq<char>) -> Seq<char> {
    lower(trim(s))
}

/// The key of `s`: trimmed and in ASCII lower case.
pub fn normalize_key(s: &str) -> (r: String)
    ensures
        r@ == key_of(s@),
{
    let t = trim_chars(chars_of(s).as_slice());
    string_of_seq(&lower_chars(t.as_slice()))
}

/// The key of `s`, where there is one and it is not empty.
pub fn normalize_opt_key(s: Option<&str>) -> (r: Option<String>)
    ensures
        match s {
            Some(x) => if key_of(x@).len() > 0 {
                r matches Some(k) && k@ == key_of(x@)
            } else {
                r is None
            },
            None => r is None,
        },
{
    match s {
        Some(x) => {
            let k = normalize_key(x);
            if k.as_str().unicode_len() > 0 {
                Some(k)
            } else {
                None
            }
        },
        None => None,
    }
}

/// `a|b`.
pub open spec fn pair_key(a: Seq<char>, b: Seq<char>) -> Seq<char> {
    a + seq!['|'] + b
}

/// The key of a student's name: `last|first`, each part a key.
pub open spec fn name_key(last: Seq<char>, first: Seq<char>) -> Seq<char> {
    pair_key(key_of(last), key_of(first))
}

/// The key of a student's name.
pub fn student_name_key(last_name: &str, first_name: &str) -> (r: String)
    ensures
        r@ == name_key(last_name@, first_name@),
{
    let mut out: Vec<char> = Vec::new();
    let a = normalize_key(last_name);
    append_chars(&mut out, chars_of(a.as_str()).as_slice());
    out.push('|');
    let b = normalize_key(first_name);
    append_chars(&mut out, chars_of(b.as_str()).as_slice());
    string_of_seq(&out)
}

/// The key of an optional text: the key of the text, or of blank.
pub open spec fn opt_key(s: Option<&str>) -> Seq<char> {
    match s {
        Some(x) => key_of(x@),
        None => Seq::empty(),
    }
}

/// `date|category|title|term`, the first three as keys and the term (0
/// where absent) in decimal.
pub open spec fn collision_key(
    date: Option<&str>,
    category_name: Option<&str>,
    title: Seq<char>,
    term: Option<i64>,
) -> Seq<char> {
    pair_key(
        pair_key(pair_key(opt_key(date), opt_key(category_name)), key_of(title)),
        int_decimal(
            match term {
                Some(t) => t as int,
                None => 0,
            },
        ),
    )
}

/// The key under which two assessments count as the same one.
pub fn assessment_collision_key(
    date: Option<&str>,
    category_name: Option<&str>,
    title: &str,
    term: Option<i64>,
) -> (r: String)
    ensures
        r@ == collision_key(date, category_name, title@, term),
{
    let mut out: Vec<char> = Vec::new();
    let d = normalize_key(
        match date {
            Some(x) => x,
            None => "",
        },
    );
    proof {
        reveal_strlit("");
    }
    append_chars(&mut out, chars_of(d.as_str()).as_slice());
    out.push('|');
    let c = normalize_key(
        match category_name {
            Some(x) => x,
            None => "",
        },
    );
    append_chars(&mut out, chars_of(c.as_str()).as_slice());
    out.push('|');
    let t = normalize_key(title);
    append_chars(&mut out, chars_of(t.as_str()).as_slice());
    out.push('|');
    let n = i64_decimal(
        match term {
            Some(t) => t,
            None => 0,
        },
    );
    append_chars(&mut out, n.as_slice());
    proof {
        assert(key_of(Seq::<char>::empty()) == Seq::<char>::empty());
    }
    string_of_seq(&out)
}

/// The preference key under which a mark set's "hide deleted" choice is
/// kept: `marks.hideDeleted.{class}.{mark set}`.
pub fn hide_deleted_pref_key(class_id: &str, mark_set_id: &str) -> (r: String)
    ensures
        r@ == "marks.hideDeleted."@ + class_id@ + seq!['.'] + mark_set_id@,
{
    let mut out = chars_of("marks.hideDeleted.");
    append_chars(&mut out, chars_of(class_id).as_slice());
    out.push('.');
    append_chars(&mut out, chars_of(mark_set_id).as_slice());
    string_of_seq(&out)
}

/// The preference key under which a class's entry-cloning clipboard is
/// kept: `entries.clone.{class}`.
pub fn entry_clone_key(class_id: &str) -> (r: String)
    ensures
        r@ == "entries.clone."@ + class_id@,
{
    let mut out = chars_of("entries.clone.");
    append_chars(&mut out, chars_of(class_id).as_slice());
    string_of_seq(&out)
}

/// The year token of a class file, from the file's extension: the
/// extension trimmed and upper-cased, where it starts with `Y` and has at
/// least two characters (`Y25` for `CL8D.Y25`).
pub fn class_meta_year_token_from_cl_file(extension: Option<&str>) -> (r: Option<String>)
    ensures
        match extension {
            Some(e) => {
                let u = crate::text::upper(trim(e@));
                if u.len() >= 2 && u[0] == 'Y' {
                    r matches Some(t) && t@ == u
                } else {
                    r is None
                }
            },
            None => r is None,
        },
{
    match extension {
        Some(e) => {
            let t = trim_chars(chars_of(e).as_slice());
            let u = crate::text::upper_chars(t.as_slice());
            if u.len() >= 2 && u[0] == 'Y' {
                Some(string_of_seq(&u))
            } else {
                None
            }
        },
        None => None,
    }
}

/// A key is its own key.
pub proof fn law_key_idempotent(s: Seq<char>)
    ensures
        key_of(key_of(s)) == key_of(s),
{
    lemma_trim_idempotent(s);
    crate::text::lemma_lower_trim(trim(s));
    crate::text::lemma_lower_idempotent(trim(s));
}

} // verus!
