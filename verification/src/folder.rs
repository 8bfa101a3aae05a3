//! Which files of a legacy class folder hold what, by their names.
use vstd::prelude::*;
use crate::text::{
    chars_of, contains_chars, contains_seq, ends_with, ends_with_chars, eq_ignore_case,
    eq_ignore_case_chars, is_digit, starts_with, starts_with_chars, upper, upper_chars,
};

verus! {

/// A class file: its name, upper-cased, starts with `CL` and holds `.Y`
/// (`CL8D.Y25`).
pub fn is_class_file_name(name: &str) -> (r: bool)
    ensures
        r == (starts_with(upper(name@), "CL"@) && contains_seq(upper(name@), ".Y"@)),
{
    let up = upper_chars(chars_of(name).as_slice());
    starts_with_chars(up.as_slice(), chars_of("CL").as_slice()) && contains_chars(
        up.as_slice(),
        chars_of(".Y").as_slice(),
    )
}

/// A year file: its name, upper-cased, ends with `.Y` and two digits.
pub open spec fn year_file(name: Seq<char>) -> bool {
    let u = upper(name);
    let n = u.len();
    n >= 4 && u[n - 4] == '.' && u[n - 3] == 'Y' && is_digit(u[n - 2]) && is_digit(u[n - 1])
}

/// Whether `name` is a year file (see `year_file`).
pub fn is_legacy_year_file(name: &str) -> (r: bool)
    ensures
        r == year_file(name@),
{
    let u = upper_chars(chars_of(name).as_slice());
    let n = u.len();
    if n < 4 {
        return false;
    }
    u[n - 4] == '.' && u[n - 3] == 'Y' && ('0' <= u[n - 2] && u[n - 2] <= '9') && ('0' <= u[n - 1]
        && u[n - 1] <= '9')
}

/// A mark file of the mark sets with file prefix `prefix`: a year file
/// whose name, upper-cased, starts with the prefix (upper-cased) and not
/// with `CL`.
pub fn is_mark_file_name(name: &str, prefix: &str) -> (r: bool)
    ensures
        r == (!starts_with(upper(name@), "CL"@) && starts_with(upper(name@), upper(prefix@))
            && year_file(name@)),
{
    let up = upper_chars(chars_of(name).as_slice());
    let pre = upper_chars(chars_of(prefix).as_slice());
    if starts_with_chars(up.as_slice(), chars_of("CL").as_slice()) {
        return false;
    }
    if !starts_with_chars(up.as_slice(), pre.as_slice()) {
        return false;
    }
    is_legacy_year_file(name)
}

/// A class note file: its name, upper-cased, ends with `NOTE.TXT`.
pub fn is_note_file_name(name: &str) -> (r: bool)
    ensures
        r == ends_with(upper(name@), "NOTE.TXT"@),
{
    let up = upper_chars(chars_of(name).as_slice());
    ends_with_chars(up.as_slice(), chars_of("NOTE.TXT").as_slice())
}

/// Whether a file's extension is `want`, in any ASCII case.
pub fn extension_is(extension: &str, want: &str) -> (r: bool)
    ensures
        r == eq_ignore_case(extension@, want@),
{
    eq_ignore_case_chars(chars_of(extension).as_slice(), chars_of(want).as_slice())
}

/// A comment index for all mark sets: its name, upper-cased, starts with
/// `ALL!` and ends with `.IDX`.
pub fn is_all_idx_file_name(name: &str) -> (r: bool)
    ensures
        r == (starts_with(upper(name@), "ALL!"@) && ends_with(upper(name@), ".IDX"@)),
{
    let up = upper_chars(chars_of(name).as_slice());
    starts_with_chars(up.as_slice(), chars_of("ALL!").as_slice()) && ends_with_chars(
        up.as_slice(),
        chars_of(".IDX").as_slice(),
    )
}

} // verus!
