//! Reading the line-oriented legacy files: finding a `[Section]` header and
//! taking values line by line after it.
use vstd::prelude::*;
use crate::text::{
    chars_of, eq_ignore_case, eq_ignore_case_chars, slice_range, strip_quotes, strip_quotes_chars,
    trim, trim_chars, trim_end,
};

verus! {

/// Why a legacy file could not be read.
#[derive(Clone, Copy, Debug, PartialEq, Eq, Structural)]
pub enum LegacyError {
    /// The file holds no line at all.
    EmptyFile,
    /// A `[Section]` header that the format requires is absent.
    MissingSection,
    /// The value that must follow a header (most often a count) is absent.
    MissingValue,
    /// A count or number that the format requires does not parse.
    BadNumber,
    /// The file ends inside a record.
    UnexpectedEof,
    /// A line does not have the shape its record requires.
    BadLine,
    /// A quoted text that spans lines is never closed.
    Unterminated,
}

/// The characters of each line.
pub open spec fn lv(lines: Seq<Vec<char>>) -> Seq<Seq<char>> {
    lines.map_values(|l: Vec<char>| l@)
}

/// `[name]`.
pub open spec fn bracketed(name: Seq<char>) -> Seq<char> {
    seq!['['] + name + seq![']']
}

/// Whether line `i` is the header `[name]`, in any ASCII case and with any
/// white space around it.
pub open spec fn is_header(ls: Seq<Seq<char>>, i: int, name: Seq<char>) -> bool {
    eq_ignore_case(trim(ls[i]), bracketed(name))
}

/// The index of the first line that is the header `[name]`.
pub open spec fn section_index(ls: Seq<Seq<char>>, name: Seq<char>) -> Option<int> {
    if exists|i: int| 0 <= i < ls.len() && is_header(ls, i, name) {
        Some(
            choose|i: int|
                0 <= i < ls.len() && is_header(ls, i, name) && forall|j: int|
                    0 <= j < i ==> !is_header(ls, j, name),
        )
    } else {
        None
    }
}

/// The first value at or after line `i` that is not blank once trimmed and
/// stripped of one pair of quotes, and the line after it; or nothing, and
/// `i` unchanged when `i` is past the end, else the end.
pub open spec fn next_non_noise(ls: Seq<Seq<char>>, i: int) -> (Option<Seq<char>>, int)
    decreases ls.len() - i,
{
    if i < 0 || i >= ls.len() {
        (None, i)
    } else if strip_quotes(ls[i]).len() == 0 {
        next_non_noise(ls, i + 1)
    } else {
        (Some(strip_quotes(ls[i])), i + 1)
    }
}

/// Line `i` trimmed and stripped of one pair of quotes, blank or not, and
/// the line after it; or nothing at the end.
pub open spec fn next_keep_empty(ls: Seq<Seq<char>>, i: int) -> (Option<Seq<char>>, int) {
    if i < 0 || i >= ls.len() {
        (None, i)
    } else {
        (Some(strip_quotes(ls[i])), i + 1)
    }
}

/// The header line of `[name]`, found as `find_section` finds it.
pub fn find_section(lines: &Vec<Vec<char>>, name: &str) -> (r: Option<usize>)
    ensures
        match r {
            Some(i) => section_index(lv(lines@), name@) == Some(i as int) && i < lines@.len() && i < lines.len(),
            None => section_index(lv(lines@), name@) is None,
        },
{
    let ghost ls = lv(lines@);
    let nm = chars_of(name);
    let mut needle: Vec<char> = Vec::new();
    needle.push('[');
    let mut k: usize = 0;
    while k < nm.len()
        invariant
            k <= nm@.len(),
            needle@ == seq!['['] + nm@.take(k as int),
        decreases nm@.len() - k,
    {
        needle.push(nm[k]);
        k += 1;
        assert(nm@.take(k as int) == nm@.take(k - 1).push(nm@[k - 1]));
    }
    needle.push(']');
    assert(nm@.take(nm@.len() as int) == nm@);
    assert(needle@ == bracketed(name@));
    let mut i: usize = 0;
    while i < lines.len()
        invariant
            i <= lines@.len() == ls.len(),
            ls == lv(lines@),
            needle@ == bracketed(name@),
            forall|j: int| 0 <= j < i ==> !is_header(ls, j, name@),
        decreases lines@.len() - i,
    {
        let t = trim_chars(lines[i].as_slice());
        if eq_ignore_case_chars(t.as_slice(), needle.as_slice()) {
            assert(is_header(ls, i as int, name@));
            proof {
                let c = choose|c: int|
                    0 <= c < ls.len() && is_header(ls, c, name@) && forall|j: int|
                        0 <= j < c ==> !is_header(ls, j, name@);
                assert(c == i);
            }
            return Some(i);
        }
        i += 1;
    }
    None
}

/// `next_non_noise` from line `i`.
pub fn next_non_noise_at(lines: &Vec<Vec<char>>, i: usize) -> (r: (Option<Vec<char>>, usize))
    ensures
        ({
            let (v, j) = next_non_noise(lv(lines@), i as int);
            &&& j == r.1 as int
            &&& match r.0 {
                Some(x) => v == Some(x@),
                None => v is None,
            }
        }),
{
    let ghost ls = lv(lines@);
    let mut k = i;
    while k < lines.len()
        invariant
            i <= k,
            ls == lv(lines@),
            next_non_noise(ls, i as int) == next_non_noise(ls, k as int),
        decreases lines@.len() - k,
    {
        let v = strip_quotes_chars(lines[k].as_slice());
        if v.len() > 0 {
            return (Some(v), k + 1);
        }
        k += 1;
    }
    (None, k)
}

/// `next_keep_empty` at line `i`.
pub fn next_keep_empty_at(lines: &Vec<Vec<char>>, i: usize) -> (r: (Option<Vec<char>>, usize))
    ensures
        ({
            let (v, j) = next_keep_empty(lv(lines@), i as int);
            &&& j == r.1 as int
            &&& match r.0 {
                Some(x) => v == Some(x@),
                None => v is None,
            }
        }),
{
    if i >= lines.len() {
        (None, i)
    } else {
        (Some(strip_quotes_chars(lines[i].as_slice())), i + 1)
    }
}

/// The lines of a text, as `lines_of` gives them, in the form the readers
/// take.
pub proof fn lemma_lv_lines(lines: Seq<Vec<char>>, model: Seq<Seq<char>>)
    requires
        lines.len() == model.len(),
        forall|i: int| 0 <= i < lines.len() ==> #[trigger] lines[i]@ == model[i],
    ensures
        lv(lines) == model,
{
    assert(lv(lines) =~= model);
}

// ---------------------------------------------------------------------------
// Quoted notes that span lines
// ---------------------------------------------------------------------------

/// `s` without the line feeds at its end.
pub open spec fn trim_end_nl(s: Seq<char>) -> Seq<char>
    decreases s.len(),
{
    if s.len() > 0 && s.last() == '\n' {
        trim_end_nl(s.drop_last())
    } else {
        s
    }
}

/// The rest of a quoted text that began on an earlier line, `buf` being the
/// part read so far: each further line, its trailing white space removed,
/// joins with a line feed, up to the line that ends with `"`.
pub open spec fn quoted_rest(ls: Seq<Seq<char>>, j: int, buf: Seq<char>) -> Result<
    (Seq<char>, int),
    LegacyError,
>
    decreases ls.len() - j,
{
    if j < 0 || j >= ls.len() {
        Err(LegacyError::Unterminated)
    } else {
        let l = trim_end(ls[j]);
        if l.len() > 0 && l.last() == '"' {
            Ok((trim_end_nl(buf.push('\n') + l.drop_last()), j + 1))
        } else {
            quoted_rest(ls, j + 1, buf.push('\n') + l)
        }
    }
}

/// The next quoted text at or after line `i`, and the line after it. Lines
/// that are blank or do not start with `"` are skipped. A line `"..."` is a
/// text of its own; a line that starts with `"` but does not close it opens
/// a text that `quoted_rest` completes.
pub open spec fn quoted_block(ls: Seq<Seq<char>>, i: int) -> Result<(Seq<char>, int), LegacyError>
    decreases ls.len() - i,
{
    if i < 0 || i >= ls.len() {
        Err(LegacyError::UnexpectedEof)
    } else {
        let l0 = trim(ls[i]);
        if l0.len() == 0 || l0[0] != '"' {
            quoted_block(ls, i + 1)
        } else if l0.len() >= 2 && l0.last() == '"' {
            Ok((l0.subrange(1, l0.len() - 1), i + 1))
        } else {
            quoted_rest(ls, i + 1, l0.drop_first())
        }
    }
}

/// `trim_end` on characters.
fn trim_end_chars(s: &[char]) -> (r: Vec<char>)
    ensures
        r@ == trim_end(s@),
{
    let mut hi = s.len();
    assert(s@.subrange(0, hi as int) == s@);
    while hi > 0 && crate::text::is_ws_exec(s[hi - 1])
        invariant
            hi <= s@.len(),
            trim_end(s@) == trim_end(s@.subrange(0, hi as int)),
        decreases hi,
    {
        assert(s@.subrange(0, hi as int).drop_last() == s@.subrange(0, hi - 1));
        hi -= 1;
    }
    slice_range(s, 0, hi)
}

/// `trim_end_nl` on characters.
fn trim_end_nl_chars(s: &[char]) -> (r: Vec<char>)
    ensures
        r@ == trim_end_nl(s@),
{
    let mut hi = s.len();
    assert(s@.subrange(0, hi as int) == s@);
    while hi > 0 && s[hi - 1] == '\n'
        invariant
            hi <= s@.len(),
            trim_end_nl(s@) == trim_end_nl(s@.subrange(0, hi as int)),
        decreases hi,
    {
        assert(s@.subrange(0, hi as int).drop_last() == s@.subrange(0, hi - 1));
        hi -= 1;
    }
    slice_range(s, 0, hi)
}

/// Appends `s[lo..hi]` to `out`.
fn push_range(out: &mut Vec<char>, s: &[char], lo: usize, hi: usize)
    requires
        lo <= hi <= s@.len(),
    ensures
        final(out)@ == old(out)@ + s@.subrange(lo as int, hi as int),
{
    let ghost start = out@;
    let mut k = lo;
    while k < hi
        invariant
            lo <= k <= hi <= s@.len(),
            out@ == start + s@.subrange(lo as int, k as int),
        decreases hi - k,
    {
        out.push(s[k]);
        k += 1;
        assert(s@.subrange(lo as int, k as int) == s@.subrange(lo as int, k - 1).push(
            s@[k - 1],
        ));
    }
}

/// `read_quoted_block`: the next quoted text at or after line `i`.
pub fn read_quoted_block(lines: &Vec<Vec<char>>, i: usize) -> (r: Result<
    (Vec<char>, usize),
    LegacyError,
>)
    ensures
        match r {
            Ok((v, j)) => quoted_block(lv(lines@), i as int) == Ok::<(Seq<char>, int), LegacyError>((v@, j as int)),
            Err(e) => quoted_block(lv(lines@), i as int) == Err::<(Seq<char>, int), LegacyError>(e),
        },
{
    let ghost ls = lv(lines@);
    let mut k = i;
    while k < lines.len()
        invariant
            i <= k,
            ls == lv(lines@),
            quoted_block(ls, i as int) == quoted_block(ls, k as int),
        decreases lines@.len() - k,
    {
        let l0 = trim_chars(lines[k].as_slice());
        let n0 = l0.len();
        if n0 == 0 || l0[0] != '"' {
            k += 1;
            continue;
        }
        if n0 >= 2 && l0[n0 - 1] == '"' {
            return Ok((slice_range(l0.as_slice(), 1, n0 - 1), k + 1));
        }
        let mut buf = slice_range(l0.as_slice(), 1, n0);
        assert(buf@ == l0@.drop_first());
        let mut j = k + 1;
        while j < lines.len()
            invariant
                ls == lv(lines@),
                quoted_block(ls, i as int) == quoted_rest(ls, j as int, buf@),
            decreases lines@.len() - j,
        {
            let l = trim_end_chars(lines[j].as_slice());
            let m = l.len();
            buf.push('\n');
            if m > 0 && l[m - 1] == '"' {
                push_range(&mut buf, l.as_slice(), 0, m - 1);
                assert(l@.subrange(0, m - 1) == l@.drop_last());
                return Ok((trim_end_nl_chars(buf.as_slice()), j + 1));
            }
            push_range(&mut buf, l.as_slice(), 0, m);
            assert(l@.subrange(0, m as int) == l@);
            j += 1;
        }
        return Err(LegacyError::Unterminated);
    }
    Err(LegacyError::UnexpectedEof)
}

} // verus!
