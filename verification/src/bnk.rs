//! Comment banks (`.BNK`): one comment per line as three quoted fields,
//! type code, level code and text, and one line that records the bank's
//! fit profile.
use vstd::prelude::*;
use crate::csv::{
    csv_fields, csv_fields_chars, lemma_escape_chars, lemma_record_of_three, quote_chars, quoted,
};
use crate::legacy::read_lines;
use crate::lines::lv;
use crate::text::{
    chars_eq_str, chars_of, first_index, is_ascii_alnum, is_ws, join_lines, lemma_text_lines_join,
    lemma_trim_idempotent, slice_range, string_of_seq, text_lines, trim, trim_chars, trim_start,
    upper, upper_chars,
};

verus! {

/// One comment of a bank.
pub struct ParsedBnkEntry {
    pub sort_order: usize,
    pub type_code: String,
    pub level_code: String,
    pub text: String,
}

/// A comment bank: its fit profile, if it records one, and its comments.
pub struct ParsedBnkFile {
    pub fit_profile: Option<String>,
    pub entries: Vec<ParsedBnkEntry>,
}

pub struct BnkEntryModel {
    pub sort_order: nat,
    pub type_code: Seq<char>,
    pub level_code: Seq<char>,
    pub text: Seq<char>,
}

pub struct BnkModel {
    pub fit_profile: Option<Seq<char>>,
    pub entries: Seq<BnkEntryModel>,
}

impl View for ParsedBnkEntry {
    type V = BnkEntryModel;

    open spec fn view(&self) -> BnkEntryModel {
        BnkEntryModel {
            sort_order: self.sort_order as nat,
            type_code: self.type_code@,
            level_code: self.level_code@,
            text: self.text@,
        }
    }
}

impl View for ParsedBnkFile {
    type V = BnkModel;

    open spec fn view(&self) -> BnkModel {
        BnkModel {
            fit_profile: match self.fit_profile {
                Some(s) => Some(s@),
                None => None,
            },
            entries: self.entries@.map_values(|e: ParsedBnkEntry| e@),
        }
    }
}

/// The ASCII letters and digits of `s`, upper-cased.
pub open spec fn fit_token(s: Seq<char>) -> Seq<char> {
    upper(s.filter(|c: char| is_ascii_alnum(c)))
}

/// Whether a line's type and level codes mark it as the fit-profile line:
/// both read `FIT` once all but letters and digits are dropped.
pub open spec fn is_fit_sentinel(type_code: Seq<char>, level_code: Seq<char>) -> bool {
    fit_token(type_code) == seq!['F', 'I', 'T'] && fit_token(level_code) == seq!['F', 'I', 'T']
}

/// The fit profile a sentinel's text records: the trimmed text after its
/// first `:` (or all of it, trimmed, where it has none); nothing where that
/// is blank.
pub open spec fn fit_profile_of(s: Seq<char>) -> Option<Seq<char>> {
    let t = trim(s);
    let out = match first_index(t, ':') {
        Some(p) => trim(t.skip(p + 1)),
        None => t,
    };
    if out.len() == 0 {
        None
    } else {
        Some(out)
    }
}

/// One line of a bank. Blank lines and lines of fewer than three fields are
/// skipped; a sentinel line sets the fit profile; any other line is the
/// next comment.
pub open spec fn bnk_step(st: BnkModel, raw: Seq<char>) -> BnkModel {
    let line = trim(raw);
    let fields = csv_fields(line);
    if line.len() == 0 || fields.len() < 3 {
        st
    } else if is_fit_sentinel(trim(fields[0]), trim(fields[1])) {
        BnkModel { fit_profile: fit_profile_of(fields[2]), ..st }
    } else {
        BnkModel {
            entries: st.entries.push(
                BnkEntryModel {
                    sort_order: st.entries.len(),
                    type_code: trim(fields[0]),
                    level_code: trim(fields[1]),
                    text: fields[2],
                },
            ),
            ..st
        }
    }
}

/// The bank read from its first `k` lines.
pub open spec fn bnk_fold(ls: Seq<Seq<char>>, k: nat) -> BnkModel
    decreases k,
{
    if k == 0 || k > ls.len() {
        BnkModel { fit_profile: None, entries: Seq::empty() }
    } else {
        bnk_step(bnk_fold(ls, (k - 1) as nat), ls[k - 1])
    }
}

/// A comment bank read from its text.
pub open spec fn bnk_spec(text: Seq<char>) -> BnkModel {
    let ls = text_lines(text);
    bnk_fold(ls, ls.len())
}

/// `fit_token` on characters.
fn fit_token_chars(s: &[char]) -> (r: Vec<char>)
    ensures
        r@ == fit_token(s@),
{
    let mut kept: Vec<char> = Vec::new();
    let mut k: usize = 0;
    while k < s.len()
        invariant
            k <= s@.len(),
            kept@ == s@.take(k as int).filter(|c: char| is_ascii_alnum(c)),
        decreases s@.len() - k,
    {
        let c = s[k];
        proof {
            assert(s@.take(k + 1).drop_last() == s@.take(k as int));
            reveal_with_fuel(Seq::filter, 1);
        }
        if ('0' <= c && c <= '9') || ('A' <= c && c <= 'Z') || ('a' <= c && c <= 'z') {
            kept.push(c);
        }
        k += 1;
    }
    assert(s@.take(s@.len() as int) == s@);
    upper_chars(kept.as_slice())
}

/// `is_fit_sentinel` on characters.
fn fit_sentinel(type_code: &[char], level_code: &[char]) -> (r: bool)
    ensures
        r == is_fit_sentinel(type_code@, level_code@),
{
    proof {
        reveal_strlit("FIT");
        assert("FIT"@ == seq!['F', 'I', 'T']);
    }
    let a = fit_token_chars(type_code);
    let b = fit_token_chars(level_code);
    chars_eq_str(a.as_slice(), "FIT") && chars_eq_str(b.as_slice(), "FIT")
}

/// `fit_profile_of` on characters.
fn extract_fit_profile(s: &[char]) -> (r: Option<String>)
    ensures
        match r {
            Some(v) => fit_profile_of(s@) == Some(v@),
            None => fit_profile_of(s@) is None,
        },
{
    let t = trim_chars(s);
    let mut p: usize = 0;
    while p < t.len() && t[p] != ':'
        invariant
            p <= t@.len(),
            forall|k: int| 0 <= k < p ==> t@[k] != ':',
        decreases t@.len() - p,
    {
        p += 1;
    }
    let out = if p < t.len() {
        proof {
            assert(t@[p as int] == ':');
            let q = choose|i: int|
                0 <= i < t@.len() && t@[i] == ':' && forall|j: int| 0 <= j < i ==> t@[j] != ':';
            if q > p {
                assert(t@[p as int] != ':');
            }
            assert(first_index(t@, ':') == Some(p as int));
        }
        let rest = slice_range(t.as_slice(), p + 1, t.len());
        assert(rest@ == t@.skip(p + 1));
        trim_chars(rest.as_slice())
    } else {
        proof {
            if exists|i: int| 0 <= i < t@.len() && t@[i] == ':' {
                let q = choose|i: int| 0 <= i < t@.len() && t@[i] == ':';
                assert(t@[q] == ':');
            }
        }
        t
    };
    if out.len() == 0 {
        None
    } else {
        Some(string_of_seq(&out))
    }
}

/// The comments of a bank file, and its fit profile.
pub fn parse_bnk_text(text: &str) -> (r: ParsedBnkFile)
    ensures
        r@ == bnk_spec(text@),
{
    let lines = read_lines(text);
    let ghost ls = lv(lines@);
    let mut fit_profile: Option<String> = None;
    let mut entries: Vec<ParsedBnkEntry> = Vec::new();
    let mut k: usize = 0;
    assert(entries@.map_values(|e: ParsedBnkEntry| e@) =~= Seq::<BnkEntryModel>::empty());
    while k < lines.len()
        invariant
            ls == lv(lines@),
            ls == text_lines(text@),
            k <= lines@.len(),
            bnk_fold(ls, k as nat) == (ParsedBnkFile { fit_profile, entries })@,
        decreases lines@.len() - k,
    {
        let line = trim_chars(lines[k].as_slice());
        let fields = csv_fields_chars(line.as_slice());
        k += 1;
        if line.len() == 0 || fields.len() < 3 {
            continue;
        }
        let type_code = trim_chars(fields[0].as_slice());
        let level_code = trim_chars(fields[1].as_slice());
        if fit_sentinel(type_code.as_slice(), level_code.as_slice()) {
            fit_profile = extract_fit_profile(fields[2].as_slice());
            continue;
        }
        let ghost before = entries@.map_values(|e: ParsedBnkEntry| e@);
        let e = ParsedBnkEntry {
            sort_order: entries.len(),
            type_code: string_of_seq(&type_code),
            level_code: string_of_seq(&level_code),
            text: string_of_seq(&fields[2]),
        };
        let ghost ev = e@;
        entries.push(e);
        assert(entries@.map_values(|e: ParsedBnkEntry| e@) == before.push(ev));
    }
    ParsedBnkFile { fit_profile, entries }
}

// ---------------------------------------------------------------------------
// Writing a bank
// ---------------------------------------------------------------------------

/// The line a comment is written as, without its line feed.
pub open spec fn bnk_entry_line(e: BnkEntryModel) -> Seq<char> {
    quoted(e.type_code) + seq![','] + quoted(e.level_code) + seq![','] + quoted(e.text)
}

/// The text the sentinel line carries for a fit profile.
pub open spec fn fit_sentinel_text(fit: Seq<char>) -> Seq<char> {
    "Please DO NOT EDIT or DELETE this line: "@ + fit
}

/// The sentinel line for a fit profile, without its line feed.
pub open spec fn fit_line(fit: Seq<char>) -> Seq<char> {
    quoted("FIT"@) + seq![','] + quoted("FIT"@) + seq![','] + quoted(fit_sentinel_text(fit))
}

/// The lines of the comments, each followed by a line feed.
pub open spec fn bnk_entries_text(es: Seq<BnkEntryModel>) -> Seq<char>
    decreases es.len(),
{
    if es.len() == 0 {
        Seq::empty()
    } else {
        bnk_entries_text(es.drop_last()) + bnk_entry_line(es.last()) + seq!['\n']
    }
}

/// A bank as `serialize_bnk_file` writes it: the comments in order, then
/// the sentinel line where it has a fit profile.
pub open spec fn bnk_text(f: BnkModel) -> Seq<char> {
    bnk_entries_text(f.entries) + match f.fit_profile {
        Some(fit) => fit_line(fit) + seq!['\n'],
        None => Seq::empty(),
    }
}

/// Appends the characters of `v` to `out`.
fn push_all(out: &mut Vec<char>, v: &[char])
    ensures
        final(out)@ == old(out)@ + v@,
{
    let ghost start = out@;
    let mut k: usize = 0;
    while k < v.len()
        invariant
            k <= v@.len(),
            out@ == start + v@.take(k as int),
        decreases v@.len() - k,
    {
        out.push(v[k]);
        k += 1;
        assert(v@.take(k as int) == v@.take(k - 1).push(v@[k - 1]));
    }
    assert(v@.take(v@.len() as int) == v@);
}

/// Appends `a,b,c` with each field quoted, and a line feed.
fn push_record(out: &mut Vec<char>, a: &[char], b: &[char], c: &[char])
    ensures
        final(out)@ == old(out)@ + (quoted(a@) + seq![','] + quoted(b@) + seq![','] + quoted(c@))
            + seq!['\n'],
{
    let qa = quote_chars(a);
    let qb = quote_chars(b);
    let qc = quote_chars(c);
    push_all(out, qa.as_slice());
    out.push(',');
    push_all(out, qb.as_slice());
    out.push(',');
    push_all(out, qc.as_slice());
    out.push('\n');
    assert(out@ == old(out)@ + (quoted(a@) + seq![','] + quoted(b@) + seq![','] + quoted(c@))
        + seq!['\n']);
}

/// The text of a comment bank, as the legacy program writes it.
pub fn serialize_bnk_file(parsed: &ParsedBnkFile) -> (r: String)
    ensures
        r@ == bnk_text(parsed@),
{
    let mut out: Vec<char> = Vec::new();
    let mut k: usize = 0;
    while k < parsed.entries.len()
        invariant
            k <= parsed.entries@.len(),
            out@ == bnk_entries_text(parsed@.entries.take(k as int)),
        decreases parsed.entries@.len() - k,
    {
        let e = &parsed.entries[k];
        let ta = chars_of(e.type_code.as_str());
        let tb = chars_of(e.level_code.as_str());
        let tc = chars_of(e.text.as_str());
        push_record(&mut out, ta.as_slice(), tb.as_slice(), tc.as_slice());
        k += 1;
        assert(parsed@.entries.take(k as int).drop_last() == parsed@.entries.take(k - 1));
    }
    assert(parsed@.entries.take(parsed@.entries.len() as int) == parsed@.entries);
    match &parsed.fit_profile {
        Some(fit) => {
            let mut body = chars_of("Please DO NOT EDIT or DELETE this line: ");
            let fv = chars_of(fit.as_str());
            push_all(&mut body, fv.as_slice());
            let tag = chars_of("FIT");
            push_record(&mut out, tag.as_slice(), tag.as_slice(), body.as_slice());
        },
        None => {},
    }
    string_of_seq(&out)
}


// ---------------------------------------------------------------------------
// What is read back of what was written
// ---------------------------------------------------------------------------

/// Whether `s` holds no line feed.
pub open spec fn no_line_feed(s: Seq<char>) -> bool {
    forall|i: int| 0 <= i < s.len() ==> s[i] != '\n'
}

/// A bank that the text format can carry: no field holds a line feed, and
/// no comment has the codes of the fit-profile line.
pub open spec fn bnk_writable(f: BnkModel) -> bool {
    &&& forall|i: int|
        #![trigger f.entries[i]]
        0 <= i < f.entries.len() ==> {
            &&& no_line_feed(f.entries[i].type_code)
            &&& no_line_feed(f.entries[i].level_code)
            &&& no_line_feed(f.entries[i].text)
            &&& !is_fit_sentinel(trim(f.entries[i].type_code), trim(f.entries[i].level_code))
        }
    &&& match f.fit_profile {
        Some(x) => no_line_feed(x),
        None => true,
    }
}

/// A comment as it is read back: numbered by its place, each field trimmed.
pub open spec fn entry_as_read(e: BnkEntryModel, i: int) -> BnkEntryModel {
    BnkEntryModel {
        sort_order: i as nat,
        type_code: trim(e.type_code),
        level_code: trim(e.level_code),
        text: trim(e.text),
    }
}

/// The lines of a written bank.
pub open spec fn bnk_lines(f: BnkModel) -> Seq<Seq<char>> {
    f.entries.map_values(|e: BnkEntryModel| bnk_entry_line(e)) + match f.fit_profile {
        Some(x) => seq![fit_line(x)],
        None => Seq::empty(),
    }
}

proof fn lemma_entries_text(es: Seq<BnkEntryModel>)
    ensures
        bnk_entries_text(es) == join_lines(es.map_values(|e: BnkEntryModel| bnk_entry_line(e))),
    decreases es.len(),
{
    if es.len() > 0 {
        lemma_entries_text(es.drop_last());
        assert(es.map_values(|e: BnkEntryModel| bnk_entry_line(e)).drop_last() == es.drop_last().map_values(
            |e: BnkEntryModel| bnk_entry_line(e),
        ));
    }
}

proof fn lemma_bnk_text_lines(f: BnkModel)
    ensures
        bnk_text(f) == join_lines(bnk_lines(f)),
{
    lemma_entries_text(f.entries);
    let ls = f.entries.map_values(|e: BnkEntryModel| bnk_entry_line(e));
    match f.fit_profile {
        Some(x) => {
            assert((ls + seq![fit_line(x)]).drop_last() == ls);
            assert(bnk_lines(f) == ls + seq![fit_line(x)]);
        },
        None => {
            assert(ls + Seq::<Seq<char>>::empty() == ls);
            assert(join_lines(ls) + Seq::<char>::empty() == join_lines(ls));
        },
    }
}

/// A written line of three quoted fields has no line feed where the fields
/// have none, and ends with `"`.
proof fn lemma_record_line(a: Seq<char>, b: Seq<char>, c: Seq<char>)
    requires
        no_line_feed(a),
        no_line_feed(b),
        no_line_feed(c),
    ensures
        ({
            let l = quoted(a) + seq![','] + quoted(b) + seq![','] + quoted(c);
            &&& no_line_feed(l)
            &&& l.len() > 0
            &&& l[0] == '"'
            &&& l.last() == '"'
            &&& trim(l) == l
            &&& csv_fields(l) == seq![trim(a), trim(b), trim(c)]
        }),
{
    lemma_escape_chars(a, '\n');
    lemma_escape_chars(b, '\n');
    lemma_escape_chars(c, '\n');
    let l = quoted(a) + seq![','] + quoted(b) + seq![','] + quoted(c);
    assert(no_line_feed(l));
    lemma_trim_unchanged(l);
    lemma_record_of_three(a, b, c);
    assert(csv_fields(l) =~= seq![trim(a), trim(b), trim(c)]);
}

/// A text that starts and ends with no white space is its own trim.
proof fn lemma_trim_unchanged(s: Seq<char>)
    requires
        s.len() > 0,
        !is_ws(s[0]),
        !is_ws(s.last()),
    ensures
        trim(s) == s,
{
    assert(trim_start(s) == s);
}

proof fn lemma_sentinel_text_lines(x: Seq<char>)
    requires
        no_line_feed(x),
    ensures
        no_line_feed(fit_sentinel_text(x)),
{
    let p = "Please DO NOT EDIT or DELETE this line: "@;
    assert(no_line_feed(p)) by {
        reveal_strlit("Please DO NOT EDIT or DELETE this line: ");
    }
    assert forall|i: int| 0 <= i < fit_sentinel_text(x).len() implies fit_sentinel_text(x)[i]
        != '\n' by {
        if i < p.len() {
            assert(fit_sentinel_text(x)[i] == p[i]);
        } else {
            assert(fit_sentinel_text(x)[i] == x[i - p.len()]);
        }
    }
}

proof fn lemma_fit_tag()
    ensures
        trim("FIT"@) == "FIT"@,
        fit_token("FIT"@) == "FIT"@,
        "FIT"@ == seq!['F', 'I', 'T'],
{
    reveal_strlit("FIT");
    let f = seq!['F', 'I', 'T'];
    assert("FIT"@ == f);
    lemma_trim_unchanged(f);
    reveal_with_fuel(Seq::filter, 4);
    assert(f.drop_last() == seq!['F', 'I']);
    assert(f.drop_last().drop_last() == seq!['F']);
    assert(f.drop_last().drop_last().drop_last() == Seq::<char>::empty());
    assert(f.filter(|c: char| is_ascii_alnum(c)) == f);
    assert(upper(f) =~= f);
}

/// A bank written by `serialize_bnk_file` reads back, by `parse_bnk_text`,
/// as the same comments in the same order, each numbered by its place and
/// with its fields trimmed, and as the fit profile that the sentinel's text
/// records, where no field holds a line feed and no comment carries the
/// sentinel's codes.
pub proof fn law_bnk_read_back(f: BnkModel)
    requires
        bnk_writable(f),
    ensures
        bnk_spec(bnk_text(f)) == (BnkModel {
            fit_profile: match f.fit_profile {
                Some(x) => fit_profile_of(fit_sentinel_text(x)),
                None => None,
            },
            entries: Seq::new(f.entries.len(), |i: int| entry_as_read(f.entries[i], i)),
        }),
{
    let ls = bnk_lines(f);
    let n = f.entries.len();
    let entry_lines = f.entries.map_values(|e: BnkEntryModel| bnk_entry_line(e));
    lemma_fit_tag();
    assert forall|i: int| 0 <= i < n implies {
        let l = #[trigger] entry_lines[i];
        &&& no_line_feed(l)
        &&& l.len() > 0
        &&& l.last() == '"'
    } by {
        let e = f.entries[i];
        lemma_record_line(e.type_code, e.level_code, e.text);
    }
    if let Some(x) = f.fit_profile {
        assert(no_line_feed("FIT"@));
        lemma_sentinel_text_lines(x);
        lemma_record_line("FIT"@, "FIT"@, fit_sentinel_text(x));
    }
    assert forall|i: int, k: int| 0 <= i < ls.len() && 0 <= k < ls[i].len() implies ls[i][k]
        != '\n' by {
        if i < n {
            assert(ls[i] == entry_lines[i]);
        }
    }
    assert forall|i: int| 0 <= i < ls.len() && ls[i].len() > 0 implies ls[i].last() != '\r' by {
        if i < n {
            assert(ls[i] == entry_lines[i]);
        }
    }
    lemma_bnk_text_lines(f);
    lemma_text_lines_join(ls);
    let expected = Seq::new(n, |i: int| entry_as_read(f.entries[i], i));
    // After the comment lines, the bank holds the comments, numbered.
    assert forall|k: nat| k <= n implies #[trigger] bnk_fold(ls, k) == (BnkModel {
        fit_profile: None,
        entries: expected.take(k as int),
    }) by {
        lemma_bnk_fold_entries(f, ls, entry_lines, expected, k);
    }
    match f.fit_profile {
        None => {
            assert(ls.len() == n);
            assert(expected.take(n as int) == expected);
        },
        Some(x) => {
            assert(ls.len() == n + 1);
            assert(ls[n as int] == fit_line(x));
            lemma_sentinel_text_lines(x);
            lemma_record_line("FIT"@, "FIT"@, fit_sentinel_text(x));
            lemma_trim_idempotent(fit_sentinel_text(x));
            assert(fit_profile_of(trim(fit_sentinel_text(x))) == fit_profile_of(fit_sentinel_text(x)));
            assert(expected.take(n as int) == expected);
            assert(bnk_fold(ls, n + 1) == bnk_step(bnk_fold(ls, n), ls[n as int]));
        },
    }
}

proof fn lemma_bnk_fold_entries(
    f: BnkModel,
    ls: Seq<Seq<char>>,
    entry_lines: Seq<Seq<char>>,
    expected: Seq<BnkEntryModel>,
    k: nat,
)
    requires
        bnk_writable(f),
        ls == bnk_lines(f),
        entry_lines == f.entries.map_values(|e: BnkEntryModel| bnk_entry_line(e)),
        expected == Seq::new(f.entries.len(), |i: int| entry_as_read(f.entries[i], i)),
        k <= f.entries.len(),
    ensures
        bnk_fold(ls, k) == (BnkModel { fit_profile: None, entries: expected.take(k as int) }),
    decreases k,
{
    if k == 0 {
        assert(expected.take(0) == Seq::<BnkEntryModel>::empty());
    } else {
        lemma_bnk_fold_entries(f, ls, entry_lines, expected, (k - 1) as nat);
        let i = k - 1;
        let e = f.entries[i];
        assert(ls[i] == entry_lines[i]);
        assert(entry_lines[i] == bnk_entry_line(e));
        lemma_record_line(e.type_code, e.level_code, e.text);
        lemma_trim_idempotent(e.type_code);
        lemma_trim_idempotent(e.level_code);
        assert(expected.take(k as int) == expected.take(i).push(expected[i]));
    }
}

} // verus!
