//! The rules of the student-information-system exchange and of the transfer
//! packages between workspaces: reading their comma-separated files,
//! matching their students to a class, and merging comment texts.
use vstd::prelude::*;
use crate::assoc::{
    as_map, keys_view, lemma_as_map_push, lemma_as_map_update, lemma_lookup_absent, lemma_lookup_first, position,
};
use crate::csv::{
    csv_line, csv_record, csv_record_chars, quote_if_needed_chars, quoted_if_needed, write_csv_line,
};
use crate::keys::{key_of, name_key, normalize_key, student_name_key};
use crate::num::{is_float_literal, is_float_literal_chars, parse_i64, parse_i64_chars};
use crate::text::{
    append_chars, chars_eq, chars_eq_str, chars_of, lower, lower_chars, string_of_seq, text_lines,
    trim, trim_chars,
};

verus! {

// ---------------------------------------------------------------------------
// Fields
// ---------------------------------------------------------------------------

/// The fields of a comma-separated record, untrimmed: `"` opens and closes
/// a quoted part, `""` inside one is a `"`, and a `,` outside one ends a
/// field.
pub fn parse_csv_record(line: &str) -> (r: Vec<String>)
    ensures
        r@.len() == csv_record(line@).len(),
        forall|k: int| 0 <= k < r@.len() ==> #[trigger] r@[k]@ == csv_record(line@)[k],
{
    let f = csv_record_chars(chars_of(line).as_slice());
    let mut out: Vec<String> = Vec::new();
    let mut k: usize = 0;
    while k < f.len()
        invariant
            k <= f@.len() == csv_record(line@).len(),
            forall|j: int| 0 <= j < f@.len() ==> #[trigger] f@[j]@ == csv_record(line@)[j],
            out@.len() == k,
            forall|j: int| 0 <= j < k ==> #[trigger] out@[j]@ == csv_record(line@)[j],
        decreases f@.len() - k,
    {
        out.push(string_of_seq(&f[k]));
        k += 1;
    }
    out
}

/// A field as a comma-separated file writes it: in double quotes, each `"`
/// doubled, where it holds a `,`, `"`, line feed or carriage return, and
/// as it is otherwise.
pub fn csv_quote(s: &str) -> (r: String)
    ensures
        r@ == quoted_if_needed(s@),
{
    string_of_seq(&quote_if_needed_chars(chars_of(s).as_slice()))
}

/// `s` trimmed, where that leaves something.
pub open spec fn non_empty(s: Seq<char>) -> Option<Seq<char>> {
    if trim(s).len() > 0 {
        Some(trim(s))
    } else {
        None
    }
}

pub open spec fn opt_view(o: Option<String>) -> Option<Seq<char>> {
    match o {
        Some(s) => Some(s@),
        None => None,
    }
}

/// `s` trimmed, where that leaves something.
pub fn non_empty_trimmed(s: &str) -> (r: Option<String>)
    ensures
        opt_view(r) == non_empty(s@),
{
    let t = trim_chars(chars_of(s).as_slice());
    if t.len() == 0 {
        None
    } else {
        Some(string_of_seq(&t))
    }
}

/// `non_empty_trimmed` on characters.
fn non_empty_chars(s: &Vec<char>) -> (r: Option<String>)
    ensures
        opt_view(r) == non_empty(s@),
{
    let t = trim_chars(s.as_slice());
    if t.len() == 0 {
        None
    } else {
        Some(string_of_seq(&t))
    }
}

/// A yes-or-no field: `1`, `true`, `yes`, `y` and `0`, `false`, `no`, `n`,
/// in any ASCII case and with white space around; anything else is no
/// answer.
pub open spec fn boolish(s: Seq<char>) -> Option<bool> {
    let t = lower(trim(s));
    if t == "1"@ || t == "true"@ || t == "yes"@ || t == "y"@ {
        Some(true)
    } else if t == "0"@ || t == "false"@ || t == "no"@ || t == "n"@ {
        Some(false)
    } else {
        None
    }
}

/// A yes-or-no field.
pub fn parse_boolish(s: &str) -> (r: Option<bool>)
    ensures
        r == boolish(s@),
{
    parse_boolish_chars(&chars_of(s))
}

fn parse_boolish_chars(s: &Vec<char>) -> (r: Option<bool>)
    ensures
        r == boolish(s@),
{
    let t = lower_chars(trim_chars(s.as_slice()).as_slice());
    let v = t.as_slice();
    if chars_eq_str(v, "1") || chars_eq_str(v, "true") || chars_eq_str(v, "yes") || chars_eq_str(
        v,
        "y",
    ) {
        Some(true)
    } else if chars_eq_str(v, "0") || chars_eq_str(v, "false") || chars_eq_str(v, "no")
        || chars_eq_str(v, "n") {
        Some(false)
    } else {
        None
    }
}

/// Bit `t` of `mask`.
pub open spec fn mask_bit(mask: i64, t: u32) -> bool {
    (mask >> t) & 1i64 == 1i64
}

/// Whether an assessment of type `legacy_type` (0 where absent) passes the
/// type filter `mask`: every type passes where there is no mask; else the
/// type's bit must be set, which no type below 0 or above 62 has.
pub fn matches_types_mask(mask: Option<i64>, legacy_type: Option<i64>) -> (r: bool)
    ensures
        match mask {
            None => r,
            Some(m) => {
                let t = match legacy_type {
                    Some(x) => x,
                    None => 0,
                };
                r <==> (0 <= t < 63 && mask_bit(m, t as u32))
            },
        },
{
    let m = match mask {
        Some(m) => m,
        None => return true,
    };
    let t = match legacy_type {
        Some(x) => x,
        None => 0,
    };
    if t < 0 {
        return false;
    }
    if t >= 63 {
        return false;
    }
    let shift = t as u32;
    let r = (m & (1i64 << shift)) != 0;
    assert(((m & (1i64 << shift)) != 0) == ((m >> shift) & 1i64 == 1i64)) by (bit_vector)
        requires
            shift < 63,
    ;
    r
}

// ---------------------------------------------------------------------------
// Comment texts
// ---------------------------------------------------------------------------

/// What a comment transfer writes in place of `target`, given `source`:
/// `replace` writes the source; `append` adds a non-blank source after the
/// target and the separator (or alone where the target is blank);
/// `fill_blank` writes a non-blank source only over a blank target;
/// `source_if_longer` writes the source where it has more characters.
/// Both texts are trimmed first. Nothing is written otherwise, nor for any
/// other policy.
pub open spec fn transfer_text(
    source: Seq<char>,
    target: Seq<char>,
    policy: Seq<char>,
    separator: Seq<char>,
) -> Option<Seq<char>> {
    let s = trim(source);
    let t = trim(target);
    if policy == "replace"@ {
        Some(s)
    } else if policy == "append"@ {
        if s.len() == 0 {
            None
        } else if t.len() == 0 {
            Some(s)
        } else {
            Some(t + separator + s)
        }
    } else if policy == "fill_blank"@ {
        if t.len() == 0 && s.len() > 0 {
            Some(s)
        } else {
            None
        }
    } else if policy == "source_if_longer"@ {
        if s.len() > t.len() {
            Some(s)
        } else {
            None
        }
    } else {
        None
    }
}

/// The text a comment transfer writes over `target`, if any.
pub fn transfer_text_by_policy(source: &str, target: &str, policy: &str, separator: &str) -> (r:
    Option<String>)
    ensures
        opt_view(r) == transfer_text(source@, target@, policy@, separator@),
{
    let s = trim_chars(chars_of(source).as_slice());
    let t = trim_chars(chars_of(target).as_slice());
    let p = chars_of(policy);
    if chars_eq_str(p.as_slice(), "replace") {
        Some(string_of_seq(&s))
    } else if chars_eq_str(p.as_slice(), "append") {
        if s.len() == 0 {
            None
        } else if t.len() == 0 {
            Some(string_of_seq(&s))
        } else {
            let mut out = t;
            append_chars(&mut out, chars_of(separator).as_slice());
            append_chars(&mut out, s.as_slice());
            Some(string_of_seq(&out))
        }
    } else if chars_eq_str(p.as_slice(), "fill_blank") {
        if t.len() == 0 && s.len() > 0 {
            Some(string_of_seq(&s))
        } else {
            None
        }
    } else if chars_eq_str(p.as_slice(), "source_if_longer") {
        if s.len() > t.len() {
            Some(string_of_seq(&s))
        } else {
            None
        }
    } else {
        None
    }
}

// ---------------------------------------------------------------------------
// Matching students
// ---------------------------------------------------------------------------

pub open spec fn texts(v: Seq<String>) -> Seq<Seq<char>> {
    v.map_values(|x: String| x@)
}

/// Whether id `k` of `ids` is not among `used`.
pub open spec fn free_at(ids: Seq<Seq<char>>, used: Seq<Seq<char>>, k: int) -> bool {
    0 <= k < ids.len() && !used.contains(ids[k])
}

/// The one id among `ids` that is not in `used`, and whether the choice is
/// ambiguous: that id where the free ids are all one and the same; nothing,
/// and ambiguous, where two differ; nothing, and not ambiguous, where none
/// is free.
pub open spec fn unique_free(ids: Seq<Seq<char>>, used: Seq<Seq<char>>) -> (Option<Seq<char>>, bool) {
    if exists|i: int, j: int| free_at(ids, used, i) && free_at(ids, used, j) && ids[i] != ids[j] {
        (None, true)
    } else if exists|k: int| free_at(ids, used, k) {
        (Some(ids[choose|k: int| free_at(ids, used, k)]), false)
    } else {
        (None, false)
    }
}

/// `unique_free` over an optional list of ids: no list gives nothing.
pub open spec fn unique_free_opt(ids: Option<Seq<Seq<char>>>, used: Seq<Seq<char>>) -> (
    Option<Seq<char>>,
    bool,
) {
    match ids {
        Some(v) => unique_free(v, used),
        None => (None, false),
    }
}

pub open spec fn opt_texts(ids: Option<&Vec<String>>) -> Option<Seq<Seq<char>>> {
    match ids {
        Some(v) => Some(texts(v@)),
        None => None,
    }
}

/// The one id among `ids` that is not in `used` (see `unique_free`).
pub fn pick_unique_non_used(ids: Option<&Vec<String>>, used: &Vec<String>) -> (r: (Option<String>, bool))
    ensures
        (opt_view(r.0), r.1) == unique_free_opt(opt_texts(ids), texts(used@)),
{
    let v = match ids {
        Some(v) => v,
        None => return (None, false),
    };
    let ghost tv = texts(v@);
    let ghost tu = texts(used@);
    let mut first: Option<usize> = None;
    let mut i: usize = 0;
    while i < v.len()
        invariant
            ids == Some(v),
            tv == texts(v@),
            tu == texts(used@),
            i <= v@.len(),
            match first {
                None => forall|k: int| 0 <= k < i ==> !free_at(tv, tu, k),
                Some(f) => f < i && free_at(tv, tu, f as int) && forall|k: int|
                    0 <= k < i && free_at(tv, tu, k) ==> tv[k] == tv[f as int],
            },
        decreases v@.len() - i,
    {
        if !contains_text(used, &v[i]) {
            match first {
                None => {
                    first = Some(i);
                },
                Some(f) => {
                    if !chars_eq(chars_of(v[f].as_str()).as_slice(), chars_of(v[i].as_str()).as_slice()) {
                        assert(free_at(tv, tu, f as int) && free_at(tv, tu, i as int) && tv[f as int]
                            != tv[i as int]);
                        return (None, true);
                    }
                },
            }
        }
        i += 1;
    }
    match first {
        None => (None, false),
        Some(f) => {
            assert(!exists|a: int, b: int| free_at(tv, tu, a) && free_at(tv, tu, b) && tv[a] != tv[b]);
            let x = v[f].clone();
            proof {
                let c = choose|k: int| free_at(tv, tu, k);
                assert(tv[c] == tv[f as int]);
            }
            (Some(x), false)
        },
    }
}

/// Whether `s` is among `v`.
pub fn contains_text(v: &Vec<String>, s: &String) -> (r: bool)
    ensures
        r == texts(v@).contains(s@),
{
    let c = chars_of(s.as_str());
    let mut i: usize = 0;
    while i < v.len()
        invariant
            i <= v@.len(),
            c@ == s@,
            forall|k: int| 0 <= k < i ==> v@[k]@ != s@,
        decreases v@.len() - i,
    {
        if chars_eq(chars_of(v[i].as_str()).as_slice(), c.as_slice()) {
            assert(texts(v@)[i as int] == s@);
            return true;
        }
        i += 1;
    }
    assert(!texts(v@).contains(s@)) by {
        if texts(v@).contains(s@) {
            let k = choose|k: int| 0 <= k < texts(v@).len() && texts(v@)[k] == s@;
            assert(v@[k]@ == s@);
        }
    }
    false
}

/// Student ids grouped by a key (a normalized student number or name), in
/// the order they were added.
pub struct IdIndex {
    entries: Vec<(String, Vec<String>)>,
}

pub open spec fn entry_views(es: Seq<(String, Vec<String>)>) -> Seq<(Seq<char>, Seq<Seq<char>>)> {
    es.map_values(|e: (String, Vec<String>)| (e.0@, texts(e.1@)))
}

proof fn lemma_entry_keys(es: Seq<(String, Vec<String>)>)
    ensures
        entry_views(es).len() == es.len(),
        forall|j: int| 0 <= j < es.len() ==> #[trigger] entry_views(es)[j].0 == keys_view(es)[j],
{
}

impl View for IdIndex {
    type V = Map<Seq<char>, Seq<Seq<char>>>;

    closed spec fn view(&self) -> Map<Seq<char>, Seq<Seq<char>>> {
        as_map(entry_views(self.entries@))
    }
}

impl IdIndex {
    /// An index with no key.
    pub fn new() -> (r: IdIndex)
        ensures
            r@ == Map::<Seq<char>, Seq<Seq<char>>>::empty(),
    {
        let r = IdIndex { entries: Vec::new() };
        assert(r@ =~= Map::<Seq<char>, Seq<Seq<char>>>::empty());
        r
    }

    /// The ids under `key`.
    pub fn get(&self, key: &str) -> (r: Option<&Vec<String>>)
        ensures
            match r {
                Some(v) => self@.dom().contains(key@) && self@[key@] == texts(v@),
                None => !self@.dom().contains(key@),
            },
    {
        let k = chars_of(key);
        proof {
            lemma_entry_keys(self.entries@);
        }
        match position(&self.entries, k.as_slice()) {
            Some(i) => {
                proof {
                    lemma_lookup_first(entry_views(self.entries@), i as int, key@);
                }
                Some(&self.entries[i].1)
            },
            None => {
                proof {
                    lemma_lookup_absent(entry_views(self.entries@), key@);
                }
                None
            },
        }
    }

    /// Adds `id` under `key`, after the ids already there.
    pub fn push(&mut self, key: &str, id: String)
        ensures
            final(self)@ == old(self)@.insert(
                key@,
                if old(self)@.dom().contains(key@) {
                    old(self)@[key@].push(id@)
                } else {
                    seq![id@]
                },
            ),
    {
        let k = chars_of(key);
        let ghost es = entry_views(self.entries@);
        proof {
            lemma_entry_keys(self.entries@);
        }
        match position(&self.entries, k.as_slice()) {
            Some(i) => {
                proof {
                    lemma_lookup_first(es, i as int, key@);
                }
                let mut ids = self.entries[i].1.clone();
                let ghost before = texts(ids@);
                ids.push(id);
                assert(texts(ids@) == before.push(id@));
                let name = self.entries[i].0.clone();
                self.entries.set(i, (name, ids));
                proof {
                    assert(entry_views(self.entries@) == es.update(i as int, (es[i as int].0, texts(ids@))));
                    lemma_as_map_update(es, i as int, texts(ids@));
                }
            },
            None => {
                proof {
                    lemma_lookup_absent(es, key@);
                }
                let mut ids: Vec<String> = Vec::new();
                ids.push(id);
                let ghost iv = texts(ids@);
                assert(iv == seq![id@]);
                self.entries.push((string_of_seq(&k), ids));
                proof {
                    assert(entry_views(self.entries@) == es.push((key@, iv)));
                    lemma_as_map_push(es, (key@, iv));
                }
            },
        }
    }
}

/// A row of a roster file from a student information system: its line
/// (counted from 1), the student's number, names, birth date, and whether
/// the student is active, where the file says.
pub struct SisRosterRow {
    pub line_no: usize,
    pub student_no: Option<String>,
    pub last_name: String,
    pub first_name: String,
    pub birth_date: Option<String>,
    pub active: Option<bool>,
}

/// A roster line that was passed over because a name is missing.
pub struct RosterWarning {
    pub line: usize,
}

pub struct RosterRowModel {
    pub line_no: nat,
    pub student_no: Option<Seq<char>>,
    pub last_name: Seq<char>,
    pub first_name: Seq<char>,
    pub birth_date: Option<Seq<char>>,
    pub active: Option<bool>,
}

impl View for SisRosterRow {
    type V = RosterRowModel;

    open spec fn view(&self) -> RosterRowModel {
        RosterRowModel {
            line_no: self.line_no as nat,
            student_no: opt_view(self.student_no),
            last_name: self.last_name@,
            first_name: self.first_name@,
            birth_date: opt_view(self.birth_date),
            active: self.active,
        }
    }
}

/// The students of the class that a roster row matches, and whether the
/// match is ambiguous. In mode `sort_order` the row is the class's student
/// at the same place (by `row_index`). In mode `student_no_then_name` a row
/// with a student number first looks for the one free student with that
/// number (as a key); where that finds one, or finds several, that is the
/// answer. Otherwise the one free student with the row's name key.
pub open spec fn student_match(
    row: RosterRowModel,
    mode: Seq<char>,
    row_index: int,
    by_student_no: Map<Seq<char>, Seq<Seq<char>>>,
    by_name: Map<Seq<char>, Seq<Seq<char>>>,
    by_sort: Seq<Seq<char>>,
    used: Seq<Seq<char>>,
) -> (Option<Seq<char>>, bool) {
    let by_name_pick = unique_free_opt(
        by_name.get(name_key(row.last_name, row.first_name)),
        used,
    );
    if mode == "sort_order"@ {
        (
            if 0 <= row_index < by_sort.len() {
                Some(by_sort[row_index])
            } else {
                None
            },
            false,
        )
    } else if mode == "student_no_then_name"@ && row.student_no is Some {
        let p = unique_free_opt(by_student_no.get(key_of(row.student_no->0)), used);
        if p.0 is Some || p.1 {
            p
        } else {
            by_name_pick
        }
    } else {
        by_name_pick
    }
}

/// The student that a roster row matches (see `student_match`).
pub fn find_student_match(
    row: &SisRosterRow,
    mode: &str,
    row_index: usize,
    by_student_no: &IdIndex,
    by_name: &IdIndex,
    by_sort: &Vec<String>,
    used: &Vec<String>,
) -> (r: (Option<String>, bool))
    ensures
        (opt_view(r.0), r.1) == student_match(
            row@,
            mode@,
            row_index as int,
            by_student_no@,
            by_name@,
            texts(by_sort@),
            texts(used@),
        ),
{
    let m = chars_of(mode);
    if chars_eq_str(m.as_slice(), "sort_order") {
        if row_index < by_sort.len() {
            return (Some(by_sort[row_index].clone()), false);
        }
        return (None, false);
    }
    if chars_eq_str(m.as_slice(), "student_no_then_name") {
        match &row.student_no {
            Some(sn) => {
                let k = normalize_key(sn.as_str());
                let hit = by_student_no.get(k.as_str());
                let (id, ambiguous) = pick_unique_non_used(hit, used);
                if id.is_some() || ambiguous {
                    return (id, ambiguous);
                }
            },
            None => {},
        }
    }
    let key = student_name_key(row.last_name.as_str(), row.first_name.as_str());
    let hit = by_name.get(key.as_str());
    pick_unique_non_used(hit, used)
}

/// What a roster import does with a row.
#[derive(Debug, PartialEq, Eq)]
pub enum SisAction {
    /// It updates the class's student with this id.
    Update(String),
    /// It adds a new student.
    Create,
    /// It is skipped: more than one student could be it.
    Ambiguous,
}

pub enum SisActionModel {
    Update(Seq<char>),
    Create,
    Ambiguous,
}

impl View for SisAction {
    type V = SisActionModel;

    open spec fn view(&self) -> SisActionModel {
        match self {
            SisAction::Update(id) => SisActionModel::Update(id@),
            SisAction::Create => SisActionModel::Create,
            SisAction::Ambiguous => SisActionModel::Ambiguous,
        }
    }
}

/// The actions of a roster import for its rows in order, and the ids of
/// the students they update: each row is matched (see `student_match`)
/// against the students not updated yet.
pub open spec fn sis_actions(
    rows: Seq<RosterRowModel>,
    mode: Seq<char>,
    by_student_no: Map<Seq<char>, Seq<Seq<char>>>,
    by_name: Map<Seq<char>, Seq<Seq<char>>>,
    by_sort: Seq<Seq<char>>,
) -> (Seq<SisActionModel>, Seq<Seq<char>>)
    decreases rows.len(),
{
    if rows.len() == 0 {
        (Seq::empty(), Seq::empty())
    } else {
        let (acts, used) = sis_actions(rows.drop_last(), mode, by_student_no, by_name, by_sort);
        let (m, amb) = student_match(rows.last(), mode, rows.len() - 1, by_student_no, by_name, by_sort, used);
        if amb {
            (acts.push(SisActionModel::Ambiguous), used)
        } else {
            match m {
                Some(id) => (acts.push(SisActionModel::Update(id)), used.push(id)),
                None => (acts.push(SisActionModel::Create), used),
            }
        }
    }
}

/// The class's students (in their order) that no row updates.
pub open spec fn untouched_students(by_sort: Seq<Seq<char>>, used: Seq<Seq<char>>) -> Seq<Seq<char>>
    decreases by_sort.len(),
{
    if by_sort.len() == 0 {
        Seq::empty()
    } else {
        let p = untouched_students(by_sort.drop_last(), used);
        if used.contains(by_sort.last()) {
            p
        } else {
            p.push(by_sort.last())
        }
    }
}

/// A match by number or name never picks a student that is taken.
proof fn lemma_match_free(
    row: RosterRowModel,
    mode: Seq<char>,
    row_index: int,
    by_student_no: Map<Seq<char>, Seq<Seq<char>>>,
    by_name: Map<Seq<char>, Seq<Seq<char>>>,
    by_sort: Seq<Seq<char>>,
    used: Seq<Seq<char>>,
)
    requires
        mode != "sort_order"@,
    ensures
        student_match(row, mode, row_index, by_student_no, by_name, by_sort, used).0 matches Some(id)
            ==> !used.contains(id),
{
    lemma_unique_free_opt(by_name.get(name_key(row.last_name, row.first_name)), used);
    if row.student_no is Some {
        lemma_unique_free_opt(by_student_no.get(key_of(row.student_no->0)), used);
    }
}

proof fn lemma_unique_free_opt(ids: Option<Seq<Seq<char>>>, used: Seq<Seq<char>>)
    ensures
        unique_free_opt(ids, used).0 matches Some(id) ==> !used.contains(id),
{
    if let Some(v) = ids {
        if exists|k: int| free_at(v, used, k) {
            let k = choose|k: int| free_at(v, used, k);
            assert(free_at(v, used, k));
        }
    }
}

/// Where rows are matched by number or name (not by position), a roster
/// import updates each student of the class at most once: the updated
/// students have no repeats, and each row that updates one is counted.
pub proof fn law_sis_updates_distinct(
    rows: Seq<RosterRowModel>,
    mode: Seq<char>,
    by_student_no: Map<Seq<char>, Seq<Seq<char>>>,
    by_name: Map<Seq<char>, Seq<Seq<char>>>,
    by_sort: Seq<Seq<char>>,
)
    requires
        mode != "sort_order"@,
    ensures
        sis_actions(rows, mode, by_student_no, by_name, by_sort).1.no_duplicates(),
        sis_actions(rows, mode, by_student_no, by_name, by_sort).0.len() == rows.len(),
        forall|j: int|
            0 <= j < rows.len() ==> (#[trigger] sis_actions(rows, mode, by_student_no, by_name, by_sort).0[j] matches SisActionModel::Update(
                id,
            ) ==> sis_actions(rows, mode, by_student_no, by_name, by_sort).1.contains(id)),
    decreases rows.len(),
{
    if rows.len() > 0 {
        let d = rows.drop_last();
        law_sis_updates_distinct(d, mode, by_student_no, by_name, by_sort);
        let (acts, used) = sis_actions(d, mode, by_student_no, by_name, by_sort);
        lemma_match_free(rows.last(), mode, rows.len() - 1, by_student_no, by_name, by_sort, used);
        let (acts2, used2) = sis_actions(rows, mode, by_student_no, by_name, by_sort);
        assert forall|i: int, j: int| 0 <= i < used2.len() && 0 <= j < used2.len() && i != j implies used2[i]
            != used2[j] by {
            if used2.len() > used.len() {
                if i < used.len() && j < used.len() {
                    assert(used2[i] == used[i] && used2[j] == used[j]);
                } else if i < used.len() {
                    assert(used2[i] == used[i]);
                    assert(used.contains(used[i]));
                } else {
                    assert(used2[j] == used[j]);
                    assert(used.contains(used[j]));
                }
            }
        }
        assert forall|j: int| 0 <= j < rows.len() implies (#[trigger] acts2[j] matches SisActionModel::Update(id)
            ==> used2.contains(id)) by {
            if j < rows.len() - 1 {
                assert(acts2[j] == acts[j]);
                if let SisActionModel::Update(id) = acts[j] {
                    let k = choose|k: int| 0 <= k < used.len() && used[k] == id;
                    assert(used2[k] == used[k]);
                }
            } else {
                if let SisActionModel::Update(id) = acts2[j] {
                    assert(used2[used2.len() - 1] == id);
                }
            }
        }
    }
}

pub open spec fn sis_actions_view(v: Seq<SisAction>) -> Seq<SisActionModel> {
    v.map_values(|a: SisAction| a@)
}

pub open spec fn count_sis(acts: Seq<SisActionModel>, which: int) -> nat
    decreases acts.len(),
{
    if acts.len() == 0 {
        0
    } else {
        count_sis(acts.drop_last(), which) + if (which == 0 && acts.last() is Update) || (which == 1
            && acts.last() is Create) || (which == 2 && acts.last() is Ambiguous) {
            1nat
        } else {
            0nat
        }
    }
}

proof fn lemma_count_sis_bound(acts: Seq<SisActionModel>, which: int)
    ensures
        count_sis(acts, which) <= acts.len(),
    decreases acts.len(),
{
    if acts.len() > 0 {
        lemma_count_sis_bound(acts.drop_last(), which);
    }
}

/// The counts of a roster import preview.
#[derive(Clone, Copy, Debug, PartialEq, Eq, Structural)]
pub struct SisPreviewCounts {
    pub matched: usize,
    pub new: usize,
    pub ambiguous: usize,
    pub invalid: usize,
}

/// The counts of a roster import preview: the rows that match a student,
/// that are new, and that are ambiguous (see `plan_sis_import`), and the
/// invalid rows. A row without a name is counted twice as invalid: once as
/// a warning of the reading, and once more as a warning of a missing name.
pub fn sis_preview_counts(acts: &Vec<SisAction>, warnings: &Vec<RosterWarning>) -> (r: SisPreviewCounts)
    requires
        warnings@.len() <= usize::MAX / 2,
    ensures
        r.matched == count_sis(sis_actions_view(acts@), 0),
        r.new == count_sis(sis_actions_view(acts@), 1),
        r.ambiguous == count_sis(sis_actions_view(acts@), 2),
        r.invalid == 2 * warnings@.len(),
{
    let ghost av = sis_actions_view(acts@);
    let mut m: usize = 0;
    let mut n: usize = 0;
    let mut a: usize = 0;
    let mut i: usize = 0;
    assert(av.take(0) =~= Seq::<SisActionModel>::empty());
    while i < acts.len()
        invariant
            i <= acts@.len(),
            av == sis_actions_view(acts@),
            m == count_sis(av.take(i as int), 0),
            n == count_sis(av.take(i as int), 1),
            a == count_sis(av.take(i as int), 2),
        decreases acts@.len() - i,
    {
        assert(av.take(i + 1).drop_last() =~= av.take(i as int));
        assert(av.take(i + 1).last() == acts@[i as int]@);
        proof {
            lemma_count_sis_bound(av.take(i as int), 0);
            lemma_count_sis_bound(av.take(i as int), 1);
            lemma_count_sis_bound(av.take(i as int), 2);
        }
        match &acts[i] {
            SisAction::Update(_) => m += 1,
            SisAction::Create => n += 1,
            SisAction::Ambiguous => a += 1,
        }
        i += 1;
    }
    assert(av.take(av.len() as int) =~= av);
    SisPreviewCounts { matched: m, new: n, ambiguous: a, invalid: warnings.len() * 2 }
}

/// The mode of a roster import: `upsert_preserve` (where none is given)
/// or `replace_snapshot`, in any ASCII case; whether it replaces with the
/// snapshot.
pub fn parse_sis_mode(mode: Option<&crate::params::ParamValue>) -> (r: Result<bool, String>)
    ensures
        ({
            let m = match crate::params::text_of(mode) {
                Some(x) => crate::text::lower(x),
                None => "upsert_preserve"@,
            };
            if m == "upsert_preserve"@ {
                r == Ok::<bool, String>(false)
            } else if m == "replace_snapshot"@ {
                r == Ok::<bool, String>(true)
            } else {
                r matches Err(e) && e@ == "mode must be one of: upsert_preserve, replace_snapshot"@
            }
        }),
{
    let m = match mode {
        Some(crate::params::ParamValue::Text(x)) => crate::text::lower_chars(chars_of(x.as_str()).as_slice()),
        _ => chars_of("upsert_preserve"),
    };
    if chars_eq_str(m.as_slice(), "upsert_preserve") {
        Ok(false)
    } else if chars_eq_str(m.as_slice(), "replace_snapshot") {
        Ok(true)
    } else {
        Err(String::from_str("mode must be one of: upsert_preserve, replace_snapshot"))
    }
}

/// The class's students that a roster import deactivates: under a
/// snapshot replace, those that no row updates (see `plan_sis_import`);
/// none otherwise.
pub fn sis_deactivated(replace_snapshot: bool, untouched: Vec<String>) -> (r: Vec<String>)
    ensures
        r@ == if replace_snapshot {
            untouched@
        } else {
            Seq::<String>::empty()
        },
{
    if replace_snapshot {
        untouched
    } else {
        Vec::new()
    }
}

/// The active flag and mask that a roster import writes for a student a
/// row matches: the student's own where the class keeps its validity;
/// else the row's flag (active where it says nothing) and the mask `TBA`.
pub fn sis_matched_validity(
    preserve_local_validity: bool,
    local_active: bool,
    local_mask: String,
    row_active: Option<bool>,
) -> (r: (bool, String))
    ensures
        if preserve_local_validity {
            r.0 == local_active && r.1@ == local_mask@
        } else {
            r.0 == match row_active {
                Some(b) => b,
                None => true,
            } && r.1@ == "TBA"@
        },
{
    if preserve_local_validity {
        (local_active, local_mask)
    } else {
        (
            match row_active {
                Some(b) => b,
                None => true,
            },
            String::from_str("TBA"),
        )
    }
}

/// The plan of a roster import (see `sis_actions`): the action for each
/// row, and the class's students that no row updates, in their order (a
/// snapshot import deactivates them; both kinds follow the rows in the
/// new order).
pub fn plan_sis_import(
    rows: &Vec<SisRosterRow>,
    mode: &str,
    by_student_no: &IdIndex,
    by_name: &IdIndex,
    by_sort: &Vec<String>,
) -> (r: (Vec<SisAction>, Vec<String>))
    ensures
        sis_actions_view(r.0@) == sis_actions(
            rows@.map_values(|x: SisRosterRow| x@),
            mode@,
            by_student_no@,
            by_name@,
            texts(by_sort@),
        ).0,
        texts(r.1@) == untouched_students(
            texts(by_sort@),
            sis_actions(
                rows@.map_values(|x: SisRosterRow| x@),
                mode@,
                by_student_no@,
                by_name@,
                texts(by_sort@),
            ).1,
        ),
{
    let ghost rv = rows@.map_values(|x: SisRosterRow| x@);
    let ghost bs = texts(by_sort@);
    let mut acts: Vec<SisAction> = Vec::new();
    let mut used: Vec<String> = Vec::new();
    let mut k: usize = 0;
    assert(rv.take(0) =~= Seq::<RosterRowModel>::empty());
    assert(sis_actions_view(acts@) =~= Seq::<SisActionModel>::empty());
    assert(texts(used@) =~= Seq::<Seq<char>>::empty());
    while k < rows.len()
        invariant
            k <= rows@.len(),
            rv == rows@.map_values(|x: SisRosterRow| x@),
            bs == texts(by_sort@),
            (sis_actions_view(acts@), texts(used@)) == sis_actions(
                rv.take(k as int),
                mode@,
                by_student_no@,
                by_name@,
                bs,
            ),
        decreases rows@.len() - k,
    {
        assert(rv.take(k + 1).drop_last() =~= rv.take(k as int));
        assert(rv.take(k + 1).last() == rows@[k as int]@);
        let (m, amb) = find_student_match(&rows[k], mode, k, by_student_no, by_name, by_sort, &used);
        let ghost before = sis_actions_view(acts@);
        let ghost used_before = texts(used@);
        if amb {
            acts.push(SisAction::Ambiguous);
            assert(sis_actions_view(acts@) =~= before.push(SisActionModel::Ambiguous));
        } else {
            match m {
                Some(id) => {
                    let ghost iv = id@;
                    used.push(id.clone());
                    acts.push(SisAction::Update(id));
                    assert(sis_actions_view(acts@) =~= before.push(SisActionModel::Update(iv)));
                    assert(texts(used@) =~= used_before.push(iv));
                },
                None => {
                    acts.push(SisAction::Create);
                    assert(sis_actions_view(acts@) =~= before.push(SisActionModel::Create));
                },
            }
        }
        k += 1;
    }
    assert(rv.take(rv.len() as int) =~= rv);
    let mut rest: Vec<String> = Vec::new();
    let mut q: usize = 0;
    assert(bs.take(0) =~= Seq::<Seq<char>>::empty());
    assert(texts(rest@) =~= Seq::<Seq<char>>::empty());
    while q < by_sort.len()
        invariant
            q <= by_sort@.len(),
            bs == texts(by_sort@),
            texts(rest@) == untouched_students(bs.take(q as int), texts(used@)),
        decreases by_sort@.len() - q,
    {
        assert(bs.take(q + 1).drop_last() =~= bs.take(q as int));
        assert(bs.take(q + 1).last() == by_sort@[q as int]@);
        if !contains_text(&used, &by_sort[q]) {
            let ghost before = texts(rest@);
            rest.push(by_sort[q].clone());
            assert(texts(rest@) =~= before.push(by_sort@[q as int]@));
        }
        q += 1;
    }
    assert(bs.take(bs.len() as int) =~= bs);
    (acts, rest)
}

// ---------------------------------------------------------------------------
// Roster files
// ---------------------------------------------------------------------------

/// The last column whose header is `name`.
pub open spec fn last_col(h: Seq<Seq<char>>, name: Seq<char>) -> Option<int>
    decreases h.len(),
{
    if h.len() == 0 {
        None
    } else if h.last() == name {
        Some(h.len() - 1)
    } else {
        last_col(h.drop_last(), name)
    }
}

pub open spec fn col_or(c: Option<int>, d: int) -> int {
    match c {
        Some(x) => x,
        None => d,
    }
}

pub open spec fn col_either(h: Seq<Seq<char>>, a: Seq<char>, b: Seq<char>, d: int) -> int {
    match last_col(h, a) {
        Some(x) => x,
        None => col_or(last_col(h, b), d),
    }
}

/// The columns of a roster: student number, last name, first name, active
/// flag and birth date.
pub struct RosterCols {
    pub student_no: usize,
    pub last: usize,
    pub first: usize,
    pub active: usize,
    pub birth: usize,
}

/// The columns that a roster header names (trimmed, in any ASCII case;
/// where a name occurs twice the later column counts): `student_no`
/// (else column 0), `last_name` or `last` (else 1), `first_name` or
/// `first` (else 2), `active` (else 3) and `birth_date` (else 4).
pub open spec fn roster_cols(header: Seq<char>) -> (int, int, int, int, int) {
    let h = csv_record(header).map_values(|f: Seq<char>| lower(trim(f)));
    (
        col_or(last_col(h, "student_no"@), 0),
        col_either(h, "last_name"@, "last"@, 1),
        col_either(h, "first_name"@, "first"@, 2),
        col_or(last_col(h, "active"@), 3),
        col_or(last_col(h, "birth_date"@), 4),
    )
}

pub open spec fn field_at(f: Seq<Seq<char>>, c: int) -> Option<Seq<char>> {
    if 0 <= c < f.len() {
        Some(f[c])
    } else {
        None
    }
}

/// What roster line `j` (counted from 0) gives: nothing where it is blank;
/// a warning with its line number (counted from 1) where a name is blank;
/// else a row.
pub open spec fn roster_line(l: Seq<char>, j: int, cols: (int, int, int, int, int)) -> Option<
    Result<RosterRowModel, nat>,
> {
    let line = trim(l);
    if line.len() == 0 {
        None
    } else {
        let f = csv_record(line);
        let last = match field_at(f, cols.1) {
            Some(x) => trim(x),
            None => Seq::empty(),
        };
        let first = match field_at(f, cols.2) {
            Some(x) => trim(x),
            None => Seq::empty(),
        };
        if last.len() == 0 || first.len() == 0 {
            Some(Err((j + 1) as nat))
        } else {
            Some(
                Ok(
                    RosterRowModel {
                        line_no: (j + 1) as nat,
                        student_no: match field_at(f, cols.0) {
                            Some(x) => non_empty(x),
                            None => None,
                        },
                        last_name: last,
                        first_name: first,
                        birth_date: match field_at(f, cols.4) {
                            Some(x) => non_empty(x),
                            None => None,
                        },
                        active: match field_at(f, cols.3) {
                            Some(x) => boolish(x),
                            None => None,
                        },
                    },
                ),
            )
        }
    }
}

/// The rows, warnings and count of non-blank lines of roster lines
/// `1..j`.
pub open spec fn roster_upto(ls: Seq<Seq<char>>, cols: (int, int, int, int, int), j: int) -> (
    Seq<RosterRowModel>,
    Seq<nat>,
    nat,
)
    decreases j,
{
    if j <= 1 {
        (Seq::empty(), Seq::empty(), 0)
    } else {
        let (rows, warns, total) = roster_upto(ls, cols, j - 1);
        match roster_line(ls[j - 1], j - 1, cols) {
            None => (rows, warns, total),
            Some(Err(n)) => (rows, warns.push(n), total + 1),
            Some(Ok(r)) => (rows.push(r), warns, total + 1),
        }
    }
}

/// A roster: its header line names the columns (see `roster_cols`); each
/// later line that is not blank counts, and gives a row or a warning (see
/// `roster_line`).
pub open spec fn roster_spec(ls: Seq<Seq<char>>) -> (Seq<RosterRowModel>, Seq<nat>, nat) {
    if ls.len() == 0 {
        (Seq::empty(), Seq::empty(), 0)
    } else {
        roster_upto(ls, roster_cols(ls[0]), ls.len() as int)
    }
}


/// The last column named `name` is `c` where column `c` has that name and
/// no later one does.
pub proof fn lemma_last_col_at(h: Seq<Seq<char>>, name: Seq<char>, c: int)
    requires
        0 <= c < h.len(),
        h[c] == name,
        forall|j: int| c < j < h.len() ==> h[j] != name,
    ensures
        last_col(h, name) == Some(c),
    decreases h.len(),
{
    if c < h.len() - 1 {
        assert(h.last() == h[h.len() - 1]);
        lemma_last_col_at(h.drop_last(), name, c);
    }
}

/// The birth dates of a roster come from the column that its header names
/// `birth_date` (trimmed, in any ASCII case; the last such column): every
/// row reads its birth date from that field of its line, where the line has
/// it and it is not blank.
pub proof fn law_roster_birth_column(header: Seq<char>, c: int)
    requires
        0 <= c < csv_record(header).len(),
        lower(trim(csv_record(header)[c])) == "birth_date"@,
        forall|j: int| c < j < csv_record(header).len() ==> lower(trim(#[trigger] csv_record(header)[j])) != "birth_date"@,
    ensures
        roster_cols(header).4 == c,
        forall|l: Seq<char>, j: int|
            #[trigger] roster_line(l, j, roster_cols(header)) matches Some(Ok(r)) ==> r.birth_date == if c
                < csv_record(trim(l)).len() {
                non_empty(csv_record(trim(l))[c])
            } else {
                None
            },
{
    let h = csv_record(header).map_values(|f: Seq<char>| lower(trim(f)));
    assert forall|j: int| c < j < h.len() implies h[j] != "birth_date"@ by {
        assert(h[j] == lower(trim(csv_record(header)[j])));
    }
    lemma_last_col_at(h, "birth_date"@, c);
}


/// Each column that a roster header names is read from where the header
/// names it (the last such column): `student_no`, `last_name`,
/// `first_name`, `active` and `birth_date`.
pub proof fn law_roster_named_columns(header: Seq<char>, name: Seq<char>, c: int)
    requires
        0 <= c < csv_record(header).len(),
        lower(trim(csv_record(header)[c])) == name,
        forall|j: int| c < j < csv_record(header).len() ==> lower(trim(#[trigger] csv_record(header)[j])) != name,
    ensures
        name == "student_no"@ ==> roster_cols(header).0 == c,
        name == "last_name"@ ==> roster_cols(header).1 == c,
        name == "first_name"@ ==> roster_cols(header).2 == c,
        name == "active"@ ==> roster_cols(header).3 == c,
        name == "birth_date"@ ==> roster_cols(header).4 == c,
{
    let h = csv_record(header).map_values(|f: Seq<char>| lower(trim(f)));
    assert forall|j: int| c < j < h.len() implies h[j] != name by {
        assert(h[j] == lower(trim(csv_record(header)[j])));
    }
    lemma_last_col_at(h, name, c);
}


/// A roster line gives a row with its line number (counted from 1) whose
/// names, student number, flag and birth date are read from the columns
/// `cols` names (student number, last name, first name, active, birth
/// date), and it is a warning exactly where a name is blank.
pub proof fn law_roster_line_fields(l: Seq<char>, j: int, cols: (int, int, int, int, int))
    requires
        j >= 0,
        trim(l).len() > 0,
        0 <= cols.1 < csv_record(trim(l)).len(),
        0 <= cols.2 < csv_record(trim(l)).len(),
    ensures
        (trim(csv_record(trim(l))[cols.1]).len() == 0 || trim(csv_record(trim(l))[cols.2]).len() == 0)
            ==> roster_line(l, j, cols) == Some(Err::<RosterRowModel, nat>((j + 1) as nat)),
        (trim(csv_record(trim(l))[cols.1]).len() > 0 && trim(csv_record(trim(l))[cols.2]).len() > 0) ==> (
        roster_line(l, j, cols) matches Some(Ok(r)) && r.line_no == j + 1 && r.last_name == trim(
            csv_record(trim(l))[cols.1],
        ) && r.first_name == trim(csv_record(trim(l))[cols.2]) && r.student_no == match field_at(
            csv_record(trim(l)),
            cols.0,
        ) {
            Some(x) => non_empty(x),
            None => None,
        } && r.active == match field_at(csv_record(trim(l)), cols.3) {
            Some(x) => boolish(x),
            None => None,
        }),
{
}

/// `last_col` on characters.
fn last_col_of(h: &Vec<Vec<char>>, name: &str) -> (r: Option<usize>)
    ensures
        match r {
            Some(c) => last_col(crate::lines::lv(h@), name@) == Some(c as int) && c < h@.len(),
            None => last_col(crate::lines::lv(h@), name@) is None,
        },
{
    let ghost hv = crate::lines::lv(h@);
    let mut k = h.len();
    assert(hv.take(k as int) == hv);
    while k > 0
        invariant
            k <= h@.len(),
            hv == crate::lines::lv(h@),
            last_col(hv, name@) == last_col(hv.take(k as int), name@),
        decreases k,
    {
        assert(hv.take(k as int).drop_last() == hv.take(k - 1));
        if chars_eq_str(h[k - 1].as_slice(), name) {
            return Some(k - 1);
        }
        k -= 1;
    }
    None
}

fn col_or_exec(c: Option<usize>, d: usize) -> (r: usize)
    ensures
        r as int == col_or(
            match c {
                Some(x) => Some(x as int),
                None => None,
            },
            d as int,
        ),
{
    match c {
        Some(x) => x,
        None => d,
    }
}

/// `roster_cols` of a header line.
fn read_roster_cols(header: &Vec<char>) -> (r: RosterCols)
    ensures
        roster_cols(header@) == (r.student_no as int, r.last as int, r.first as int, r.active as int, r.birth as int),
{
    let raw = csv_record_chars(header.as_slice());
    let mut h: Vec<Vec<char>> = Vec::new();
    let mut k: usize = 0;
    let ghost want = csv_record(header@).map_values(|f: Seq<char>| lower(trim(f)));
    while k < raw.len()
        invariant
            k <= raw@.len() == csv_record(header@).len(),
            want == csv_record(header@).map_values(|f: Seq<char>| lower(trim(f))),
            forall|j: int| 0 <= j < raw@.len() ==> #[trigger] raw@[j]@ == csv_record(header@)[j],
            h@.len() == k,
            forall|j: int| 0 <= j < k ==> #[trigger] h@[j]@ == want[j],
        decreases raw@.len() - k,
    {
        h.push(lower_chars(trim_chars(raw[k].as_slice()).as_slice()));
        k += 1;
    }
    assert(crate::lines::lv(h@) =~= want);
    let last = match last_col_of(&h, "last_name") {
        Some(x) => x,
        None => col_or_exec(last_col_of(&h, "last"), 1),
    };
    let first = match last_col_of(&h, "first_name") {
        Some(x) => x,
        None => col_or_exec(last_col_of(&h, "first"), 2),
    };
    RosterCols {
        student_no: col_or_exec(last_col_of(&h, "student_no"), 0),
        last,
        first,
        active: col_or_exec(last_col_of(&h, "active"), 3),
        birth: col_or_exec(last_col_of(&h, "birth_date"), 4),
    }
}

pub open spec fn cols_view(c: RosterCols) -> (int, int, int, int, int) {
    (c.student_no as int, c.last as int, c.first as int, c.active as int, c.birth as int)
}

pub open spec fn line_outcome_view(o: Option<Result<SisRosterRow, usize>>) -> Option<
    Result<RosterRowModel, nat>,
> {
    match o {
        None => None,
        Some(Ok(r)) => Some(Ok(r@)),
        Some(Err(n)) => Some(Err(n as nat)),
    }
}

/// Field `c` of `f`, trimmed, or blank.
fn trimmed_field(f: &Vec<Vec<char>>, c: usize) -> (r: Vec<char>)
    ensures
        r@ == match field_at(crate::lines::lv(f@), c as int) {
            Some(x) => trim(x),
            None => Seq::empty(),
        },
{
    if c < f.len() {
        trim_chars(f[c].as_slice())
    } else {
        Vec::new()
    }
}

/// `roster_line` on characters.
fn read_roster_line(l: &Vec<char>, j: usize, cols: &RosterCols) -> (r: Option<Result<SisRosterRow, usize>>)
    requires
        j < usize::MAX,
    ensures
        line_outcome_view(r) == roster_line(l@, j as int, cols_view(*cols)),
{
    let line = trim_chars(l.as_slice());
    if line.len() == 0 {
        return None;
    }
    let f = csv_record_chars(line.as_slice());
    let ghost fv = crate::lines::lv(f@);
    assert(fv =~= csv_record(line@));
    let last = trimmed_field(&f, cols.last);
    let first = trimmed_field(&f, cols.first);
    if last.len() == 0 || first.len() == 0 {
        return Some(Err(j + 1));
    }
    let student_no = if cols.student_no < f.len() {
        non_empty_chars(&f[cols.student_no])
    } else {
        None
    };
    let birth_date = if cols.birth < f.len() {
        non_empty_chars(&f[cols.birth])
    } else {
        None
    };
    let active = if cols.active < f.len() {
        parse_boolish_chars(&f[cols.active])
    } else {
        None
    };
    Some(
        Ok(
            SisRosterRow {
                line_no: j + 1,
                student_no,
                last_name: string_of_seq(&last),
                first_name: string_of_seq(&first),
                birth_date,
                active,
            },
        ),
    )
}

pub open spec fn rows_view(v: Seq<SisRosterRow>) -> Seq<RosterRowModel> {
    v.map_values(|r: SisRosterRow| r@)
}

pub open spec fn warnings_view(v: Seq<RosterWarning>) -> Seq<nat> {
    v.map_values(|w: RosterWarning| w.line as nat)
}

/// The rows of a roster file from a student information system, the
/// warnings for lines without a name, and the number of lines that are not
/// blank, the header aside (see `roster_spec`).
pub fn parse_sis_roster_rows(text: &str) -> (r: (Vec<SisRosterRow>, Vec<RosterWarning>, usize))
    ensures
        roster_spec(text_lines(text@)) == (rows_view(r.0@), warnings_view(r.1@), r.2 as nat),
{
    let lines = crate::legacy::read_lines(text);
    let ghost ls = crate::lines::lv(lines@);
    let mut rows: Vec<SisRosterRow> = Vec::new();
    let mut warnings: Vec<RosterWarning> = Vec::new();
    if lines.len() == 0 {
        assert(rows_view(rows@) =~= Seq::<RosterRowModel>::empty());
        assert(warnings_view(warnings@) =~= Seq::<nat>::empty());
        return (rows, warnings, 0);
    }
    let cols = read_roster_cols(&lines[0]);
    let ghost cv = cols_view(cols);
    let mut total: usize = 0;
    let mut j: usize = 1;
    assert(rows_view(rows@) =~= Seq::<RosterRowModel>::empty());
    assert(warnings_view(warnings@) =~= Seq::<nat>::empty());
    while j < lines.len()
        invariant
            1 <= j <= lines@.len(),
            ls == crate::lines::lv(lines@),
            cv == cols_view(cols),
            cv == roster_cols(ls[0]),
            total <= j,
            roster_upto(ls, cv, j as int) == (rows_view(rows@), warnings_view(warnings@), total as nat),
        decreases lines@.len() - j,
    {
        let o = read_roster_line(&lines[j], j, &cols);
        let ghost rv = rows_view(rows@);
        let ghost wv = warnings_view(warnings@);
        match o {
            None => {},
            Some(Err(n)) => {
                warnings.push(RosterWarning { line: n });
                assert(warnings_view(warnings@) == wv.push(n as nat));
                total += 1;
            },
            Some(Ok(row)) => {
                let ghost x = row@;
                rows.push(row);
                assert(rows_view(rows@) == rv.push(x));
                total += 1;
            },
        }
        j += 1;
    }
    (rows, warnings, total)
}

// ---------------------------------------------------------------------------
// Transfer packages
// ---------------------------------------------------------------------------

/// The records of the data lines of a package file that have at least
/// `min` fields: lines `1..j` (the header line 0 aside) that are not blank.
pub open spec fn package_records(ls: Seq<Seq<char>>, min: nat, j: int) -> Seq<Seq<Seq<char>>>
    decreases j,
{
    if j <= 1 {
        Seq::empty()
    } else {
        let prev = package_records(ls, min, j - 1);
        let l = ls[j - 1];
        if trim(l).len() == 0 || csv_record(l).len() < min {
            prev
        } else {
            prev.push(csv_record(l))
        }
    }
}

/// The rows that `row` reads from `recs`, those it reads nothing from left
/// out.
pub open spec fn rows_from<R>(recs: Seq<Seq<Seq<char>>>, row: spec_fn(Seq<Seq<char>>) -> Option<R>) -> Seq<R>
    decreases recs.len(),
{
    if recs.len() == 0 {
        Seq::empty()
    } else {
        let prev = rows_from(recs.drop_last(), row);
        match row(recs.last()) {
            Some(r) => prev.push(r),
            None => prev,
        }
    }
}

/// The records of a package file with at least `min` fields.
fn package_records_of(text: &str, min: usize) -> (r: Vec<Vec<Vec<char>>>)
    ensures
        r@.len() == package_records(text_lines(text@), min as nat, text_lines(text@).len() as int).len(),
        forall|k: int| 0 <= k < r@.len() ==> #[trigger] crate::lines::lv(r@[k]@) == package_records(
            text_lines(text@),
            min as nat,
            text_lines(text@).len() as int,
        )[k],
        forall|k: int| 0 <= k < r@.len() ==> #[trigger] r@[k]@.len() >= min,
{
    let lines = crate::legacy::read_lines(text);
    let ghost ls = crate::lines::lv(lines@);
    let mut out: Vec<Vec<Vec<char>>> = Vec::new();
    let mut j: usize = 1;
    if lines.len() == 0 {
        return out;
    }
    while j < lines.len()
        invariant
            1 <= j <= lines@.len(),
            ls == crate::lines::lv(lines@),
            ls == text_lines(text@),
            out@.len() == package_records(ls, min as nat, j as int).len(),
            forall|k: int| 0 <= k < out@.len() ==> #[trigger] crate::lines::lv(out@[k]@)
                == package_records(ls, min as nat, j as int)[k],
            forall|k: int| 0 <= k < out@.len() ==> #[trigger] out@[k]@.len() >= min,
        decreases lines@.len() - j,
    {
        let t = trim_chars(lines[j].as_slice());
        if t.len() > 0 {
            let f = csv_record_chars(lines[j].as_slice());
            if f.len() >= min {
                assert(crate::lines::lv(f@) =~= csv_record(ls[j as int]));
                out.push(f);
            }
        }
        j += 1;
    }
    out
}

/// A number field: the field trimmed, where `str::parse::<f64>` accepts it.
pub open spec fn number_text(s: Seq<char>) -> Option<Seq<char>> {
    if is_float_literal(trim(s)) {
        Some(trim(s))
    } else {
        None
    }
}

fn number_text_of(s: &Vec<char>) -> (r: Option<String>)
    ensures
        opt_view(r) == number_text(s@),
{
    let t = trim_chars(s.as_slice());
    if is_float_literal_chars(t.as_slice()) {
        Some(string_of_seq(&t))
    } else {
        None
    }
}

fn trimmed_text(s: &Vec<char>) -> (r: String)
    ensures
        r@ == trim(s@),
{
    string_of_seq(&trim_chars(s.as_slice()))
}

fn int_field(s: &Vec<char>) -> (r: Option<i64>)
    ensures
        r == parse_i64(trim(s@)),
{
    parse_i64_chars(trim_chars(s.as_slice()).as_slice())
}

/// A student of a transfer package.
pub struct SourceStudentPackage {
    pub source_id: String,
    pub student_no: Option<String>,
    pub last_name: String,
    pub first_name: String,
    pub birth_date: Option<String>,
    pub active: bool,
    pub mark_set_mask: String,
}

pub struct SourceStudentModel {
    pub source_id: Seq<char>,
    pub student_no: Option<Seq<char>>,
    pub last_name: Seq<char>,
    pub first_name: Seq<char>,
    pub birth_date: Option<Seq<char>>,
    pub active: bool,
    pub mark_set_mask: Seq<char>,
}

impl View for SourceStudentPackage {
    type V = SourceStudentModel;

    open spec fn view(&self) -> SourceStudentModel {
        SourceStudentModel {
            source_id: self.source_id@,
            student_no: opt_view(self.student_no),
            last_name: self.last_name@,
            first_name: self.first_name@,
            birth_date: opt_view(self.birth_date),
            active: self.active,
            mark_set_mask: self.mark_set_mask@,
        }
    }
}

/// A student line `id,number,last,first,birth,active,_,mask`: active where
/// the field says nothing, and the mask `TBA` where it is blank.
pub open spec fn student_row(f: Seq<Seq<char>>) -> Option<SourceStudentModel> {
    Some(
        SourceStudentModel {
            source_id: trim(f[0]),
            student_no: non_empty(f[1]),
            last_name: trim(f[2]),
            first_name: trim(f[3]),
            birth_date: non_empty(f[4]),
            active: match boolish(f[5]) {
                Some(b) => b,
                None => true,
            },
            mark_set_mask: match non_empty(f[7]) {
                Some(m) => m,
                None => "TBA"@,
            },
        },
    )
}

/// The students of a transfer package's student file: its lines after the
/// header with at least 8 fields.
pub fn parse_admin_students_csv(text: &str) -> (r: Vec<SourceStudentPackage>)
    ensures
        r@.map_values(|x: SourceStudentPackage| x@) == rows_from(
            package_records(text_lines(text@), 8, text_lines(text@).len() as int),
            |f: Seq<Seq<char>>| student_row(f),
        ),
{
    let recs = package_records_of(text, 8);
    let ghost rs = package_records(text_lines(text@), 8, text_lines(text@).len() as int);
    let ghost rowf = |f: Seq<Seq<char>>| student_row(f);
    let mut out: Vec<SourceStudentPackage> = Vec::new();
    let mut k: usize = 0;
    assert(out@.map_values(|x: SourceStudentPackage| x@) =~= rows_from(rs.take(0), rowf));
    while k < recs.len()
        invariant
            k <= recs@.len() == rs.len(),
            forall|q: int| 0 <= q < recs@.len() ==> #[trigger] crate::lines::lv(recs@[q]@) == rs[q],
            forall|q: int| 0 <= q < recs@.len() ==> #[trigger] recs@[q]@.len() >= 8,
            rowf == (|f: Seq<Seq<char>>| student_row(f)),
            out@.map_values(|x: SourceStudentPackage| x@) == rows_from(rs.take(k as int), rowf),
        decreases recs@.len() - k,
    {
        let f = &recs[k];
        let ghost fv = crate::lines::lv(f@);
        assert(fv == rs[k as int]);
        let mask = match non_empty_chars(&f[7]) {
            Some(m) => m,
            None => String::from_str("TBA"),
        };
        let x = SourceStudentPackage {
            source_id: trimmed_text(&f[0]),
            student_no: non_empty_chars(&f[1]),
            last_name: trimmed_text(&f[2]),
            first_name: trimmed_text(&f[3]),
            birth_date: non_empty_chars(&f[4]),
            active: match parse_boolish_chars(&f[5]) {
                Some(b) => b,
                None => true,
            },
            mark_set_mask: mask,
        };
        let ghost before = out@.map_values(|x: SourceStudentPackage| x@);
        let ghost xv = x@;
        out.push(x);
        assert(out@.map_values(|x: SourceStudentPackage| x@) == before.push(xv));
        assert(rs.take(k + 1).drop_last() == rs.take(k as int));
        assert(rs.take(k + 1).last() == fv);
        assert(fv[0] == f@[0]@ && fv[1] == f@[1]@ && fv[2] == f@[2]@ && fv[3] == f@[3]@);
        assert(fv[4] == f@[4]@ && fv[5] == f@[5]@ && fv[7] == f@[7]@);
        assert(rowf(fv) == Some(xv));
        k += 1;
    }
    assert(rs.take(recs@.len() as int) == rs);
    out
}

/// An assessment of a transfer package. `weight` and `out_of` are kept as
/// the file writes them, where they are numbers.
pub struct SourceAssessmentRow {
    pub idx: i64,
    pub date: Option<String>,
    pub category_name: Option<String>,
    pub title: String,
    pub term: Option<i64>,
    pub legacy_type: Option<i64>,
    pub weight: Option<String>,
    pub out_of: Option<String>,
}

pub struct SourceAssessmentModel {
    pub idx: i64,
    pub date: Option<Seq<char>>,
    pub category_name: Option<Seq<char>>,
    pub title: Seq<char>,
    pub term: Option<i64>,
    pub legacy_type: Option<i64>,
    pub weight: Option<Seq<char>>,
    pub out_of: Option<Seq<char>>,
}

impl View for SourceAssessmentRow {
    type V = SourceAssessmentModel;

    open spec fn view(&self) -> SourceAssessmentModel {
        SourceAssessmentModel {
            idx: self.idx,
            date: opt_view(self.date),
            category_name: opt_view(self.category_name),
            title: self.title@,
            term: self.term,
            legacy_type: self.legacy_type,
            weight: opt_view(self.weight),
            out_of: opt_view(self.out_of),
        }
    }
}

/// An assessment line `idx,date,category,title,term,type,weight,out_of`;
/// a line whose index is no `i64` gives nothing.
pub open spec fn assessment_row(f: Seq<Seq<char>>) -> Option<SourceAssessmentModel> {
    match parse_i64(trim(f[0])) {
        None => None,
        Some(idx) => Some(
            SourceAssessmentModel {
                idx,
                date: non_empty(f[1]),
                category_name: non_empty(f[2]),
                title: trim(f[3]),
                term: parse_i64(trim(f[4])),
                legacy_type: parse_i64(trim(f[5])),
                weight: number_text(f[6]),
                out_of: number_text(f[7]),
            },
        ),
    }
}

/// The assessments of a transfer package's assessment file: its lines
/// after the header with at least 8 fields and an index.
pub fn parse_admin_assessments_csv(text: &str) -> (r: Vec<SourceAssessmentRow>)
    ensures
        r@.map_values(|x: SourceAssessmentRow| x@) == rows_from(
            package_records(text_lines(text@), 8, text_lines(text@).len() as int),
            |f: Seq<Seq<char>>| assessment_row(f),
        ),
{
    let recs = package_records_of(text, 8);
    let ghost rs = package_records(text_lines(text@), 8, text_lines(text@).len() as int);
    let ghost rowf = |f: Seq<Seq<char>>| assessment_row(f);
    let mut out: Vec<SourceAssessmentRow> = Vec::new();
    let mut k: usize = 0;
    assert(out@.map_values(|x: SourceAssessmentRow| x@) =~= rows_from(rs.take(0), rowf));
    while k < recs.len()
        invariant
            k <= recs@.len() == rs.len(),
            forall|q: int| 0 <= q < recs@.len() ==> #[trigger] crate::lines::lv(recs@[q]@) == rs[q],
            forall|q: int| 0 <= q < recs@.len() ==> #[trigger] recs@[q]@.len() >= 8,
            rowf == (|f: Seq<Seq<char>>| assessment_row(f)),
            out@.map_values(|x: SourceAssessmentRow| x@) == rows_from(rs.take(k as int), rowf),
        decreases recs@.len() - k,
    {
        let f = &recs[k];
        let ghost fv = crate::lines::lv(f@);
        assert(fv == rs[k as int]);
        assert(rs.take(k + 1).drop_last() == rs.take(k as int));
        assert(rs.take(k + 1).last() == fv);
        assert(fv[0] == f@[0]@ && fv[1] == f@[1]@ && fv[2] == f@[2]@ && fv[3] == f@[3]@);
        assert(fv[4] == f@[4]@ && fv[5] == f@[5]@ && fv[6] == f@[6]@ && fv[7] == f@[7]@);
        match int_field(&f[0]) {
            None => {
                assert(rowf(fv) is None);
            },
            Some(idx) => {
                let x = SourceAssessmentRow {
                    idx,
                    date: non_empty_chars(&f[1]),
                    category_name: non_empty_chars(&f[2]),
                    title: trimmed_text(&f[3]),
                    term: int_field(&f[4]),
                    legacy_type: int_field(&f[5]),
                    weight: number_text_of(&f[6]),
                    out_of: number_text_of(&f[7]),
                };
                let ghost before = out@.map_values(|x: SourceAssessmentRow| x@);
                let ghost xv = x@;
                out.push(x);
                assert(out@.map_values(|x: SourceAssessmentRow| x@) == before.push(xv));
                assert(rowf(fv) == Some(xv));
            },
        }
        k += 1;
    }
    assert(rs.take(recs@.len() as int) == rs);
    out
}

/// A score of a transfer package: the assessment's index, the student's
/// source id, the score's status (lower case), the raw value as the file
/// writes it (where it is a number) and the remark.
pub struct SourceScoreRow {
    pub assessment_idx: i64,
    pub student_id: String,
    pub status: String,
    pub raw_value: Option<String>,
    pub remark: Option<String>,
}

pub struct SourceScoreModel {
    pub assessment_idx: i64,
    pub student_id: Seq<char>,
    pub status: Seq<char>,
    pub raw_value: Option<Seq<char>>,
    pub remark: Option<Seq<char>>,
}

impl View for SourceScoreRow {
    type V = SourceScoreModel;

    open spec fn view(&self) -> SourceScoreModel {
        SourceScoreModel {
            assessment_idx: self.assessment_idx,
            student_id: self.student_id@,
            status: self.status@,
            raw_value: opt_view(self.raw_value),
            remark: opt_view(self.remark),
        }
    }
}

/// A score line `idx,student,status,raw,remark`; a line whose index is no
/// `i64` gives nothing.
pub open spec fn score_row(f: Seq<Seq<char>>) -> Option<SourceScoreModel> {
    match parse_i64(trim(f[0])) {
        None => None,
        Some(idx) => Some(
            SourceScoreModel {
                assessment_idx: idx,
                student_id: trim(f[1]),
                status: lower(trim(f[2])),
                raw_value: number_text(f[3]),
                remark: non_empty(f[4]),
            },
        ),
    }
}

/// The scores of a transfer package's score file: its lines after the
/// header with at least 5 fields and an index.
pub fn parse_admin_scores_csv(text: &str) -> (r: Vec<SourceScoreRow>)
    ensures
        r@.map_values(|x: SourceScoreRow| x@) == rows_from(
            package_records(text_lines(text@), 5, text_lines(text@).len() as int),
            |f: Seq<Seq<char>>| score_row(f),
        ),
        r@.map_values(|x: SourceScoreRow| x@) == score_rows(
            package_records(text_lines(text@), 5, text_lines(text@).len() as int),
        ),
{
    let recs = package_records_of(text, 5);
    let ghost rs = package_records(text_lines(text@), 5, text_lines(text@).len() as int);
    let ghost rowf = |f: Seq<Seq<char>>| score_row(f);
    let mut out: Vec<SourceScoreRow> = Vec::new();
    let mut k: usize = 0;
    assert(out@.map_values(|x: SourceScoreRow| x@) =~= rows_from(rs.take(0), rowf));
    while k < recs.len()
        invariant
            k <= recs@.len() == rs.len(),
            forall|q: int| 0 <= q < recs@.len() ==> #[trigger] crate::lines::lv(recs@[q]@) == rs[q],
            forall|q: int| 0 <= q < recs@.len() ==> #[trigger] recs@[q]@.len() >= 5,
            rowf == (|f: Seq<Seq<char>>| score_row(f)),
            out@.map_values(|x: SourceScoreRow| x@) == rows_from(rs.take(k as int), rowf),
        decreases recs@.len() - k,
    {
        let f = &recs[k];
        let ghost fv = crate::lines::lv(f@);
        assert(fv == rs[k as int]);
        assert(rs.take(k + 1).drop_last() == rs.take(k as int));
        assert(rs.take(k + 1).last() == fv);
        assert(fv[0] == f@[0]@ && fv[1] == f@[1]@ && fv[2] == f@[2]@ && fv[3] == f@[3]@);
        assert(fv[4] == f@[4]@);
        match int_field(&f[0]) {
            None => {
                assert(rowf(fv) is None);
            },
            Some(idx) => {
                let x = SourceScoreRow {
                    assessment_idx: idx,
                    student_id: trimmed_text(&f[1]),
                    status: string_of_seq(&lower_chars(trim_chars(f[2].as_slice()).as_slice())),
                    raw_value: number_text_of(&f[3]),
                    remark: non_empty_chars(&f[4]),
                };
                let ghost before = out@.map_values(|x: SourceScoreRow| x@);
                let ghost xv = x@;
                out.push(x);
                assert(out@.map_values(|x: SourceScoreRow| x@) == before.push(xv));
                assert(rowf(fv) == Some(xv));
            },
        }
        k += 1;
    }
    assert(rs.take(recs@.len() as int) == rs);
    out
}


/// A score line with an integer index gives a score of that index, for the
/// student named by its second field, with its third field as the status
/// (lower case) and its fifth as the remark.
pub proof fn law_score_line_fields(f: Seq<Seq<char>>, idx: i64)
    requires
        f.len() >= 5,
        parse_i64(trim(f[0])) == Some(idx),
    ensures
        score_row(f) matches Some(s) && s.assessment_idx == idx && s.student_id == trim(f[1]) && s.status
            == lower(trim(f[2])) && s.raw_value == number_text(f[3]) && s.remark == non_empty(f[4]),
{
}

/// An assessment line with an integer index gives an assessment of that
/// index whose title is its fourth field trimmed, whose date and category
/// are its second and third fields (where not blank), and whose term and
/// type are its fifth and sixth fields read as integers.
pub proof fn law_assessment_line_fields(f: Seq<Seq<char>>, idx: i64)
    requires
        f.len() >= 8,
        parse_i64(trim(f[0])) == Some(idx),
    ensures
        assessment_row(f) matches Some(a) && a.idx == idx && a.date == non_empty(f[1]) && a.category_name
            == non_empty(f[2]) && a.title == trim(f[3]) && a.term == parse_i64(trim(f[4])) && a.legacy_type
            == parse_i64(trim(f[5])) && a.weight == number_text(f[6]) && a.out_of == number_text(f[7]),
{
}


proof fn lemma_package_records_from_lines(ls: Seq<Seq<char>>, min: nat, j: int)
    requires
        j <= ls.len(),
    ensures
        forall|q: int|
            0 <= q < package_records(ls, min, j).len() ==> exists|p: int|
                1 <= p < j && #[trigger] package_records(ls, min, j)[q] == csv_record(ls[p])
                    && csv_record(ls[p]).len() >= min,
    decreases j,
{
    if j > 1 {
        lemma_package_records_from_lines(ls, min, j - 1);
        let prev = package_records(ls, min, j - 1);
        let l = ls[j - 1];
        if !(trim(l).len() == 0 || csv_record(l).len() < min) {
            assert forall|q: int|
                0 <= q < package_records(ls, min, j).len() implies exists|p: int|
                1 <= p < j && #[trigger] package_records(ls, min, j)[q] == csv_record(ls[p])
                    && csv_record(ls[p]).len() >= min by {
                if q < prev.len() {
                    let p = choose|p: int|
                        1 <= p < j - 1 && #[trigger] prev[q] == csv_record(ls[p]) && csv_record(ls[p]).len()
                            >= min;
                    assert(package_records(ls, min, j)[q] == prev[q]);
                } else {
                    assert(package_records(ls, min, j)[q] == csv_record(ls[j - 1]));
                }
            }
        }
    }
}

/// The scores read from the records of a score file.
pub open spec fn score_rows(recs: Seq<Seq<Seq<char>>>) -> Seq<SourceScoreModel> {
    rows_from(recs, |f: Seq<Seq<char>>| score_row(f))
}

proof fn lemma_score_rows_from(recs: Seq<Seq<Seq<char>>>)
    requires
        forall|q: int| 0 <= q < recs.len() ==> (#[trigger] recs[q]).len() >= 5,
    ensures
        forall|k: int|
            0 <= k < score_rows(recs).len() ==> exists|q: int|
                0 <= q < recs.len() && parse_i64(trim(recs[q][0])) == Some(
                    (#[trigger] score_rows(recs)[k]).assessment_idx,
                ) && score_rows(recs)[k].student_id == trim(recs[q][1]) && score_rows(recs)[k].status == lower(
                    trim(recs[q][2]),
                ),
    decreases recs.len(),
{
    if recs.len() > 0 {
        let d = recs.drop_last();
        lemma_score_rows_from(d);
        let prev = score_rows(d);
        let all = score_rows(recs);
        assert forall|k: int| 0 <= k < all.len() implies exists|q: int|
            0 <= q < recs.len() && parse_i64(trim(recs[q][0])) == Some((#[trigger] all[k]).assessment_idx)
                && all[k].student_id == trim(recs[q][1]) && all[k].status == lower(trim(recs[q][2])) by {
            if k < prev.len() {
                let q = choose|q: int|
                    0 <= q < d.len() && parse_i64(trim(d[q][0])) == Some((#[trigger] prev[k]).assessment_idx)
                        && prev[k].student_id == trim(d[q][1]) && prev[k].status == lower(trim(d[q][2]));
                assert(all[k] == prev[k]);
                assert(recs[q] == d[q]);
            } else {
                let q = recs.len() - 1;
                assert(recs[q] == recs.last());
                assert(all[k] == score_row(recs.last()).unwrap());
            }
        }
    }
}

/// Every score that a transfer package's score file gives comes from a line
/// of the file after the header: its index is that line's integer first
/// field, its student the line's second field trimmed, and its status the
/// third field trimmed in lower case.
pub proof fn law_scores_come_from_lines(text: Seq<char>)
    ensures
        forall|k: int|
            0 <= k < score_rows(package_records(text_lines(text), 5, text_lines(text).len() as int)).len()
                ==> exists|p: int|
                1 <= p < text_lines(text).len() && csv_record(text_lines(text)[p]).len() >= 5 && parse_i64(
                    trim(csv_record(text_lines(text)[p])[0]),
                ) == Some(
                    (#[trigger] score_rows(
                        package_records(text_lines(text), 5, text_lines(text).len() as int),
                    )[k]).assessment_idx,
                ) && score_rows(package_records(text_lines(text), 5, text_lines(text).len() as int))[k].student_id
                    == trim(csv_record(text_lines(text)[p])[1]) && score_rows(
                    package_records(text_lines(text), 5, text_lines(text).len() as int),
                )[k].status == lower(trim(csv_record(text_lines(text)[p])[2])),
{
    let ls = text_lines(text);
    let recs = package_records(ls, 5, ls.len() as int);
    lemma_package_records_from_lines(ls, 5, ls.len() as int);
    assert forall|q: int| 0 <= q < recs.len() implies (#[trigger] recs[q]).len() >= 5 by {
        let p = choose|p: int|
            1 <= p < ls.len() && #[trigger] recs[q] == csv_record(ls[p]) && csv_record(ls[p]).len() >= 5;
    }
    lemma_score_rows_from(recs);
    let rows = score_rows(recs);
    assert forall|k: int| 0 <= k < rows.len() implies exists|p: int|
        1 <= p < ls.len() && csv_record(ls[p]).len() >= 5 && parse_i64(trim(csv_record(ls[p])[0])) == Some(
            (#[trigger] rows[k]).assessment_idx,
        ) && rows[k].student_id == trim(csv_record(ls[p])[1]) && rows[k].status == lower(
            trim(csv_record(ls[p])[2]),
        ) by {
        let q = choose|q: int|
            0 <= q < recs.len() && parse_i64(trim(recs[q][0])) == Some((#[trigger] rows[k]).assessment_idx)
                && rows[k].student_id == trim(recs[q][1]) && rows[k].status == lower(trim(recs[q][2]));
        let p = choose|p: int|
            1 <= p < ls.len() && #[trigger] recs[q] == csv_record(ls[p]) && csv_record(ls[p]).len() >= 5;
    }
}

/// A learning-skill value of a transfer package.
pub struct SourceLearningSkillsRow {
    pub source_student_id: String,
    pub term: i64,
    pub skill_code: String,
    pub value: String,
}

pub struct SourceSkillModel {
    pub source_student_id: Seq<char>,
    pub term: i64,
    pub skill_code: Seq<char>,
    pub value: Seq<char>,
}

impl View for SourceLearningSkillsRow {
    type V = SourceSkillModel;

    open spec fn view(&self) -> SourceSkillModel {
        SourceSkillModel {
            source_student_id: self.source_student_id@,
            term: self.term,
            skill_code: self.skill_code@,
            value: self.value@,
        }
    }
}

/// A learning-skill line `student,term,skill,value`; a line whose term is
/// no `i64` gives nothing.
pub open spec fn skill_row(f: Seq<Seq<char>>) -> Option<SourceSkillModel> {
    match parse_i64(trim(f[1])) {
        None => None,
        Some(term) => Some(
            SourceSkillModel {
                source_student_id: trim(f[0]),
                term,
                skill_code: trim(f[2]),
                value: trim(f[3]),
            },
        ),
    }
}

/// A learning-skill line with an integer term gives the value (fourth
/// field) of the skill (third field) for the student (first field) in that
/// term, each trimmed; a line whose term is no integer gives nothing.
pub proof fn law_skill_line_fields(f: Seq<Seq<char>>)
    requires
        f.len() >= 4,
    ensures
        parse_i64(trim(f[1])) is None ==> skill_row(f) is None,
        parse_i64(trim(f[1])) matches Some(t) ==> (skill_row(f) matches Some(r) && r.term == t
            && r.source_student_id == trim(f[0]) && r.skill_code == trim(f[2]) && r.value == trim(f[3])),
{
}

/// The learning-skill values of a transfer package's learning-skills file:
/// its lines after the header with at least 4 fields and a term.
pub fn parse_admin_learning_skills_csv(text: &str) -> (r: Vec<SourceLearningSkillsRow>)
    ensures
        r@.map_values(|x: SourceLearningSkillsRow| x@) == rows_from(
            package_records(text_lines(text@), 4, text_lines(text@).len() as int),
            |f: Seq<Seq<char>>| skill_row(f),
        ),
{
    let recs = package_records_of(text, 4);
    let ghost rs = package_records(text_lines(text@), 4, text_lines(text@).len() as int);
    let ghost rowf = |f: Seq<Seq<char>>| skill_row(f);
    let mut out: Vec<SourceLearningSkillsRow> = Vec::new();
    let mut k: usize = 0;
    assert(out@.map_values(|x: SourceLearningSkillsRow| x@) =~= rows_from(rs.take(0), rowf));
    while k < recs.len()
        invariant
            k <= recs@.len() == rs.len(),
            forall|q: int| 0 <= q < recs@.len() ==> #[trigger] crate::lines::lv(recs@[q]@) == rs[q],
            forall|q: int| 0 <= q < recs@.len() ==> #[trigger] recs@[q]@.len() >= 4,
            rowf == (|f: Seq<Seq<char>>| skill_row(f)),
            out@.map_values(|x: SourceLearningSkillsRow| x@) == rows_from(rs.take(k as int), rowf),
        decreases recs@.len() - k,
    {
        let f = &recs[k];
        let ghost fv = crate::lines::lv(f@);
        assert(fv == rs[k as int]);
        assert(rs.take(k + 1).drop_last() == rs.take(k as int));
        assert(rs.take(k + 1).last() == fv);
        assert(fv[0] == f@[0]@ && fv[1] == f@[1]@ && fv[2] == f@[2]@ && fv[3] == f@[3]@);
        match int_field(&f[1]) {
            None => {
                assert(rowf(fv) is None);
            },
            Some(term) => {
                let x = SourceLearningSkillsRow {
                    source_student_id: trimmed_text(&f[0]),
                    term,
                    skill_code: trimmed_text(&f[2]),
                    value: trimmed_text(&f[3]),
                };
                let ghost before = out@.map_values(|x: SourceLearningSkillsRow| x@);
                let ghost xv = x@;
                out.push(x);
                assert(out@.map_values(|x: SourceLearningSkillsRow| x@) == before.push(xv));
                assert(rowf(fv) == Some(xv));
            },
        }
        k += 1;
    }
    assert(rs.take(recs@.len() as int) == rs);
    out
}

/// `title|date|category|term`, the first three as keys and the term (0
/// where absent) in decimal: the key under which a package's assessment
/// counts as one already in the target.
pub open spec fn source_assessment_key(a: SourceAssessmentModel) -> Seq<char> {
    crate::keys::pair_key(
        crate::keys::pair_key(
            crate::keys::pair_key(
                key_of(a.title),
                match a.date {
                    Some(d) => key_of(d),
                    None => Seq::empty(),
                },
            ),
            match a.category_name {
                Some(c) => key_of(c),
                None => Seq::empty(),
            },
        ),
        crate::num::int_decimal(
            match a.term {
                Some(t) => t as int,
                None => 0,
            },
        ),
    )
}

/// The key under which a package's assessment counts as one already in the
/// target mark set.
pub fn source_assessment_collision_key(a: &SourceAssessmentRow) -> (r: String)
    ensures
        r@ == source_assessment_key(a@),
{
    let mut out: Vec<char> = Vec::new();
    append_chars(&mut out, chars_of(normalize_key(a.title.as_str()).as_str()).as_slice());
    out.push('|');
    match &a.date {
        Some(d) => append_chars(&mut out, chars_of(normalize_key(d.as_str()).as_str()).as_slice()),
        None => {},
    }
    out.push('|');
    match &a.category_name {
        Some(c) => append_chars(&mut out, chars_of(normalize_key(c.as_str()).as_str()).as_slice()),
        None => {},
    }
    out.push('|');
    let n = crate::num::i64_decimal(
        match a.term {
            Some(t) => t,
            None => 0,
        },
    );
    append_chars(&mut out, n.as_slice());
    string_of_seq(&out)
}

/// Whether a student is in an export's scope: every student for `all`,
/// the active ones for `active`, and otherwise those that count in the mark
/// set, which `in_mark_set` says (the gradebook's calculation module
/// decides it from the student's active flag and membership mask).
pub fn resolve_student_scope(scope: &str, active: bool, in_mark_set: bool) -> (r: bool)
    ensures
        r == if scope@ == "all"@ {
            true
        } else if scope@ == "active"@ {
            active
        } else {
            in_mark_set
        },
{
    let s = chars_of(scope);
    if chars_eq_str(s.as_slice(), "all") {
        true
    } else if chars_eq_str(s.as_slice(), "active") {
        active
    } else {
        in_mark_set
    }
}

/// The current time as whole seconds since the Unix epoch, in decimal.
pub fn now_unix_string() -> (r: String)
    ensures
        exists|n: u64| r@ == crate::num::nat_digits(n as nat),
{
    let secs = unix_seconds();
    string_of_seq(&crate::num::u64_digits(secs))
}

/// `SystemTime::now()` as whole seconds since the Unix epoch, 0 for a
/// clock set before it. Nothing is claimed of the value.
#[verifier::external_body]
fn unix_seconds() -> (r: u64) {
    std::time::SystemTime::now().duration_since(std::time::UNIX_EPOCH).map(|d| d.as_secs()).unwrap_or(0)
}

// ---------------------------------------------------------------------------
// Roster export
// ---------------------------------------------------------------------------

/// A student of a class, as the exchange reads it.
pub struct StudentRow {
    pub id: String,
    pub student_no: Option<String>,
    pub last_name: String,
    pub first_name: String,
    pub birth_date: Option<String>,
    pub active: bool,
    pub sort_order: i64,
    pub mark_set_mask: String,
}

pub struct StudentModel {
    pub id: Seq<char>,
    pub student_no: Option<Seq<char>>,
    pub last_name: Seq<char>,
    pub first_name: Seq<char>,
    pub birth_date: Option<Seq<char>>,
    pub active: bool,
    pub sort_order: i64,
    pub mark_set_mask: Seq<char>,
}

impl View for StudentRow {
    type V = StudentModel;

    open spec fn view(&self) -> StudentModel {
        StudentModel {
            id: self.id@,
            student_no: opt_view(self.student_no),
            last_name: self.last_name@,
            first_name: self.first_name@,
            birth_date: opt_view(self.birth_date),
            active: self.active,
            sort_order: self.sort_order,
            mark_set_mask: self.mark_set_mask@,
        }
    }
}

/// The columns of an exported roster.
pub open spec fn roster_columns() -> Seq<Seq<char>> {
    seq![
        "student_id"@,
        "student_no"@,
        "last_name"@,
        "first_name"@,
        "birth_date"@,
        "active"@,
        "sort_order"@,
        "mark_set_mask"@,
    ]
}

pub open spec fn or_blank(o: Option<Seq<char>>) -> Seq<char> {
    match o {
        Some(s) => s,
        None => Seq::empty(),
    }
}

/// The fields of a student in an exported roster: id, number, last and
/// first name, birth date (blank where there is none), `1` or `0` for
/// active, sort order in decimal, and membership mask.
pub open spec fn roster_fields(s: StudentModel) -> Seq<Seq<char>> {
    seq![
        s.id,
        or_blank(s.student_no),
        s.last_name,
        s.first_name,
        or_blank(s.birth_date),
        if s.active {
            "1"@
        } else {
            "0"@
        },
        crate::num::int_decimal(s.sort_order as int),
        s.mark_set_mask,
    ]
}

/// The students a roster export covers: every one for scope `all`, else
/// the active ones.
pub open spec fn exported_students(students: Seq<StudentModel>, scope: Seq<char>) -> Seq<StudentModel>
    decreases students.len(),
{
    if students.len() == 0 {
        Seq::empty()
    } else {
        let prev = exported_students(students.drop_last(), scope);
        if scope == "all"@ || students.last().active {
            prev.push(students.last())
        } else {
            prev
        }
    }
}

/// The lines of an exported roster: the header, then one line per student.
pub open spec fn roster_export_lines(students: Seq<StudentModel>, scope: Seq<char>) -> Seq<Seq<char>> {
    seq![csv_line(roster_columns())] + exported_students(students, scope).map_values(
        |s: StudentModel| csv_line(roster_fields(s)),
    )
}

pub open spec fn students_view(v: Seq<StudentRow>) -> Seq<StudentModel> {
    v.map_values(|s: StudentRow| s@)
}

fn push_line(out: &mut Vec<char>, fields: &Vec<Vec<char>>)
    ensures
        final(out)@ == old(out)@ + csv_line(fields@.map_values(|f: Vec<char>| f@)) + seq!['\n'],
{
    let l = write_csv_line(fields);
    append_chars(out, l.as_slice());
    out.push('\n');
}

fn chars_or_blank(o: &Option<String>) -> (r: Vec<char>)
    ensures
        r@ == or_blank(opt_view(*o)),
{
    match o {
        Some(s) => chars_of(s.as_str()),
        None => Vec::new(),
    }
}

/// The roster file that an export writes for a class's students, and the
/// number of students in it (see `roster_export_lines`).
pub fn sis_roster_csv(students: &Vec<StudentRow>, scope: &str) -> (r: (String, usize))
    ensures
        r.0@ == crate::text::join_lines(roster_export_lines(students_view(students@), scope@)),
        r.1 == exported_students(students_view(students@), scope@).len(),
{
    let ghost sv = students_view(students@);
    let all = chars_eq_str(chars_of(scope).as_slice(), "all");
    let mut header: Vec<Vec<char>> = Vec::new();
    header.push(chars_of("student_id"));
    header.push(chars_of("student_no"));
    header.push(chars_of("last_name"));
    header.push(chars_of("first_name"));
    header.push(chars_of("birth_date"));
    header.push(chars_of("active"));
    header.push(chars_of("sort_order"));
    header.push(chars_of("mark_set_mask"));
    assert(header@.map_values(|f: Vec<char>| f@) =~= roster_columns());
    let mut out: Vec<char> = Vec::new();
    push_line(&mut out, &header);
    let ghost head_line = csv_line(roster_columns());
    assert(out@ == crate::text::join_lines(seq![head_line])) by {
        assert(seq![head_line].drop_last() =~= Seq::<Seq<char>>::empty());
        assert(seq![head_line].last() == head_line);
        assert(crate::text::join_lines(Seq::<Seq<char>>::empty()) == Seq::<char>::empty());
        assert(Seq::<char>::empty() + head_line + seq!['\n'] == head_line + seq!['\n']);
    }
    let mut count: usize = 0;
    let mut k: usize = 0;
    assert(sv.take(0) =~= Seq::<StudentModel>::empty());
    while k < students.len()
        invariant
            k <= students@.len(),
            sv == students_view(students@),
            all == (scope@ == "all"@),
            count == exported_students(sv.take(k as int), scope@).len(),
            count <= k,
            out@ == crate::text::join_lines(roster_export_lines(sv.take(k as int), scope@)),
        decreases students@.len() - k,
    {
        let s = &students[k];
        let ghost prev_lines = roster_export_lines(sv.take(k as int), scope@);
        assert(sv.take(k + 1).drop_last() == sv.take(k as int));
        assert(sv.take(k + 1).last() == s@);
        if all || s.active {
            let mut fields: Vec<Vec<char>> = Vec::new();
            fields.push(chars_of(s.id.as_str()));
            fields.push(chars_or_blank(&s.student_no));
            fields.push(chars_of(s.last_name.as_str()));
            fields.push(chars_of(s.first_name.as_str()));
            fields.push(chars_or_blank(&s.birth_date));
            fields.push(
                if s.active {
                    chars_of("1")
                } else {
                    chars_of("0")
                },
            );
            fields.push(crate::num::i64_decimal(s.sort_order));
            fields.push(chars_of(s.mark_set_mask.as_str()));
            assert(fields@.map_values(|f: Vec<char>| f@) =~= roster_fields(s@));
            push_line(&mut out, &fields);
            proof {
                let ex = exported_students(sv.take(k as int), scope@);
                let ex2 = exported_students(sv.take(k + 1), scope@);
                assert(ex2 == ex.push(s@));
                let lines2 = roster_export_lines(sv.take(k + 1), scope@);
                assert(lines2 =~= prev_lines.push(csv_line(roster_fields(s@))));
                assert(lines2.drop_last() == prev_lines);
            }
            count += 1;
        } else {
            proof {
                assert(exported_students(sv.take(k + 1), scope@) == exported_students(
                    sv.take(k as int),
                    scope@,
                ));
            }
        }
        k += 1;
    }
    assert(sv.take(students@.len() as int) == sv);
    (string_of_seq(&out), count)
}

// ---------------------------------------------------------------------------
// Transfer package export
// ---------------------------------------------------------------------------

/// A student as a transfer package writes it; `active` is the stored flag.
pub struct PackageStudent {
    pub id: String,
    pub student_no: Option<String>,
    pub last_name: String,
    pub first_name: String,
    pub birth_date: Option<String>,
    pub active: i64,
    pub sort_order: i64,
    pub mark_set_mask: String,
}

pub struct PackageStudentModel {
    pub id: Seq<char>,
    pub student_no: Option<Seq<char>>,
    pub last_name: Seq<char>,
    pub first_name: Seq<char>,
    pub birth_date: Option<Seq<char>>,
    pub active: i64,
    pub sort_order: i64,
    pub mark_set_mask: Seq<char>,
}

impl View for PackageStudent {
    type V = PackageStudentModel;

    open spec fn view(&self) -> PackageStudentModel {
        PackageStudentModel {
            id: self.id@,
            student_no: opt_view(self.student_no),
            last_name: self.last_name@,
            first_name: self.first_name@,
            birth_date: opt_view(self.birth_date),
            active: self.active,
            sort_order: self.sort_order,
            mark_set_mask: self.mark_set_mask@,
        }
    }
}

/// The fields of a student in a package's student file: id, number, last
/// and first name, birth date (blank where there is none), active flag and
/// sort order in decimal, and membership mask.
pub open spec fn package_fields(s: PackageStudentModel) -> Seq<Seq<char>> {
    seq![
        s.id,
        or_blank(s.student_no),
        s.last_name,
        s.first_name,
        or_blank(s.birth_date),
        crate::num::int_decimal(s.active as int),
        crate::num::int_decimal(s.sort_order as int),
        s.mark_set_mask,
    ]
}

/// The lines of a package's student file: the header, then one line per
/// student.
pub open spec fn package_student_lines(students: Seq<PackageStudentModel>) -> Seq<Seq<char>> {
    seq![csv_line(roster_columns())] + students.map_values(|s: PackageStudentModel| csv_line(package_fields(s)))
}

/// The student file of a transfer package (see `package_student_lines`).
pub fn package_students_csv(students: &Vec<PackageStudent>) -> (r: String)
    ensures
        r@ == crate::text::join_lines(package_student_lines(students@.map_values(|s: PackageStudent| s@))),
{
    let ghost sv = students@.map_values(|s: PackageStudent| s@);
    let mut header: Vec<Vec<char>> = Vec::new();
    header.push(chars_of("student_id"));
    header.push(chars_of("student_no"));
    header.push(chars_of("last_name"));
    header.push(chars_of("first_name"));
    header.push(chars_of("birth_date"));
    header.push(chars_of("active"));
    header.push(chars_of("sort_order"));
    header.push(chars_of("mark_set_mask"));
    assert(header@.map_values(|f: Vec<char>| f@) =~= roster_columns());
    let mut out: Vec<char> = Vec::new();
    push_line(&mut out, &header);
    let ghost head_line = csv_line(roster_columns());
    assert(out@ == crate::text::join_lines(seq![head_line])) by {
        assert(seq![head_line].drop_last() =~= Seq::<Seq<char>>::empty());
        assert(seq![head_line].last() == head_line);
        assert(crate::text::join_lines(Seq::<Seq<char>>::empty()) == Seq::<char>::empty());
        assert(Seq::<char>::empty() + head_line + seq!['\n'] == head_line + seq!['\n']);
    }
    let mut k: usize = 0;
    assert(package_student_lines(sv.take(0)) =~= seq![head_line]);
    while k < students.len()
        invariant
            k <= students@.len(),
            sv == students@.map_values(|s: PackageStudent| s@),
            out@ == crate::text::join_lines(package_student_lines(sv.take(k as int))),
        decreases students@.len() - k,
    {
        let s = &students[k];
        let mut fields: Vec<Vec<char>> = Vec::new();
        fields.push(chars_of(s.id.as_str()));
        fields.push(chars_or_blank(&s.student_no));
        fields.push(chars_of(s.last_name.as_str()));
        fields.push(chars_of(s.first_name.as_str()));
        fields.push(chars_or_blank(&s.birth_date));
        fields.push(crate::num::i64_decimal(s.active));
        fields.push(crate::num::i64_decimal(s.sort_order));
        fields.push(chars_of(s.mark_set_mask.as_str()));
        assert(fields@.map_values(|f: Vec<char>| f@) =~= package_fields(s@));
        let ghost prev = package_student_lines(sv.take(k as int));
        push_line(&mut out, &fields);
        proof {
            assert(sv.take(k + 1) == sv.take(k as int).push(s@));
            let next = package_student_lines(sv.take(k + 1));
            assert(next =~= prev.push(csv_line(package_fields(s@))));
            assert(next.drop_last() == prev);
        }
        k += 1;
    }
    assert(sv.take(students@.len() as int) == sv);
    string_of_seq(&out)
}

// ---------------------------------------------------------------------------
// Transfer package layout
// ---------------------------------------------------------------------------

/// The format name that a transfer package's index entry records.
pub open spec fn package_format() -> Seq<char> {
    "mb-admin-transfer-v1"@
}

/// The data entries of a transfer package, in the order they are written
/// after its index entry: the students file; for each exported mark set
/// (by code) its assessments and scores files, and its comment sets where
/// comments are included; then the learning-skills grid where included.
pub open spec fn package_entries(codes: Seq<Seq<char>>, comments: bool, skills: bool) -> Seq<Seq<char>> {
    seq!["students.csv"@] + mark_set_entries(codes, comments) + if skills {
        seq!["learning-skills/grid.csv"@]
    } else {
        Seq::empty()
    }
}

pub open spec fn mark_set_entries(codes: Seq<Seq<char>>, comments: bool) -> Seq<Seq<char>>
    decreases codes.len(),
{
    if codes.len() == 0 {
        Seq::empty()
    } else {
        let c = codes.last();
        mark_set_entries(codes.drop_last(), comments) + seq![
            "marksets/"@ + c + "/assessments.csv"@,
            "marksets/"@ + c + "/scores.csv"@,
        ] + if comments {
            seq!["comments/"@ + c + "/sets.json"@]
        } else {
            Seq::empty()
        }
    }
}

proof fn lemma_mark_set_entries_len(codes: Seq<Seq<char>>, comments: bool)
    ensures
        mark_set_entries(codes, comments).len() == codes.len() * if comments {
            3int
        } else {
            2int
        },
    decreases codes.len(),
{
    if codes.len() > 0 {
        lemma_mark_set_entries_len(codes.drop_last(), comments);
        assert(codes.len() * (if comments {
            3int
        } else {
            2int
        }) == (codes.len() - 1) * (if comments {
            3int
        } else {
            2int
        }) + if comments {
            3int
        } else {
            2int
        }) by (nonlinear_arith);
    }
}

fn framed(head: &str, mid: &String, tail: &str) -> (r: String)
    ensures
        r@ == head@ + mid@ + tail@,
{
    let mut out = chars_of(head);
    append_chars(&mut out, chars_of(mid.as_str()).as_slice());
    append_chars(&mut out, chars_of(tail).as_slice());
    string_of_seq(&out)
}

/// The data entries of a transfer package (see `package_entries`); with
/// the index entry before them, their count is what the export reports as
/// written: two, then two or three per mark set, then one more with the
/// learning skills.
pub fn package_entry_names(codes: &Vec<String>, include_comments: bool, include_learning_skills: bool) -> (r: Vec<
    String,
>)
    ensures
        texts(r@) == package_entries(texts(codes@), include_comments, include_learning_skills),
        r@.len() + 1 == 2 + codes@.len() * (if include_comments {
            3int
        } else {
            2int
        }) + if include_learning_skills {
            1int
        } else {
            0int
        },
{
    let ghost cv = texts(codes@);
    let mut out: Vec<String> = Vec::new();
    out.push(String::from_str("students.csv"));
    let ghost head = texts(out@);
    assert(head =~= seq!["students.csv"@]);
    let mut i: usize = 0;
    assert(cv.take(0) =~= Seq::<Seq<char>>::empty());
    assert(head + mark_set_entries(cv.take(0), include_comments) =~= head);
    while i < codes.len()
        invariant
            i <= codes@.len(),
            cv == texts(codes@),
            head == seq!["students.csv"@],
            texts(out@) == head + mark_set_entries(cv.take(i as int), include_comments),
        decreases codes@.len() - i,
    {
        assert(cv.take(i + 1).drop_last() =~= cv.take(i as int));
        assert(cv.take(i + 1).last() == codes@[i as int]@);
        let ghost before = texts(out@);
        let a = framed("marksets/", &codes[i], "/assessments.csv");
        let b = framed("marksets/", &codes[i], "/scores.csv");
        let ghost av = a@;
        let ghost bv = b@;
        out.push(a);
        out.push(b);
        if include_comments {
            let c = framed("comments/", &codes[i], "/sets.json");
            let ghost ccv = c@;
            out.push(c);
            assert(texts(out@) =~= before + seq![av, bv] + seq![ccv]);
        } else {
            assert(texts(out@) =~= before + seq![av, bv] + Seq::<Seq<char>>::empty());
        }
        i += 1;
    }
    assert(cv.take(cv.len() as int) =~= cv);
    let ghost mid = texts(out@);
    if include_learning_skills {
        out.push(String::from_str("learning-skills/grid.csv"));
        assert(texts(out@) =~= mid + seq!["learning-skills/grid.csv"@]);
    } else {
        assert(texts(out@) =~= mid + Seq::<Seq<char>>::empty());
    }
    proof {
        lemma_mark_set_entries_len(cv, include_comments);
    }
    out
}

/// The mark sets a transfer package exports, by their position in the
/// class's order: where none are named, every one not deleted; else every
/// one named (deleted or not).
pub open spec fn package_mark_sets(ids: Seq<Seq<char>>, deleted: Seq<bool>, named: Seq<Seq<char>>) -> Seq<int>
    decreases ids.len(),
{
    if ids.len() == 0 {
        Seq::empty()
    } else {
        let p = package_mark_sets(ids.drop_last(), deleted.take(ids.len() - 1), named);
        let i = ids.len() - 1;
        if (named.len() == 0 && !deleted[i]) || (named.len() > 0 && named.contains(ids[i])) {
            p.push(i)
        } else {
            p
        }
    }
}

/// The mark-set ids a package export names: the texts of the list, where
/// the parameter is a list; none otherwise.
pub fn named_mark_set_ids(v: Option<&crate::params::ParamValue>) -> (r: Vec<String>)
    ensures
        texts(r@) == match v {
            Some(crate::params::ParamValue::List(items)) => crate::marksets::present_items(items@),
            _ => Seq::empty(),
        },
{
    match crate::marksets::parse_selected_ids(v) {
        Ok(Some(ids)) => {
            proof {
                assert(crate::marksets::texts_of(ids@) =~= texts(ids@));
            }
            ids
        },
        _ => {
            let e: Vec<String> = Vec::new();
            assert(texts(e@) =~= Seq::<Seq<char>>::empty());
            e
        },
    }
}

/// The mark sets a transfer package exports (see `package_mark_sets`).
pub fn pick_package_mark_sets(ids: &Vec<String>, deleted: &Vec<bool>, named: &Vec<String>) -> (r: Vec<usize>)
    requires
        ids@.len() == deleted@.len(),
    ensures
        r@.map_values(|i: usize| i as int) == package_mark_sets(texts(ids@), deleted@, texts(named@)),
{
    let ghost iv = texts(ids@);
    let ghost nv = texts(named@);
    let mut out: Vec<usize> = Vec::new();
    let mut i: usize = 0;
    assert(out@.map_values(|i: usize| i as int) =~= Seq::<int>::empty());
    while i < ids.len()
        invariant
            i <= ids@.len() == deleted@.len(),
            iv == texts(ids@),
            nv == texts(named@),
            out@.map_values(|i: usize| i as int) == package_mark_sets(
                iv.take(i as int),
                deleted@.take(i as int),
                nv,
            ),
        decreases ids@.len() - i,
    {
        assert(iv.take(i + 1).drop_last() =~= iv.take(i as int));
        assert(deleted@.take(i + 1).take(i as int) =~= deleted@.take(i as int));
        assert(iv.take(i + 1)[i as int] == ids@[i as int]@);
        let keep = if named.len() == 0 {
            !deleted[i]
        } else {
            contains_text(named, &ids[i])
        };
        if keep {
            let ghost before = out@;
            out.push(i);
            assert(out@.map_values(|i: usize| i as int) =~= before.map_values(|i: usize| i as int).push(i as int));
        }
        i += 1;
    }
    assert(iv.take(iv.len() as int) =~= iv);
    assert(deleted@.take(deleted@.len() as int) =~= deleted@);
    out
}

/// What a transfer package's index entry records: the format, version 1, the
/// time of the export, the class's id and name, and the code and
/// description of each exported mark set.
pub struct PackageIndex {
    pub format: String,
    pub version: i64,
    pub exported_at: u64,
    pub class_id: String,
    pub class_name: String,
    pub mark_sets: Vec<(String, String)>,
}

/// The index entry of a transfer package exported at `exported_at` (seconds
/// since the Unix epoch) for the class and its exported mark sets (codes
/// and descriptions, in order).
pub fn package_index(
    exported_at: u64,
    class_id: &str,
    class_name: &str,
    mark_sets: Vec<(String, String)>,
) -> (r: PackageIndex)
    ensures
        r.format@ == package_format(),
        r.version == 1,
        r.exported_at == exported_at,
        r.class_id@ == class_id@,
        r.class_name@ == class_name@,
        r.mark_sets@ == mark_sets@,
{
    PackageIndex {
        format: String::from_str("mb-admin-transfer-v1"),
        version: 1,
        exported_at,
        class_id: String::from_str(class_id),
        class_name: String::from_str(class_name),
        mark_sets,
    }
}

} // verus!
