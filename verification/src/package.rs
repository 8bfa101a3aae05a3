//! Reading a transfer package: the format its index entry names, and the
//! comment sets that each of its mark sets carries. Both entries are JSON
//! texts, read with serde_json.
use vstd::prelude::*;
use crate::integrations::{mark_set_entries, package_entries, package_format};
use crate::num::{nat_digits, u64_digits};
use crate::text::{
    append_chars, chars_eq, chars_eq_str, chars_of, ends_with, ends_with_chars, lemma_split_concat,
    lemma_split_without_sep, split_chars, split_on, starts_with, starts_with_chars, string_of_seq,
};

verus! {

/// What a JSON text holds at a place, as far as a package is read: no JSON
/// at all (with the parser's message), nothing at that place, a string, an
/// integer that fits `i64`, an array of so many items, or anything else.
pub enum JsonItem {
    Invalid(String),
    Absent,
    Text(String),
    Int(i64),
    List(usize),
    Other,
}

pub enum JsonItemModel {
    Invalid(Seq<char>),
    Absent,
    Text(Seq<char>),
    Int(i64),
    List(nat),
    Other,
}

impl View for JsonItem {
    type V = JsonItemModel;

    open spec fn view(&self) -> JsonItemModel {
        match self {
            JsonItem::Invalid(m) => JsonItemModel::Invalid(m@),
            JsonItem::Absent => JsonItemModel::Absent,
            JsonItem::Text(s) => JsonItemModel::Text(s@),
            JsonItem::Int(n) => JsonItemModel::Int(*n),
            JsonItem::List(n) => JsonItemModel::List(*n as nat),
            JsonItem::Other => JsonItemModel::Other,
        }
    }
}

/// What serde_json finds when it parses `text` into a `Value` and looks up
/// the JSON Pointer `pointer` in it.
pub uninterp spec fn json_value_at(text: Seq<char>, pointer: Seq<char>) -> JsonItemModel;

/// `serde_json::from_str::<Value>(text)`, then `Value::pointer(pointer)`:
/// the parser's error message where the text is no JSON; else the value
/// found, told apart by kind (`as_i64` for a number). The contract names the
/// outcome `json_value_at` of the text and the pointer and claims nothing
/// more of it.
#[verifier::external_body]
fn json_value_at_of(text: &str, pointer: &str) -> (r: JsonItem)
    ensures
        r@ == json_value_at(text@, pointer@),
{
    let v: serde_json::Value = match serde_json::from_str(text) {
        Ok(v) => v,
        Err(e) => return JsonItem::Invalid(e.to_string()),
    };
    match v.pointer(pointer) {
        None => JsonItem::Absent,
        Some(serde_json::Value::String(s)) => JsonItem::Text(s.clone()),
        Some(serde_json::Value::Array(a)) => JsonItem::List(a.len()),
        Some(x) => match x.as_i64() {
            Some(n) => JsonItem::Int(n),
            None => JsonItem::Other,
        },
    }
}

pub open spec fn unit_result_view(r: Result<(), String>) -> Result<(), Seq<char>> {
    match r {
        Ok(_) => Ok(()),
        Err(e) => Err(e@),
    }
}

/// The answer to a package index whose `format` field is `item`: the
/// parser's message where the index is no JSON; accepted where the field is
/// the format this library writes; else refused, naming the format found
/// (nothing where the field is no string).
pub open spec fn index_check(item: JsonItemModel) -> Result<(), Seq<char>> {
    match item {
        JsonItemModel::Invalid(m) => Err(m),
        JsonItemModel::Text(f) => if f == package_format() {
            Ok(())
        } else {
            Err("unsupported package format: "@ + f)
        },
        _ => Err("unsupported package format: "@),
    }
}

fn format_refusal(found: &str) -> (r: String)
    ensures
        r@ == "unsupported package format: "@ + found@,
{
    let mut v = chars_of("unsupported package format: ");
    append_chars(&mut v, chars_of(found).as_slice());
    string_of_seq(&v)
}

/// The answer to a package index whose `format` field is `item` (see
/// `index_check`).
pub fn package_index_check(item: &JsonItem) -> (r: Result<(), String>)
    ensures
        unit_result_view(r) == index_check(item@),
{
    match item {
        JsonItem::Invalid(m) => Err(string_of_seq(&chars_of(m.as_str()))),
        JsonItem::Text(f) => {
            let fc = chars_of(f.as_str());
            if chars_eq_str(fc.as_slice(), "mb-admin-transfer-v1") {
                Ok(())
            } else {
                Err(format_refusal(f.as_str()))
            }
        },
        _ => {
            proof {
                reveal_strlit("");
            }
            assert("unsupported package format: "@ + ""@ =~= "unsupported package format: "@);
            Err(format_refusal(""))
        },
    }
}

/// Reads a transfer package's index entry: accepted exactly where it is
/// JSON whose `format` field is the format this library writes; refused with
/// the parser's message, or with the format found.
pub fn check_package_index(index_text: &str) -> (r: Result<(), String>)
    ensures
        r is Ok <==> (json_value_at(index_text@, "/format"@) matches JsonItemModel::Text(f) && f
            == package_format()),
        unit_result_view(r) == index_check(json_value_at(index_text@, "/format"@)),
{
    let item = json_value_at_of(index_text, "/format");
    package_index_check(&item)
}


// ---------------------------------------------------------------------------
// Comment sets
// ---------------------------------------------------------------------------

pub open spec fn json_text(x: JsonItemModel) -> Option<Seq<char>> {
    match x {
        JsonItemModel::Text(s) => Some(s),
        _ => None,
    }
}

pub open spec fn json_int(x: JsonItemModel) -> Option<i64> {
    match x {
        JsonItemModel::Int(n) => Some(n),
        _ => None,
    }
}

/// The number of items of an array; 0 for anything else.
pub open spec fn json_len(x: JsonItemModel) -> nat {
    match x {
        JsonItemModel::List(n) => n,
        _ => 0,
    }
}

/// The JSON Pointer to field `key` of comment set `i`.
pub open spec fn set_pointer(i: nat, key: Seq<char>) -> Seq<char> {
    "/sets/"@ + nat_digits(i) + "/"@ + key
}

/// The JSON Pointer to field `key` of remark `j` of comment set `i`.
pub open spec fn remark_pointer(i: nat, j: nat, key: Seq<char>) -> Seq<char> {
    "/sets/"@ + nat_digits(i) + "/remarks/"@ + nat_digits(j) + "/"@ + key
}

/// The fields of one comment set of a package, each where the entry holds it
/// with the right kind: the set's number, title, three limits and bank name,
/// and the student id and text of each of its remarks.
pub struct CommentSetFields {
    pub set_number: Option<i64>,
    pub title: Option<String>,
    pub max_chars: Option<i64>,
    pub fit_width: Option<i64>,
    pub fit_lines: Option<i64>,
    pub bank_short: Option<String>,
    pub remarks: Vec<(Option<String>, Option<String>)>,
}

pub struct CommentSetFieldsModel {
    pub set_number: Option<i64>,
    pub title: Option<Seq<char>>,
    pub max_chars: Option<i64>,
    pub fit_width: Option<i64>,
    pub fit_lines: Option<i64>,
    pub bank_short: Option<Seq<char>>,
    pub remarks: Seq<(Option<Seq<char>>, Option<Seq<char>>)>,
}

pub open spec fn opt_text_view(o: Option<String>) -> Option<Seq<char>> {
    match o {
        Some(s) => Some(s@),
        None => None,
    }
}

pub open spec fn pair_view(p: (Option<String>, Option<String>)) -> (Option<Seq<char>>, Option<Seq<char>>) {
    (opt_text_view(p.0), opt_text_view(p.1))
}

impl View for CommentSetFields {
    type V = CommentSetFieldsModel;

    open spec fn view(&self) -> CommentSetFieldsModel {
        CommentSetFieldsModel {
            set_number: self.set_number,
            title: opt_text_view(self.title),
            max_chars: self.max_chars,
            fit_width: self.fit_width,
            fit_lines: self.fit_lines,
            bank_short: opt_text_view(self.bank_short),
            remarks: self.remarks@.map_values(|p: (Option<String>, Option<String>)| pair_view(p)),
        }
    }
}

/// A comment set as the import keeps it.
pub struct SourceCommentSetRow {
    pub set_number: i64,
    pub title: String,
    pub max_chars: i64,
    pub fit_width: i64,
    pub fit_lines: i64,
    pub bank_short: Option<String>,
    pub remarks: Vec<(String, String)>,
}

pub struct SourceCommentSetModel {
    pub set_number: i64,
    pub title: Seq<char>,
    pub max_chars: i64,
    pub fit_width: i64,
    pub fit_lines: i64,
    pub bank_short: Option<Seq<char>>,
    pub remarks: Seq<(Seq<char>, Seq<char>)>,
}

impl View for SourceCommentSetRow {
    type V = SourceCommentSetModel;

    open spec fn view(&self) -> SourceCommentSetModel {
        SourceCommentSetModel {
            set_number: self.set_number,
            title: self.title@,
            max_chars: self.max_chars,
            fit_width: self.fit_width,
            fit_lines: self.fit_lines,
            bank_short: opt_text_view(self.bank_short),
            remarks: self.remarks@.map_values(|p: (String, String)| (p.0@, p.1@)),
        }
    }
}

/// The remarks that have both a student id and a text, in order.
pub open spec fn remark_pairs(ps: Seq<(Option<Seq<char>>, Option<Seq<char>>)>) -> Seq<(Seq<char>, Seq<char>)>
    decreases ps.len(),
{
    if ps.len() == 0 {
        Seq::empty()
    } else {
        let rest = remark_pairs(ps.drop_last());
        match ps.last() {
            (Some(a), Some(b)) => rest.push((a, b)),
            _ => rest,
        }
    }
}

/// A comment set kept from its fields: none without a set number; else an
/// empty title, 600 characters, a fit width of 50 and one line where the
/// entry gives none, and its complete remarks.
pub open spec fn comment_set_row(f: CommentSetFieldsModel) -> Option<SourceCommentSetModel> {
    match f.set_number {
        None => None,
        Some(n) => Some(
            SourceCommentSetModel {
                set_number: n,
                title: match f.title {
                    Some(t) => t,
                    None => Seq::empty(),
                },
                max_chars: match f.max_chars {
                    Some(m) => m,
                    None => 600,
                },
                fit_width: match f.fit_width {
                    Some(m) => m,
                    None => 50,
                },
                fit_lines: match f.fit_lines {
                    Some(m) => m,
                    None => 1,
                },
                bank_short: f.bank_short,
                remarks: remark_pairs(f.remarks),
            },
        ),
    }
}

/// The comment sets kept from their fields, in order.
pub open spec fn comment_set_rows(fs: Seq<CommentSetFieldsModel>) -> Seq<SourceCommentSetModel>
    decreases fs.len(),
{
    if fs.len() == 0 {
        Seq::empty()
    } else {
        let rest = comment_set_rows(fs.drop_last());
        match comment_set_row(fs.last()) {
            Some(r) => rest.push(r),
            None => rest,
        }
    }
}

fn copy_text(s: &String) -> (r: String)
    ensures
        r@ == s@,
{
    string_of_seq(&chars_of(s.as_str()))
}

fn copy_opt_text(o: &Option<String>) -> (r: Option<String>)
    ensures
        opt_text_view(r) == opt_text_view(*o),
{
    match o {
        Some(s) => Some(copy_text(s)),
        None => None,
    }
}

fn complete_remarks(ps: &Vec<(Option<String>, Option<String>)>) -> (r: Vec<(String, String)>)
    ensures
        r@.map_values(|p: (String, String)| (p.0@, p.1@)) == remark_pairs(
            ps@.map_values(|p: (Option<String>, Option<String>)| pair_view(p)),
        ),
{
    let ghost pv = ps@.map_values(|p: (Option<String>, Option<String>)| pair_view(p));
    let mut out: Vec<(String, String)> = Vec::new();
    let mut k: usize = 0;
    assert(pv.take(0) =~= Seq::<(Option<Seq<char>>, Option<Seq<char>>)>::empty());
    assert(out@.map_values(|p: (String, String)| (p.0@, p.1@)) =~= remark_pairs(pv.take(0)));
    while k < ps.len()
        invariant
            k <= ps@.len(),
            pv == ps@.map_values(|p: (Option<String>, Option<String>)| pair_view(p)),
            out@.map_values(|p: (String, String)| (p.0@, p.1@)) == remark_pairs(pv.take(k as int)),
        decreases ps@.len() - k,
    {
        let ghost before = out@.map_values(|p: (String, String)| (p.0@, p.1@));
        assert(pv.take(k + 1).drop_last() =~= pv.take(k as int));
        assert(pv.take(k + 1).last() == pair_view(ps@[k as int]));
        match &ps[k] {
            (Some(a), Some(b)) => {
                out.push((copy_text(a), copy_text(b)));
                assert(out@.map_values(|p: (String, String)| (p.0@, p.1@)) =~= before.push((a@, b@)));
            },
            _ => {},
        }
        k += 1;
    }
    assert(pv.take(ps@.len() as int) =~= pv);
    out
}

fn comment_set_row_of(f: &CommentSetFields) -> (r: Option<SourceCommentSetRow>)
    ensures
        match r {
            Some(x) => comment_set_row(f@) == Some(x@),
            None => comment_set_row(f@) is None,
        },
{
    match f.set_number {
        None => None,
        Some(n) => {
            let title = match &f.title {
                Some(t) => copy_text(t),
                None => String::new(),
            };
            let max_chars = match f.max_chars {
                Some(m) => m,
                None => 600,
            };
            let fit_width = match f.fit_width {
                Some(m) => m,
                None => 50,
            };
            let fit_lines = match f.fit_lines {
                Some(m) => m,
                None => 1,
            };
            let x = SourceCommentSetRow {
                set_number: n,
                title,
                max_chars,
                fit_width,
                fit_lines,
                bank_short: copy_opt_text(&f.bank_short),
                remarks: complete_remarks(&f.remarks),
            };
            assert(x@.title == comment_set_row(f@).unwrap().title);
            Some(x)
        },
    }
}

/// The comment sets that an import keeps of a mark set, from the fields the
/// package gives for each (see `comment_set_row`), in order.
pub fn source_comment_sets(fields: &Vec<CommentSetFields>) -> (r: Vec<SourceCommentSetRow>)
    ensures
        r@.map_values(|x: SourceCommentSetRow| x@) == comment_set_rows(
            fields@.map_values(|f: CommentSetFields| f@),
        ),
{
    let ghost fv = fields@.map_values(|f: CommentSetFields| f@);
    let mut out: Vec<SourceCommentSetRow> = Vec::new();
    let mut k: usize = 0;
    assert(fv.take(0) =~= Seq::<CommentSetFieldsModel>::empty());
    assert(out@.map_values(|x: SourceCommentSetRow| x@) =~= comment_set_rows(fv.take(0)));
    while k < fields.len()
        invariant
            k <= fields@.len(),
            fv == fields@.map_values(|f: CommentSetFields| f@),
            out@.map_values(|x: SourceCommentSetRow| x@) == comment_set_rows(fv.take(k as int)),
        decreases fields@.len() - k,
    {
        let ghost before = out@.map_values(|x: SourceCommentSetRow| x@);
        assert(fv.take(k + 1).drop_last() =~= fv.take(k as int));
        assert(fv.take(k + 1).last() == fields@[k as int]@);
        match comment_set_row_of(&fields[k]) {
            Some(x) => {
                let ghost xv = x@;
                out.push(x);
                assert(out@.map_values(|x: SourceCommentSetRow| x@) =~= before.push(xv));
            },
            None => {},
        }
        k += 1;
    }
    assert(fv.take(fields@.len() as int) =~= fv);
    out
}


/// The fields of comment set `i` of a mark set's comment entry `t`.
pub open spec fn set_fields(t: Seq<char>, i: nat) -> CommentSetFieldsModel {
    CommentSetFieldsModel {
        set_number: json_int(json_value_at(t, set_pointer(i, "setNumber"@))),
        title: json_text(json_value_at(t, set_pointer(i, "title"@))),
        max_chars: json_int(json_value_at(t, set_pointer(i, "maxChars"@))),
        fit_width: json_int(json_value_at(t, set_pointer(i, "fitWidth"@))),
        fit_lines: json_int(json_value_at(t, set_pointer(i, "fitLines"@))),
        bank_short: json_text(json_value_at(t, set_pointer(i, "bankShort"@))),
        remarks: Seq::new(
            json_len(json_value_at(t, set_pointer(i, "remarks"@))),
            |j: int|
                (
                    json_text(json_value_at(t, remark_pointer(i, j as nat, "studentId"@))),
                    json_text(json_value_at(t, remark_pointer(i, j as nat, "remark"@))),
                ),
        ),
    }
}

/// The fields of each comment set of a mark set's comment entry `t`: one for
/// each item of its `sets` array, none where there is no such array.
pub open spec fn comment_set_fields(t: Seq<char>) -> Seq<CommentSetFieldsModel> {
    Seq::new(json_len(json_value_at(t, "/sets"@)), |i: int| set_fields(t, i as nat))
}

fn set_pointer_of(i: usize, key: &str) -> (r: String)
    ensures
        r@ == set_pointer(i as nat, key@),
{
    let mut v = chars_of("/sets/");
    append_chars(&mut v, u64_digits(i as u64).as_slice());
    append_chars(&mut v, chars_of("/").as_slice());
    append_chars(&mut v, chars_of(key).as_slice());
    string_of_seq(&v)
}

fn remark_pointer_of(i: usize, j: usize, key: &str) -> (r: String)
    ensures
        r@ == remark_pointer(i as nat, j as nat, key@),
{
    let mut v = chars_of("/sets/");
    append_chars(&mut v, u64_digits(i as u64).as_slice());
    append_chars(&mut v, chars_of("/remarks/").as_slice());
    append_chars(&mut v, u64_digits(j as u64).as_slice());
    append_chars(&mut v, chars_of("/").as_slice());
    append_chars(&mut v, chars_of(key).as_slice());
    string_of_seq(&v)
}

fn item_text(x: JsonItem) -> (r: Option<String>)
    ensures
        opt_text_view(r) == json_text(x@),
{
    match x {
        JsonItem::Text(s) => Some(s),
        _ => None,
    }
}

fn item_int(x: JsonItem) -> (r: Option<i64>)
    ensures
        r == json_int(x@),
{
    match x {
        JsonItem::Int(n) => Some(n),
        _ => None,
    }
}

fn item_len(x: JsonItem) -> (r: usize)
    ensures
        r == json_len(x@),
{
    match x {
        JsonItem::List(n) => n,
        _ => 0,
    }
}

fn set_text(text: &str, i: usize, key: &str) -> (r: Option<String>)
    ensures
        opt_text_view(r) == json_text(json_value_at(text@, set_pointer(i as nat, key@))),
{
    item_text(json_value_at_of(text, set_pointer_of(i, key).as_str()))
}

fn set_int(text: &str, i: usize, key: &str) -> (r: Option<i64>)
    ensures
        r == json_int(json_value_at(text@, set_pointer(i as nat, key@))),
{
    item_int(json_value_at_of(text, set_pointer_of(i, key).as_str()))
}

fn remark_text(text: &str, i: usize, j: usize, key: &str) -> (r: Option<String>)
    ensures
        opt_text_view(r) == json_text(json_value_at(text@, remark_pointer(i as nat, j as nat, key@))),
{
    item_text(json_value_at_of(text, remark_pointer_of(i, j, key).as_str()))
}

fn set_fields_of(text: &str, i: usize) -> (r: CommentSetFields)
    ensures
        r@ == set_fields(text@, i as nat),
{
    let n = item_len(json_value_at_of(text, set_pointer_of(i, "remarks").as_str()));
    let ghost want = set_fields(text@, i as nat).remarks;
    let mut remarks: Vec<(Option<String>, Option<String>)> = Vec::new();
    let mut j: usize = 0;
    while j < n
        invariant
            j <= n,
            n == want.len(),
            want == set_fields(text@, i as nat).remarks,
            remarks@.map_values(|p: (Option<String>, Option<String>)| pair_view(p)) == want.take(j as int),
        decreases n - j,
    {
        let ghost before = remarks@.map_values(|p: (Option<String>, Option<String>)| pair_view(p));
        let a = remark_text(text, i, j, "studentId");
        let b = remark_text(text, i, j, "remark");
        let ghost pv = pair_view((a, b));
        remarks.push((a, b));
        assert(remarks@.map_values(|p: (Option<String>, Option<String>)| pair_view(p)) =~= before.push(pv));
        assert(want.take(j + 1) =~= want.take(j as int).push(want[j as int]));
        j += 1;
    }
    assert(want.take(n as int) =~= want);
    let r = CommentSetFields {
        set_number: set_int(text, i, "setNumber"),
        title: set_text(text, i, "title"),
        max_chars: set_int(text, i, "maxChars"),
        fit_width: set_int(text, i, "fitWidth"),
        fit_lines: set_int(text, i, "fitLines"),
        bank_short: set_text(text, i, "bankShort"),
        remarks,
    };
    assert(r@.remarks =~= want);
    r
}

/// The fields of each comment set of a mark set's comment entry `text`
/// (see `comment_set_fields`).
pub fn comment_set_fields_of(text: &str) -> (r: Vec<CommentSetFields>)
    ensures
        r@.map_values(|f: CommentSetFields| f@) == comment_set_fields(text@),
{
    let n = item_len(json_value_at_of(text, "/sets"));
    let ghost want = comment_set_fields(text@);
    let mut out: Vec<CommentSetFields> = Vec::new();
    let mut i: usize = 0;
    while i < n
        invariant
            i <= n,
            n == want.len(),
            want == comment_set_fields(text@),
            out@.map_values(|f: CommentSetFields| f@) == want.take(i as int),
        decreases n - i,
    {
        let ghost before = out@.map_values(|f: CommentSetFields| f@);
        let f = set_fields_of(text, i);
        let ghost fv = f@;
        out.push(f);
        assert(out@.map_values(|f: CommentSetFields| f@) =~= before.push(fv));
        assert(want.take(i + 1) =~= want.take(i as int).push(want[i as int]));
        i += 1;
    }
    assert(want.take(n as int) =~= want);
    out
}

/// The comment sets that an import keeps of a mark set whose comment entry
/// is `text`.
pub fn read_comment_sets(text: &str) -> (r: Vec<SourceCommentSetRow>)
    ensures
        r@.map_values(|x: SourceCommentSetRow| x@) == comment_set_rows(comment_set_fields(text@)),
{
    let fields = comment_set_fields_of(text);
    source_comment_sets(&fields)
}


// ---------------------------------------------------------------------------
// Mark sets of a package
// ---------------------------------------------------------------------------

/// The mark set code that an entry name gives: the second piece of a name
/// `marksets/<code>/.../assessments.csv`.
pub open spec fn entry_code(name: Seq<char>) -> Option<Seq<char>> {
    if starts_with(name, "marksets/"@) && ends_with(name, "/assessments.csv"@) && split_on(name, '/').len()
        >= 3 {
        Some(split_on(name, '/')[1])
    } else {
        None
    }
}

/// The mark set codes that the entry names give, each once, in the order in
/// which they first appear.
pub open spec fn codes_from(names: Seq<Seq<char>>) -> Seq<Seq<char>>
    decreases names.len(),
{
    if names.len() == 0 {
        Seq::empty()
    } else {
        let rest = codes_from(names.drop_last());
        match entry_code(names.last()) {
            Some(c) => if rest.contains(c) {
                rest
            } else {
                rest.push(c)
            },
            None => rest,
        }
    }
}

fn entry_code_of(name: &String) -> (r: Option<String>)
    ensures
        opt_text_view(r) == entry_code(name@),
{
    let c = chars_of(name.as_str());
    if starts_with_chars(c.as_slice(), chars_of("marksets/").as_slice()) && ends_with_chars(
        c.as_slice(),
        chars_of("/assessments.csv").as_slice(),
    ) {
        let parts = split_chars(c.as_slice(), '/');
        if parts.len() >= 3 {
            return Some(string_of_seq(&parts[1]));
        }
    }
    None
}

fn has_text(v: &Vec<String>, c: &String) -> (r: bool)
    ensures
        r <==> v@.map_values(|x: String| x@).contains(c@),
{
    let ghost vv = v@.map_values(|x: String| x@);
    let cc = chars_of(c.as_str());
    let mut k: usize = 0;
    while k < v.len()
        invariant
            k <= v@.len(),
            vv == v@.map_values(|x: String| x@),
            cc@ == c@,
            forall|q: int| 0 <= q < k ==> vv[q] != c@,
        decreases v@.len() - k,
    {
        let x = chars_of(v[k].as_str());
        if chars_eq(x.as_slice(), cc.as_slice()) {
            assert(vv[k as int] == c@);
            return true;
        }
        k += 1;
    }
    false
}

/// The mark set codes of a package whose entries have the names `names`
/// (see `codes_from`).
pub fn package_mark_set_codes(names: &Vec<String>) -> (r: Vec<String>)
    ensures
        r@.map_values(|x: String| x@) == codes_from(names@.map_values(|x: String| x@)),
{
    let ghost nv = names@.map_values(|x: String| x@);
    let mut out: Vec<String> = Vec::new();
    let mut k: usize = 0;
    assert(nv.take(0) =~= Seq::<Seq<char>>::empty());
    assert(out@.map_values(|x: String| x@) =~= codes_from(nv.take(0)));
    while k < names.len()
        invariant
            k <= names@.len(),
            nv == names@.map_values(|x: String| x@),
            out@.map_values(|x: String| x@) == codes_from(nv.take(k as int)),
        decreases names@.len() - k,
    {
        let ghost before = out@.map_values(|x: String| x@);
        assert(nv.take(k + 1).drop_last() =~= nv.take(k as int));
        assert(nv.take(k + 1).last() == names@[k as int]@);
        match entry_code_of(&names[k]) {
            Some(c) => {
                if !has_text(&out, &c) {
                    let ghost cv = c@;
                    out.push(c);
                    assert(out@.map_values(|x: String| x@) =~= before.push(cv));
                }
            },
            None => {},
        }
        k += 1;
    }
    assert(nv.take(names@.len() as int) =~= nv);
    out
}


// ---------------------------------------------------------------------------
// What the export writes, the import reads back
// ---------------------------------------------------------------------------

/// The name of a mark set's assessments entry gives back its code.
proof fn lemma_assessments_entry_code(c: Seq<char>)
    requires
        !c.contains('/'),
    ensures
        entry_code("marksets/"@ + c + "/assessments.csv"@) == Some(c),
{
    reveal_strlit("marksets/");
    reveal_strlit("/assessments.csv");
    reveal_strlit("marksets");
    reveal_strlit("assessments.csv");
    let name = "marksets/"@ + c + "/assessments.csv"@;
    let head = "marksets"@;
    let tail = "assessments.csv"@;
    assert(name.take(9) =~= "marksets/"@);
    assert(name.skip(name.len() - 16) =~= "/assessments.csv"@);
    assert(name =~= (head + seq!['/'] + c) + seq!['/'] + tail);
    lemma_split_concat(head + seq!['/'] + c, tail, '/');
    lemma_split_concat(head, c, '/');
    assert(!head.contains('/')) by {
        if head.contains('/') {
            let i = choose|i: int| 0 <= i < head.len() && head[i] == '/';
            assert(false);
        }
    }
    assert(!tail.contains('/')) by {
        if tail.contains('/') {
            let i = choose|i: int| 0 <= i < tail.len() && tail[i] == '/';
            assert(false);
        }
    }
    lemma_split_without_sep(head, '/');
    lemma_split_without_sep(c, '/');
    lemma_split_without_sep(tail, '/');
    assert(split_on(name, '/') =~= seq![head, c, tail]);
}

proof fn lemma_other_entries_give_no_code(c: Seq<char>)
    ensures
        entry_code("marksets/"@ + c + "/scores.csv"@) is None,
        entry_code("comments/"@ + c + "/sets.json"@) is None,
        entry_code("students.csv"@) is None,
        entry_code("learning-skills/grid.csv"@) is None,
{
    reveal_strlit("marksets/");
    reveal_strlit("/assessments.csv");
    reveal_strlit("/scores.csv");
    reveal_strlit("comments/");
    reveal_strlit("students.csv");
    reveal_strlit("learning-skills/grid.csv");
    let s = "marksets/"@ + c + "/scores.csv"@;
    assert(s[s.len() - 6] == 'e');
    assert(s.skip(s.len() - 16)[10] == 'e');
    assert("/assessments.csv"@[10] == 't');
    assert(s.skip(s.len() - 16) != "/assessments.csv"@);
    let m = "comments/"@ + c + "/sets.json"@;
    assert(m.take(9) != "marksets/"@) by {
        assert(m.take(9)[0] == 'c');
        assert("marksets/"@[0] == 'm');
    }
    assert("students.csv"@.take(9) != "marksets/"@) by {
        assert("students.csv"@.take(9)[0] == 's');
    }
    assert("learning-skills/grid.csv"@.take(9) != "marksets/"@) by {
        assert("learning-skills/grid.csv"@.take(9)[0] == 'l');
    }
}

proof fn lemma_codes_from_push(names: Seq<Seq<char>>, x: Seq<char>)
    ensures
        codes_from(names.push(x)) == match entry_code(x) {
            Some(c) => if codes_from(names).contains(c) {
                codes_from(names)
            } else {
                codes_from(names).push(c)
            },
            None => codes_from(names),
        },
{
    assert(names.push(x).drop_last() =~= names);
}

proof fn lemma_codes_from_entries(p: Seq<Seq<char>>, codes: Seq<Seq<char>>, comments: bool)
    requires
        codes_from(p) == Seq::<Seq<char>>::empty(),
        forall|i: int| 0 <= i < codes.len() ==> !(#[trigger] codes[i]).contains('/'),
        forall|i: int, j: int| 0 <= i < j < codes.len() ==> codes[i] != codes[j],
    ensures
        codes_from(p + mark_set_entries(codes, comments)) == codes,
    decreases codes.len(),
{
    if codes.len() == 0 {
        assert(p + mark_set_entries(codes, comments) =~= p);
        assert(codes =~= Seq::<Seq<char>>::empty());
    } else {
        let c = codes.last();
        let rest = codes.drop_last();
        lemma_codes_from_entries(p, rest, comments);
        let x = p + mark_set_entries(rest, comments);
        let a = "marksets/"@ + c + "/assessments.csv"@;
        let b = "marksets/"@ + c + "/scores.csv"@;
        let m = "comments/"@ + c + "/sets.json"@;
        assert(!c.contains('/')) by {
            assert(codes[codes.len() - 1] == c);
        }
        lemma_assessments_entry_code(c);
        lemma_other_entries_give_no_code(c);
        assert(!rest.contains(c)) by {
            if rest.contains(c) {
                let i = choose|i: int| 0 <= i < rest.len() && rest[i] == c;
                assert(codes[i] == codes[codes.len() - 1]);
            }
        }
        lemma_codes_from_push(x, a);
        lemma_codes_from_push(x.push(a), b);
        assert(rest.push(c) =~= codes);
        if comments {
            lemma_codes_from_push(x.push(a).push(b), m);
            assert(p + mark_set_entries(codes, comments) =~= x.push(a).push(b).push(m));
        } else {
            assert(p + mark_set_entries(codes, comments) =~= x.push(a).push(b));
        }
    }
}

/// An import reads back the mark set codes that an export writes: the entry
/// names of a package exported with distinct codes, none holding a `/`, give
/// back those codes, in order.
pub proof fn law_package_codes_read_back(codes: Seq<Seq<char>>, comments: bool, skills: bool)
    requires
        forall|i: int| 0 <= i < codes.len() ==> !(#[trigger] codes[i]).contains('/'),
        forall|i: int, j: int| 0 <= i < j < codes.len() ==> codes[i] != codes[j],
    ensures
        codes_from(package_entries(codes, comments, skills)) == codes,
{
    let p = seq!["students.csv"@];
    lemma_other_entries_give_no_code(Seq::empty());
    lemma_codes_from_push(Seq::empty(), "students.csv"@);
    assert(Seq::<Seq<char>>::empty().push("students.csv"@) =~= p);
    assert(codes_from(Seq::<Seq<char>>::empty()) == Seq::<Seq<char>>::empty());
    lemma_codes_from_entries(p, codes, comments);
    let x = p + mark_set_entries(codes, comments);
    if skills {
        lemma_codes_from_push(x, "learning-skills/grid.csv"@);
        assert(package_entries(codes, comments, skills) =~= x.push("learning-skills/grid.csv"@));
    } else {
        assert(package_entries(codes, comments, skills) =~= x);
    }
}

} // verus!
