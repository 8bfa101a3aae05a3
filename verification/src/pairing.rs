//! How the per-student parts of a legacy class's files are paired with the
//! class's students when it is imported: the files list students by
//! position, and a student beyond the class or a blank entry is left out.
use vstd::prelude::*;
use crate::legacy::{ParsedTbkItem, TbkItemModel};
use crate::text::{chars_of, string_of_seq, trim, trim_chars};

verus! {

/// The text at position `i`, or blank past the end.
pub open spec fn text_at(texts: Seq<Seq<char>>, i: int) -> Seq<char> {
    if 0 <= i < texts.len() {
        texts[i]
    } else {
        Seq::empty()
    }
}

/// For the first `k` students: each student's position and text trimmed,
/// where that is not blank.
pub open spec fn texts_upto(texts: Seq<Seq<char>>, k: nat) -> Seq<(int, Seq<char>)>
    decreases k,
{
    if k == 0 {
        Seq::empty()
    } else {
        let p = texts_upto(texts, (k - 1) as nat);
        let t = trim(text_at(texts, k - 1));
        if t.len() > 0 {
            p.push((k - 1, t))
        } else {
            p
        }
    }
}

pub open spec fn min_nat(a: nat, b: nat) -> nat {
    if a < b {
        a
    } else {
        b
    }
}

pub open spec fn texts_of(v: Seq<String>) -> Seq<Seq<char>> {
    v.map_values(|s: String| s@)
}

pub open spec fn pairs_view(v: Seq<(usize, String)>) -> Seq<(int, Seq<char>)> {
    v.map_values(|p: (usize, String)| (p.0 as int, p.1@))
}

fn text_or_blank(texts: &Vec<String>, i: usize) -> (r: Vec<char>)
    ensures
        r@ == trim(text_at(texts_of(texts@), i as int)),
{
    if i < texts.len() {
        trim_chars(chars_of(texts[i].as_str()).as_slice())
    } else {
        let e: Vec<char> = Vec::new();
        proof {
            crate::text::lemma_trim_no_ws(e@);
        }
        e
    }
}

/// The texts of the first `k` students (see `texts_upto`).
pub fn pair_texts_upto(texts: &Vec<String>, k: usize) -> (r: Vec<(usize, String)>)
    ensures
        pairs_view(r@) == texts_upto(texts_of(texts@), k as nat),
{
    let mut out: Vec<(usize, String)> = Vec::new();
    let mut i: usize = 0;
    assert(pairs_view(out@) =~= Seq::<(int, Seq<char>)>::empty());
    while i < k
        invariant
            i <= k,
            pairs_view(out@) == texts_upto(texts_of(texts@), i as nat),
        decreases k - i,
    {
        let t = text_or_blank(texts, i);
        if t.len() > 0 {
            let ghost before = out@;
            out.push((i, string_of_seq(&t)));
            assert(pairs_view(out@) =~= pairs_view(before).push((i as int, t@)));
        }
        i += 1;
    }
    out
}

/// The per-student texts of a file (notes, report-card remarks) paired
/// with a class of `n_students`: each student up to the fewer of the class
/// and the file, with the text trimmed, where it is not blank.
pub fn pair_student_texts(texts: &Vec<String>, n_students: usize) -> (r: Vec<(usize, String)>)
    ensures
        pairs_view(r@) == texts_upto(texts_of(texts@), min_nat(n_students as nat, texts@.len())),
{
    let k = if n_students < texts.len() {
        n_students
    } else {
        texts.len()
    };
    pair_texts_upto(texts, k)
}

/// One remark of a remarks file: the entry (assessment) position, the
/// student position and the remark.
pub struct RemarkCell {
    pub entry: usize,
    pub student: usize,
    pub remark: String,
}

pub open spec fn cells_view(v: Seq<RemarkCell>) -> Seq<(int, int, Seq<char>)> {
    v.map_values(|c: RemarkCell| (c.entry as int, c.student as int, c.remark@))
}

/// The remarks of the first `e` entries, each paired with the first `k`
/// students (see `texts_upto`).
pub open spec fn cells_upto(rows: Seq<Seq<Seq<char>>>, e: nat, k: nat) -> Seq<(int, int, Seq<char>)>
    decreases e,
{
    if e == 0 {
        Seq::empty()
    } else {
        cells_upto(rows, (e - 1) as nat, k) + texts_upto(rows[e - 1], k).map_values(
            |p: (int, Seq<char>)| (e - 1, p.0, p.1),
        )
    }
}

pub open spec fn rows_of(v: Seq<Vec<String>>) -> Seq<Seq<Seq<char>>> {
    v.map_values(|r: Vec<String>| texts_of(r@))
}

/// The remarks of a remarks file paired with the class's assessments and
/// students: entries up to the fewer of the file's and `n_assessments`,
/// students up to the fewer of `n_students` and the file's student count;
/// blank remarks are left out, the others trimmed.
pub fn pair_remark_cells(
    remarks_by_entry: &Vec<Vec<String>>,
    n_assessments: usize,
    n_students: usize,
    last_student: usize,
) -> (r: Vec<RemarkCell>)
    ensures
        cells_view(r@) == cells_upto(
            rows_of(remarks_by_entry@),
            min_nat(remarks_by_entry@.len(), n_assessments as nat),
            min_nat(n_students as nat, last_student as nat),
        ),
{
    let e = if remarks_by_entry.len() < n_assessments {
        remarks_by_entry.len()
    } else {
        n_assessments
    };
    let k = if n_students < last_student {
        n_students
    } else {
        last_student
    };
    let ghost rows = rows_of(remarks_by_entry@);
    let mut out: Vec<RemarkCell> = Vec::new();
    let mut a: usize = 0;
    assert(cells_view(out@) =~= Seq::<(int, int, Seq<char>)>::empty());
    while a < e
        invariant
            a <= e <= remarks_by_entry@.len(),
            rows == rows_of(remarks_by_entry@),
            cells_view(out@) == cells_upto(rows, a as nat, k as nat),
        decreases e - a,
    {
        let pairs = pair_texts_upto(&remarks_by_entry[a], k);
        assert(rows[a as int] == texts_of(remarks_by_entry@[a as int]@));
        let ghost base = cells_view(out@);
        let ghost add = texts_upto(rows[a as int], k as nat).map_values(
            |p: (int, Seq<char>)| (a as int, p.0, p.1),
        );
        let mut q: usize = 0;
        while q < pairs.len()
            invariant
                q <= pairs@.len(),
                pairs_view(pairs@) == texts_upto(rows[a as int], k as nat),
                add == texts_upto(rows[a as int], k as nat).map_values(
                    |p: (int, Seq<char>)| (a as int, p.0, p.1),
                ),
                cells_view(out@) == base + add.take(q as int),
            decreases pairs@.len() - q,
        {
            let (s, t) = &pairs[q];
            let ghost before = cells_view(out@);
            assert(pairs_view(pairs@)[q as int] == (*s as int, t@));
            out.push(RemarkCell { entry: a, student: *s, remark: t.clone() });
            assert(add[q as int] == (a as int, *s as int, t@));
            assert(add.take(q + 1) =~= add.take(q as int).push(add[q as int]));
            assert(cells_view(out@) =~= before.push((a as int, *s as int, t@)));
            q += 1;
        }
        assert(add.take(add.len() as int) =~= add);
        a += 1;
    }
    out
}

/// For the first `k` students: each student's position and seat code,
/// where the code is above 0.
pub open spec fn seats_upto(codes: Seq<i32>, k: nat) -> Seq<(int, i32)>
    decreases k,
{
    if k == 0 {
        Seq::empty()
    } else {
        let p = seats_upto(codes, (k - 1) as nat);
        if codes[k - 1] > 0 {
            p.push((k - 1, codes[k - 1]))
        } else {
            p
        }
    }
}

/// The seats of a seating file paired with a class of `n_students`: each
/// student up to the fewer of the class and the file, where the seat code
/// is above 0.
pub fn pair_seats(seat_codes: &Vec<i32>, n_students: usize) -> (r: Vec<(usize, i32)>)
    ensures
        r@.map_values(|p: (usize, i32)| (p.0 as int, p.1)) == seats_upto(
            seat_codes@,
            min_nat(n_students as nat, seat_codes@.len()),
        ),
{
    let k = if n_students < seat_codes.len() {
        n_students
    } else {
        seat_codes.len()
    };
    let mut out: Vec<(usize, i32)> = Vec::new();
    let mut i: usize = 0;
    assert(out@.map_values(|p: (usize, i32)| (p.0 as int, p.1)) =~= Seq::<(int, i32)>::empty());
    while i < k
        invariant
            i <= k <= seat_codes@.len(),
            out@.map_values(|p: (usize, i32)| (p.0 as int, p.1)) == seats_upto(seat_codes@, i as nat),
        decreases k - i,
    {
        let c = seat_codes[i];
        if c > 0 {
            let ghost before = out@;
            out.push((i, c));
            assert(out@.map_values(|p: (usize, i32)| (p.0 as int, p.1)) =~= before.map_values(
                |p: (usize, i32)| (p.0 as int, p.1),
            ).push((i as int, c)));
        }
        i += 1;
    }
    out
}

/// The device code of a row of a class-codes file: the first code after
/// the row's own, trimmed, that is not blank; blank where there is none.
pub open spec fn primary_code(row: Seq<Seq<char>>) -> Seq<char>
    decreases row.len(),
{
    if row.len() <= 1 {
        Seq::empty()
    } else {
        let p = primary_code(row.drop_last());
        if p.len() > 0 {
            p
        } else {
            trim(row.last())
        }
    }
}

/// The device code of student `s` of a class-codes file whose rows are
/// `codes` (the row of student `s` is row `s + 1`; a missing row has no
/// code).
pub open spec fn device_code(codes: Seq<Seq<Seq<char>>>, s: int) -> Seq<char> {
    if s + 1 < codes.len() {
        primary_code(codes[s + 1])
    } else {
        Seq::empty()
    }
}

fn primary_code_of(row: &Vec<String>) -> (r: String)
    ensures
        r@ == primary_code(texts_of(row@)),
{
    let ghost rv = texts_of(row@);
    let mut best: Vec<char> = Vec::new();
    let mut i: usize = 1;
    if row.len() <= 1 {
        return string_of_seq(&best);
    }
    assert(rv.take(1).len() <= 1);
    while i < row.len()
        invariant
            1 <= i <= row@.len(),
            rv == texts_of(row@),
            best@ == primary_code(rv.take(i as int)),
        decreases row@.len() - i,
    {
        assert(rv.take(i + 1).drop_last() =~= rv.take(i as int));
        assert(rv.take(i + 1).last() == row@[i as int]@);
        if best.len() == 0 {
            best = trim_chars(chars_of(row[i].as_str()).as_slice());
        }
        i += 1;
    }
    assert(rv.take(rv.len() as int) =~= rv);
    string_of_seq(&best)
}

/// The device codes of a class-codes file paired with a class of
/// `n_students`: each student up to the fewer of the class and the file's
/// student count, with the code of their row (see `device_code`).
pub fn pair_device_codes(codes: &Vec<Vec<String>>, n_students: usize, last_student: usize) -> (r: Vec<String>)
    ensures
        r@.len() == min_nat(n_students as nat, last_student as nat),
        forall|s: int| 0 <= s < r@.len() ==> (#[trigger] r@[s])@ == device_code(rows_of(codes@), s),
{
    let k = if n_students < last_student {
        n_students
    } else {
        last_student
    };
    let ghost rows = rows_of(codes@);
    let mut out: Vec<String> = Vec::new();
    let mut s: usize = 0;
    while s < k
        invariant
            s <= k,
            rows == rows_of(codes@),
            out@.len() == s,
            forall|q: int| 0 <= q < s ==> (#[trigger] out@[q])@ == device_code(rows, q),
        decreases k - s,
    {
        let code = if s < codes.len() && s + 1 < codes.len() {
            assert(rows[s + 1] == texts_of(codes@[s + 1]@));
            primary_code_of(&codes[s + 1])
        } else {
            String::new()
        };
        out.push(code);
        s += 1;
    }
    out
}

/// The comment bank of a comment set: the set's own, else the file's,
/// trimmed; none where that is blank.
pub open spec fn set_bank(own: Option<Seq<char>>, file: Option<Seq<char>>) -> Option<Seq<char>> {
    let b = match own {
        Some(x) => Some(x),
        None => file,
    };
    match b {
        Some(x) => if trim(x).len() > 0 {
            Some(trim(x))
        } else {
            None
        },
        None => None,
    }
}

pub open spec fn opt_text(o: Option<&str>) -> Option<Seq<char>> {
    match o {
        Some(s) => Some(s@),
        None => None,
    }
}

/// The comment bank of a comment set (see `set_bank`).
pub fn comment_set_bank(own: Option<&str>, file: Option<&str>) -> (r: Option<String>)
    ensures
        crate::params::opt_view(r) == set_bank(opt_text(own), opt_text(file)),
{
    let b = match own {
        Some(x) => Some(x),
        None => file,
    };
    match b {
        Some(x) => {
            let t = trim_chars(chars_of(x).as_slice());
            if t.len() > 0 {
                Some(string_of_seq(&t))
            } else {
                None
            }
        },
        None => None,
    }
}

/// A loan of a textbook file: the textbook's position, the student's
/// position, and the loan's item id and note, trimmed.
pub struct Loan {
    pub item: usize,
    pub student: usize,
    pub item_id: String,
    pub note: String,
}

pub open spec fn loans_view(v: Seq<Loan>) -> Seq<(int, int, Seq<char>, Seq<char>)> {
    v.map_values(|l: Loan| (l.item as int, l.student as int, l.item_id@, l.note@))
}

/// The loans of textbook `item` for the first `k` students: where the
/// student has a loan entry whose item id or note is not blank.
pub open spec fn loans_upto(items: Seq<TbkItemModel>, item: int, k: nat) -> Seq<(int, int, Seq<char>, Seq<char>)>
    decreases k,
{
    if k == 0 {
        Seq::empty()
    } else {
        let p = loans_upto(items, item, (k - 1) as nat);
        let s = k - 1;
        let a = items[item].assignments;
        let id: Seq<char> = if s < a.len() {
            trim(a[s].item_id)
        } else {
            Seq::empty()
        };
        let note: Seq<char> = if s < a.len() {
            trim(a[s].note)
        } else {
            Seq::empty()
        };
        if id.len() == 0 && note.len() == 0 {
            p
        } else {
            p.push((item, s, id, note))
        }
    }
}

/// The loans of the first `n` textbooks.
pub open spec fn all_loans(items: Seq<TbkItemModel>, n: nat, k: nat) -> Seq<(int, int, Seq<char>, Seq<char>)>
    decreases n,
{
    if n == 0 {
        Seq::empty()
    } else {
        all_loans(items, (n - 1) as nat, k) + loans_upto(items, n - 1, k)
    }
}

/// The loans of a textbook file paired with a class of `n_students`: for
/// each textbook, each student up to the fewer of the class and the file's
/// student count.
pub fn pair_loans(items: &Vec<ParsedTbkItem>, n_students: usize, last_student: usize) -> (r: Vec<Loan>)
    ensures
        loans_view(r@) == all_loans(
            items@.map_values(|t: ParsedTbkItem| t@),
            items@.len(),
            min_nat(n_students as nat, last_student as nat),
        ),
{
    let k = if n_students < last_student {
        n_students
    } else {
        last_student
    };
    let ghost iv = items@.map_values(|t: ParsedTbkItem| t@);
    let mut out: Vec<Loan> = Vec::new();
    let mut it: usize = 0;
    assert(loans_view(out@) =~= Seq::<(int, int, Seq<char>, Seq<char>)>::empty());
    while it < items.len()
        invariant
            it <= items@.len(),
            iv == items@.map_values(|t: ParsedTbkItem| t@),
            loans_view(out@) == all_loans(iv, it as nat, k as nat),
        decreases items@.len() - it,
    {
        let ghost base = loans_view(out@);
        let a = &items[it].assignments;
        assert(iv[it as int].assignments == a@.map_values(|x: crate::legacy::ParsedTbkAssignment| x@));
        let mut s: usize = 0;
        assert(base + loans_upto(iv, it as int, 0) =~= base);
        while s < k
            invariant
                s <= k,
                it < items@.len(),
                iv == items@.map_values(|t: ParsedTbkItem| t@),
                iv[it as int].assignments == a@.map_values(|x: crate::legacy::ParsedTbkAssignment| x@),
                loans_view(out@) == base + loans_upto(iv, it as int, s as nat),
            decreases k - s,
        {
            let id = if s < a.len() {
                trim_chars(chars_of(a[s].item_id.as_str()).as_slice())
            } else {
                Vec::new()
            };
            let note = if s < a.len() {
                trim_chars(chars_of(a[s].note.as_str()).as_slice())
            } else {
                Vec::new()
            };
            if id.len() > 0 || note.len() > 0 {
                let ghost before = loans_view(out@);
                out.push(Loan { item: it, student: s, item_id: string_of_seq(&id), note: string_of_seq(&note) });
                assert(loans_view(out@) =~= before.push((it as int, s as int, id@, note@)));
                assert(base + loans_upto(iv, it as int, (s + 1) as nat) =~= (base + loans_upto(
                    iv,
                    it as int,
                    s as nat,
                )).push((it as int, s as int, id@, note@)));
            }
            s += 1;
        }
        it += 1;
    }
    out
}

/// The students that a file's texts are paired with are within the first
/// `k`, each once and in order, and each text is trimmed and not blank.
pub proof fn law_pairs_within(texts: Seq<Seq<char>>, k: nat)
    ensures
        forall|q: int|
            0 <= q < texts_upto(texts, k).len() ==> 0 <= (#[trigger] texts_upto(texts, k)[q]).0 < k
                && texts_upto(texts, k)[q].1.len() > 0 && trim(texts_upto(texts, k)[q].1) == texts_upto(texts, k)[q].1,
        forall|q1: int, q2: int|
            0 <= q1 < q2 < texts_upto(texts, k).len() ==> (#[trigger] texts_upto(texts, k)[q1]).0 < (
            #[trigger] texts_upto(texts, k)[q2]).0,
    decreases k,
{
    if k > 0 {
        law_pairs_within(texts, (k - 1) as nat);
        let p = texts_upto(texts, (k - 1) as nat);
        let c = texts_upto(texts, k);
        crate::text::lemma_trim_idempotent(text_at(texts, k - 1));
        assert forall|q: int| 0 <= q < c.len() implies 0 <= (#[trigger] c[q]).0 < k && c[q].1.len() > 0 && trim(c[q].1)
            == c[q].1 by {
            if q < p.len() {
                assert(c[q] == p[q]);
            }
        }
        assert forall|q1: int, q2: int| 0 <= q1 < q2 < c.len() implies (#[trigger] c[q1]).0 < (#[trigger] c[q2]).0 by {
            assert(c[q1] == p[q1]);
            if q2 < p.len() {
                assert(c[q2] == p[q2]);
            }
        }
    }
}

} // verus!
