//! What the roster export writes, the roster import reads back.
use vstd::prelude::*;
use crate::csv::{csv_line, csv_record, escape_quotes, law_csv_line_read_back, lemma_csv_line_push, lemma_escape_chars, quoted, quoted_if_needed};
use crate::integrations::{
    boolish, exported_students, last_col, non_empty, or_blank, package_fields, package_records,
    package_student_lines, roster_cols, roster_columns, roster_export_lines, roster_fields,
    roster_line, roster_spec, roster_upto, rows_from, student_row, PackageStudentModel,
    RosterRowModel, SourceStudentModel, StudentModel,
};
use crate::num::{int_decimal, nat_digits};
use crate::text::{is_ws, join_lines, lemma_text_lines_join, lower, text_lines, trim, trim_end, trim_start};

verus! {

/// Whether `f` holds no line feed and no carriage return.
pub open spec fn no_breaks(f: Seq<char>) -> bool {
    forall|k: int| 0 <= k < f.len() ==> f[k] != '\n' && f[k] != '\r'
}

/// Whether `f` is written as it is (see `quoted_if_needed`).
pub open spec fn plain(f: Seq<char>) -> bool {
    !(f.contains(',') || f.contains('"') || f.contains('\n') || f.contains('\r'))
}

proof fn lemma_written_no_breaks(f: Seq<char>)
    requires
        no_breaks(f),
    ensures
        no_breaks(quoted_if_needed(f)),
{
    if !plain(f) {
        lemma_escape_chars(f, '\n');
        lemma_escape_chars(f, '\r');
        let e = escape_quotes(f);
        let q = quoted(f);
        assert forall|k: int| 0 <= k < q.len() implies q[k] != '\n' && q[k] != '\r' by {
            if 1 <= k < q.len() - 1 {
                assert(q[k] == e[k - 1]);
            }
        }
    }
}

/// A line of fields without line breaks has none.
pub proof fn lemma_csv_line_no_breaks(fs: Seq<Seq<char>>)
    requires
        forall|i: int| 0 <= i < fs.len() ==> no_breaks(#[trigger] fs[i]),
    ensures
        no_breaks(csv_line(fs)),
    decreases fs.len(),
{
    if fs.len() == 1 {
        lemma_written_no_breaks(fs[0]);
    } else if fs.len() > 1 {
        lemma_written_no_breaks(fs[0]);
        assert forall|i: int| 0 <= i < fs.drop_first().len() implies no_breaks(
            #[trigger] fs.drop_first()[i],
        ) by {
            assert(fs.drop_first()[i] == fs[i + 1]);
        }
        lemma_csv_line_no_breaks(fs.drop_first());
        let a = quoted_if_needed(fs[0]);
        let b = csv_line(fs.drop_first());
        let l = a + seq![','] + b;
        assert forall|k: int| 0 <= k < l.len() implies l[k] != '\n' && l[k] != '\r' by {
            if k < a.len() {
                assert(l[k] == a[k]);
            } else if k > a.len() {
                assert(l[k] == b[k - a.len() - 1]);
            }
        }
    }
}

proof fn lemma_trim_start_append(a: Seq<char>, b: Seq<char>)
    requires
        b.len() > 0,
        !is_ws(b[0]),
    ensures
        trim_start(a + b) == trim_start(a) + b,
    decreases a.len(),
{
    if a.len() == 0 {
        assert(a + b == b);
        assert(trim_start(a) + b == b);
    } else if is_ws(a[0]) {
        assert((a + b).drop_first() == a.drop_first() + b);
        lemma_trim_start_append(a.drop_first(), b);
    } else {
    }
}

proof fn lemma_trim_end_prepend(a: Seq<char>, b: Seq<char>)
    requires
        a.len() > 0,
        !is_ws(a.last()),
    ensures
        trim_end(a + b) == a + trim_end(b),
    decreases b.len(),
{
    if b.len() == 0 {
        assert(a + b == a);
        assert(a + trim_end(b) == a);
    } else if is_ws(b.last()) {
        assert((a + b).drop_last() == a + b.drop_last());
        lemma_trim_end_prepend(a, b.drop_last());
    } else {
    }
}

proof fn lemma_trim_start_suffix(s: Seq<char>) -> (k: int)
    ensures
        0 <= k <= s.len(),
        trim_start(s) == s.skip(k),
    decreases s.len(),
{
    if s.len() > 0 && is_ws(s[0]) {
        let k = lemma_trim_start_suffix(s.drop_first());
        assert(s.drop_first().skip(k) == s.skip(k + 1));
        k + 1
    } else {
        assert(s.skip(0) == s);
        0
    }
}

proof fn lemma_trim_end_prefix(s: Seq<char>) -> (k: int)
    ensures
        0 <= k <= s.len(),
        trim_end(s) == s.take(k),
    decreases s.len(),
{
    if s.len() > 0 && is_ws(s.last()) {
        let k = lemma_trim_end_prefix(s.drop_last());
        assert(s.drop_last().take(k) == s.take(k));
        k
    } else {
        assert(s.take(s.len() as int) == s);
        s.len() as int
    }
}

/// The first field as a trimmed line reads it.
pub open spec fn front_field(f: Seq<char>) -> Seq<char> {
    if plain(f) {
        trim_start(f)
    } else {
        f
    }
}

/// The last field as a trimmed line reads it.
pub open spec fn back_field(f: Seq<char>) -> Seq<char> {
    if plain(f) {
        trim_end(f)
    } else {
        f
    }
}

proof fn lemma_plain_part(f: Seq<char>, g: Seq<char>, lo: int, hi: int)
    requires
        plain(f),
        0 <= lo <= hi <= f.len(),
        g == f.subrange(lo, hi),
    ensures
        plain(g),
{
    if g.contains(',') {
        let k = choose|k: int| 0 <= k < g.len() && g[k] == ',';
        assert(f[lo + k] == ',');
    }
    if g.contains('"') {
        let k = choose|k: int| 0 <= k < g.len() && g[k] == '"';
        assert(f[lo + k] == '"');
    }
    if g.contains('\n') {
        let k = choose|k: int| 0 <= k < g.len() && g[k] == '\n';
        assert(f[lo + k] == '\n');
    }
    if g.contains('\r') {
        let k = choose|k: int| 0 <= k < g.len() && g[k] == '\r';
        assert(f[lo + k] == '\r');
    }
}

proof fn lemma_front_written(f: Seq<char>)
    ensures
        trim_start(quoted_if_needed(f)) == quoted_if_needed(front_field(f)),
{
    if plain(f) {
        let k = lemma_trim_start_suffix(f);
        lemma_plain_part(f, trim_start(f), k, f.len() as int);
    } else {
        assert(quoted(f)[0] == '"');
    }
}

proof fn lemma_back_written(f: Seq<char>)
    ensures
        trim_end(quoted_if_needed(f)) == quoted_if_needed(back_field(f)),
{
    if plain(f) {
        let k = lemma_trim_end_prefix(f);
        lemma_plain_part(f, trim_end(f), 0, k);
    } else {
        let q = quoted(f);
        assert(q.last() == '"');
    }
}

/// A line of at least two fields, trimmed, is the line of the same fields
/// with the first and last as a trimmed line reads them.
pub proof fn lemma_trim_csv_line(fs: Seq<Seq<char>>)
    requires
        fs.len() >= 2,
    ensures
        trim(csv_line(fs)) == csv_line(
            fs.update(0, front_field(fs[0])).update(fs.len() - 1, back_field(fs.last())),
        ),
{
    let n = fs.len() as int;
    let g = fs.update(0, front_field(fs[0]));
    let h = g.update(n - 1, back_field(fs.last()));
    // the front
    let rest = csv_line(fs.drop_first());
    assert(csv_line(fs) == quoted_if_needed(fs[0]) + (seq![','] + rest));
    lemma_trim_start_append(quoted_if_needed(fs[0]), seq![','] + rest);
    lemma_front_written(fs[0]);
    assert(g.drop_first() == fs.drop_first());
    assert(csv_line(g) == quoted_if_needed(g[0]) + seq![','] + rest);
    assert(trim_start(csv_line(fs)) == csv_line(g));
    // the back
    let init = g.drop_last();
    assert(g == init.push(g.last()));
    lemma_csv_line_push(init, g.last());
    assert(h == init.push(h.last()));
    lemma_csv_line_push(init, h.last());
    let a = csv_line(init) + seq![','];
    assert(csv_line(g) == a + quoted_if_needed(g.last()));
    lemma_trim_end_prepend(a, quoted_if_needed(g.last()));
    assert(g.last() == fs.last());
    lemma_back_written(fs.last());
    assert(csv_line(h) == a + quoted_if_needed(h.last()));
}

proof fn lemma_name_fixed(s: Seq<char>)
    requires
        forall|k: int| 0 <= k < s.len() ==> ('a' <= #[trigger] s[k] && s[k] <= 'z') || s[k] == '_',
    ensures
        lower(trim(s)) == s,
{
    crate::text::lemma_trim_no_ws(s);
    assert(lower(s) =~= s);
}

/// The columns that an exported roster's header names: number 1, last name
/// 2, first name 3, active 5, birth date 4.
pub proof fn lemma_roster_header_cols()
    ensures
        roster_cols(csv_line(roster_columns())) == (1int, 2int, 3int, 5int, 4int),
{
    let cols = roster_columns();
    law_csv_line_read_back(cols);
    reveal_strlit("student_id");
    reveal_strlit("student_no");
    reveal_strlit("last_name");
    reveal_strlit("first_name");
    reveal_strlit("birth_date");
    reveal_strlit("active");
    reveal_strlit("sort_order");
    reveal_strlit("mark_set_mask");
    reveal_strlit("last");
    reveal_strlit("first");
    lemma_name_fixed("student_id"@);
    lemma_name_fixed("student_no"@);
    lemma_name_fixed("last_name"@);
    lemma_name_fixed("first_name"@);
    lemma_name_fixed("birth_date"@);
    lemma_name_fixed("active"@);
    lemma_name_fixed("sort_order"@);
    lemma_name_fixed("mark_set_mask"@);
    let h = csv_record(csv_line(cols)).map_values(|f: Seq<char>| lower(trim(f)));
    assert(h =~= cols);
    reveal_with_fuel(last_col, 9);
    assert(last_col(cols, "student_no"@) == Some(1int));
    assert(last_col(cols, "last_name"@) == Some(2int));
    assert(last_col(cols, "first_name"@) == Some(3int));
    assert(last_col(cols, "active"@) == Some(5int));
    assert(last_col(cols, "birth_date"@) == Some(4int));
}

proof fn lemma_nat_digits_digits(n: nat)
    ensures
        forall|k: int| 0 <= k < nat_digits(n).len() ==> '0' <= #[trigger] nat_digits(n)[k] && nat_digits(n)[k] <= '9',
    decreases n,
{
    if n >= 10 {
        lemma_nat_digits_digits(n / 10);
        lemma_digit_char((n % 10) as nat);
        let p = nat_digits(n / 10);
        assert forall|k: int| 0 <= k < nat_digits(n).len() implies '0' <= #[trigger] nat_digits(n)[k]
            && nat_digits(n)[k] <= '9' by {
            if k < p.len() {
                assert(nat_digits(n)[k] == p[k]);
            }
        }
    } else {
        lemma_digit_char(n);
    }
}

proof fn lemma_digit_char(d: nat)
    requires
        d < 10,
    ensures
        '0' <= crate::num::digit_char(d) && crate::num::digit_char(d) <= '9',
{
    assert(('0' as u32) + d <= 57);
    assert((('0' as u32) + d) as char as u32 == ('0' as u32) + d);
}

proof fn lemma_int_decimal_no_breaks(n: int)
    ensures
        no_breaks(int_decimal(n)),
{
    let m: nat = if n < 0 {
        (-n) as nat
    } else {
        n as nat
    };
    lemma_nat_digits_digits(m);
    let d = int_decimal(n);
    assert forall|k: int| 0 <= k < d.len() implies d[k] != '\n' && d[k] != '\r' by {
        if n < 0 {
            if k > 0 {
                assert(d[k] == nat_digits(m)[k - 1]);
            }
        } else {
            assert(d[k] == nat_digits(m)[k]);
        }
    }
}

/// A student a roster export can write so that the import reads it back:
/// no field holds a line break, and both names are more than white space.
pub open spec fn exportable(s: StudentModel) -> bool {
    &&& no_breaks(s.id)
    &&& no_breaks(or_blank(s.student_no))
    &&& no_breaks(s.last_name)
    &&& no_breaks(s.first_name)
    &&& no_breaks(or_blank(s.birth_date))
    &&& no_breaks(s.mark_set_mask)
    &&& trim(s.last_name).len() > 0
    &&& trim(s.first_name).len() > 0
}

/// The row the import reads for an exported student on line `line_no`.
pub open spec fn roster_row_of(s: StudentModel, line_no: nat) -> RosterRowModel {
    RosterRowModel {
        line_no,
        student_no: non_empty(or_blank(s.student_no)),
        last_name: trim(s.last_name),
        first_name: trim(s.first_name),
        birth_date: non_empty(or_blank(s.birth_date)),
        active: Some(s.active),
    }
}

proof fn lemma_fields_no_breaks(s: StudentModel)
    requires
        exportable(s),
    ensures
        forall|i: int| 0 <= i < roster_fields(s).len() ==> no_breaks(#[trigger] roster_fields(s)[i]),
{
    reveal_strlit("1");
    reveal_strlit("0");
    lemma_int_decimal_no_breaks(s.sort_order as int);
    let fs = roster_fields(s);
    assert forall|i: int| 0 <= i < fs.len() implies no_breaks(#[trigger] fs[i]) by {
        if i == 5 {
            if s.active {
                assert(fs[5] == "1"@);
            } else {
                assert(fs[5] == "0"@);
            }
        }
    }
}

proof fn lemma_roster_row(s: StudentModel, j: int)
    requires
        exportable(s),
        0 <= j,
    ensures
        roster_line(csv_line(roster_fields(s)), j, (1int, 2int, 3int, 5int, 4int)) == Some(
            Ok::<RosterRowModel, nat>(roster_row_of(s, (j + 1) as nat)),
        ),
{
    let fs = roster_fields(s);
    let g = fs.update(0, front_field(fs[0])).update(7, back_field(fs[7]));
    lemma_trim_csv_line(fs);
    assert(fs.last() == fs[7]);
    let line = trim(csv_line(fs));
    assert(line == csv_line(g));
    assert(g.drop_first() =~= fs.drop_first().update(6, back_field(fs[7])));
    assert(csv_line(g) == quoted_if_needed(g[0]) + seq![','] + csv_line(g.drop_first()));
    assert(line.len() > 0);
    law_csv_line_read_back(g);
    let f = csv_record(line);
    assert(f == g);
    assert(f[1] == or_blank(s.student_no));
    assert(f[2] == s.last_name);
    assert(f[3] == s.first_name);
    assert(f[4] == or_blank(s.birth_date));
    reveal_strlit("1");
    reveal_strlit("0");
    reveal_strlit("true");
    reveal_strlit("yes");
    reveal_strlit("y");
    if s.active {
        assert(f[5] == "1"@);
        crate::text::lemma_trim_no_ws("1"@);
        assert(lower("1"@) =~= "1"@);
        assert(boolish(f[5]) == Some(true));
    } else {
        assert(f[5] == "0"@);
        crate::text::lemma_trim_no_ws("0"@);
        assert(lower("0"@) =~= "0"@);
        assert(boolish(f[5]) == Some(false));
    }
}

proof fn lemma_roster_upto(
    ls: Seq<Seq<char>>,
    ex: Seq<StudentModel>,
    m: int,
)
    requires
        ls.len() == ex.len() + 1,
        forall|i: int| 0 <= i < ex.len() ==> exportable(#[trigger] ex[i]),
        forall|i: int| 0 <= i < ex.len() ==> #[trigger] ls[i + 1] == csv_line(roster_fields(ex[i])),
        1 <= m <= ls.len(),
    ensures
        roster_upto(ls, (1int, 2int, 3int, 5int, 4int), m) == (
            Seq::new((m - 1) as nat, |i: int| roster_row_of(ex[i], (i + 2) as nat)),
            Seq::<nat>::empty(),
            (m - 1) as nat,
        ),
    decreases m,
{
    if m > 1 {
        lemma_roster_upto(ls, ex, m - 1);
        assert(ls[m - 1] == csv_line(roster_fields(ex[m - 2])));
        lemma_roster_row(ex[m - 2], m - 1);
        assert(Seq::new((m - 2) as nat, |i: int| roster_row_of(ex[i], (i + 2) as nat)).push(
            roster_row_of(ex[m - 2], m as nat),
        ) =~= Seq::new((m - 1) as nat, |i: int| roster_row_of(ex[i], (i + 2) as nat)));
    } else {
        assert(Seq::new(0, |i: int| roster_row_of(ex[i], (i + 2) as nat)) =~= Seq::<
            RosterRowModel,
        >::empty());
    }
}

/// A roster that the export writes reads back, through the import, as one
/// row per exported student, in order, on lines 2, 3, ...: the number and
/// birth date where not blank, the names trimmed, and the active flag; with
/// no warning. This holds for students whose fields hold no line break and
/// whose names are not blank.
pub proof fn law_roster_read_back(students: Seq<StudentModel>, scope: Seq<char>)
    requires
        forall|i: int|
            0 <= i < exported_students(students, scope).len() ==> exportable(
                #[trigger] exported_students(students, scope)[i],
            ),
    ensures
        roster_spec(text_lines(join_lines(roster_export_lines(students, scope)))) == (
            Seq::new(
                exported_students(students, scope).len(),
                |i: int| roster_row_of(exported_students(students, scope)[i], (i + 2) as nat),
            ),
            Seq::<nat>::empty(),
            exported_students(students, scope).len(),
        ),
{
    let ex = exported_students(students, scope);
    let ls = roster_export_lines(students, scope);
    let cols = roster_columns();
    reveal_strlit("student_id");
    reveal_strlit("student_no");
    reveal_strlit("last_name");
    reveal_strlit("first_name");
    reveal_strlit("birth_date");
    reveal_strlit("active");
    reveal_strlit("sort_order");
    reveal_strlit("mark_set_mask");
    assert forall|i: int| 0 <= i < cols.len() implies no_breaks(#[trigger] cols[i]) by {}
    lemma_csv_line_no_breaks(cols);
    assert forall|i: int| 0 <= i < ex.len() implies #[trigger] ls[i + 1] == csv_line(
        roster_fields(ex[i]),
    ) by {}
    assert forall|i: int| 0 <= i < ls.len() implies no_breaks(#[trigger] ls[i]) by {
        if i > 0 {
            lemma_fields_no_breaks(ex[i - 1]);
            lemma_csv_line_no_breaks(roster_fields(ex[i - 1]));
        }
    }
    lemma_text_lines_join(ls);
    lemma_roster_header_cols();
    lemma_roster_upto(ls, ex, ls.len() as int);
}

// ---------------------------------------------------------------------------
// Transfer packages
// ---------------------------------------------------------------------------

proof fn lemma_nat_digits_len(n: nat)
    ensures
        nat_digits(n).len() >= 1,
        n >= 10 ==> nat_digits(n).len() >= 2,
    decreases n,
{
    if n >= 10 {
        lemma_nat_digits_len(n / 10);
    }
}

/// The decimal form of an integer: digits after an optional `-`; `0` and
/// `1` are the one-digit forms of 0 and 1.
proof fn lemma_int_decimal_shape(a: int)
    ensures
        int_decimal(a).len() >= 1,
        forall|k: int|
            0 <= k < int_decimal(a).len() ==> ('0' <= #[trigger] int_decimal(a)[k] && int_decimal(a)[k]
                <= '9') || (k == 0 && int_decimal(a)[k] == '-'),
        (int_decimal(a) == seq!['0']) <==> a == 0,
        (int_decimal(a) == seq!['1']) <==> a == 1,
{
    let m: nat = if a < 0 {
        (-a) as nat
    } else {
        a as nat
    };
    lemma_nat_digits_digits(m);
    lemma_nat_digits_len(m);
    let x = int_decimal(a);
    assert forall|k: int| 0 <= k < x.len() implies ('0' <= #[trigger] x[k] && x[k] <= '9') || (k == 0
        && x[k] == '-') by {
        if a < 0 {
            if k > 0 {
                assert(x[k] == nat_digits(m)[k - 1]);
            }
        } else {
            assert(x[k] == nat_digits(m)[k]);
        }
    }
    if a < 0 {
        assert(x[0] == '-');
        assert(x != seq!['0']);
        assert(x != seq!['1']);
    } else if a >= 10 {
        assert(x.len() >= 2);
        assert(x != seq!['0']);
        assert(x != seq!['1']);
    } else {
        let c = crate::num::digit_char(m);
        assert(x == seq![c]);
        assert((('0' as u32) + m) as char as u32 == ('0' as u32) + m);
        assert(c as u32 == ('0' as u32) + m);
        if x == seq!['0'] {
            assert(x[0] == '0');
            assert(c as u32 == '0' as u32);
        }
        if x == seq!['1'] {
            assert(x[0] == '1');
            assert(c as u32 == '1' as u32);
        }
        if a == 0 {
            assert(c as u32 == '0' as u32);
            assert(x =~= seq!['0']);
        }
        if a == 1 {
            assert(c as u32 == '1' as u32);
            assert(x =~= seq!['1']);
        }
    }
}

/// How the yes-or-no reading takes an integer written in decimal: `1` is
/// yes, `0` is no, any other is no answer.
proof fn lemma_boolish_int(a: int)
    ensures
        boolish(int_decimal(a)) == if a == 1 {
            Some(true)
        } else if a == 0 {
            Some(false)
        } else {
            None::<bool>
        },
{
    let x = int_decimal(a);
    lemma_int_decimal_shape(a);
    assert forall|k: int| 0 <= k < x.len() implies !is_ws(#[trigger] x[k]) by {
        assert(('0' <= x[k] && x[k] <= '9') || x[k] == '-');
    }
    crate::text::lemma_trim_no_ws(x);
    assert(lower(x) =~= x) by {
        assert forall|k: int| 0 <= k < x.len() implies lower(x)[k] == x[k] by {
            assert(('0' <= x[k] && x[k] <= '9') || x[k] == '-');
        }
    }
    reveal_strlit("1");
    reveal_strlit("0");
    reveal_strlit("true");
    reveal_strlit("false");
    reveal_strlit("yes");
    reveal_strlit("no");
    reveal_strlit("y");
    reveal_strlit("n");
    assert(('0' <= x[0] && x[0] <= '9') || x[0] == '-');
    assert(x != "true"@ && x != "yes"@ && x != "y"@ && x != "false"@ && x != "no"@ && x != "n"@) by {
        if x == "true"@ {
            assert(x[0] == 't');
        }
        if x == "yes"@ {
            assert(x[0] == 'y');
        }
        if x == "y"@ {
            assert(x[0] == 'y');
        }
        if x == "false"@ {
            assert(x[0] == 'f');
        }
        if x == "no"@ {
            assert(x[0] == 'n');
        }
        if x == "n"@ {
            assert(x[0] == 'n');
        }
    }
    assert("1"@ == seq!['1']);
    assert("0"@ == seq!['0']);
}

/// Whether a student's fields hold no line break.
pub open spec fn packable(s: PackageStudentModel) -> bool {
    &&& no_breaks(s.id)
    &&& no_breaks(or_blank(s.student_no))
    &&& no_breaks(s.last_name)
    &&& no_breaks(s.first_name)
    &&& no_breaks(or_blank(s.birth_date))
    &&& no_breaks(s.mark_set_mask)
}

/// The student that a package's student file gives back for `s`.
pub open spec fn package_read(s: PackageStudentModel) -> SourceStudentModel {
    SourceStudentModel {
        source_id: trim(s.id),
        student_no: non_empty(or_blank(s.student_no)),
        last_name: trim(s.last_name),
        first_name: trim(s.first_name),
        birth_date: non_empty(or_blank(s.birth_date)),
        active: s.active != 0,
        mark_set_mask: match non_empty(s.mark_set_mask) {
            Some(m) => m,
            None => "TBA"@,
        },
    }
}

proof fn lemma_package_fields_no_breaks(s: PackageStudentModel)
    requires
        packable(s),
    ensures
        forall|i: int| 0 <= i < package_fields(s).len() ==> no_breaks(#[trigger] package_fields(s)[i]),
{
    lemma_int_decimal_no_breaks(s.active as int);
    lemma_int_decimal_no_breaks(s.sort_order as int);
}

proof fn lemma_package_records(ls: Seq<Seq<char>>, st: Seq<PackageStudentModel>, m: int)
    requires
        ls.len() == st.len() + 1,
        forall|i: int| 0 <= i < st.len() ==> #[trigger] ls[i + 1] == csv_line(package_fields(st[i])),
        1 <= m <= ls.len(),
    ensures
        package_records(ls, 8, m) == Seq::new((m - 1) as nat, |i: int| package_fields(st[i])),
    decreases m,
{
    if m > 1 {
        lemma_package_records(ls, st, m - 1);
        let fs = package_fields(st[m - 2]);
        assert(ls[(m - 2) + 1] == csv_line(fs));
        lemma_trim_csv_line(fs);
        let g = fs.update(0, front_field(fs[0])).update(7, back_field(fs.last()));
        assert(g.len() == 8);
        assert(csv_line(g) == quoted_if_needed(g[0]) + seq![','] + csv_line(g.drop_first()));
        law_csv_line_read_back(fs);
        assert(Seq::new((m - 2) as nat, |i: int| package_fields(st[i])).push(fs) =~= Seq::new(
            (m - 1) as nat,
            |i: int| package_fields(st[i]),
        ));
    } else {
        assert(Seq::new(0, |i: int| package_fields(st[i])) =~= Seq::<Seq<Seq<char>>>::empty());
    }
}

proof fn lemma_package_rows(st: Seq<PackageStudentModel>, n: int)
    requires
        0 <= n <= st.len(),
    ensures
        rows_from(
            Seq::new(n as nat, |i: int| package_fields(st[i])),
            |f: Seq<Seq<char>>| student_row(f),
        ) == Seq::new(n as nat, |i: int| package_read(st[i])),
    decreases n,
{
    let recs = Seq::new(n as nat, |i: int| package_fields(st[i]));
    if n > 0 {
        assert(recs.drop_last() =~= Seq::new((n - 1) as nat, |i: int| package_fields(st[i])));
        lemma_package_rows(st, n - 1);
        let s = st[n - 1];
        lemma_boolish_int(s.active as int);
        assert(recs.last() == package_fields(s));
        assert(student_row(package_fields(s)) == Some(package_read(s)));
        assert(Seq::new((n - 1) as nat, |i: int| package_read(st[i])).push(package_read(s)) =~= Seq::new(
            n as nat,
            |i: int| package_read(st[i]),
        ));
    } else {
        assert(recs =~= Seq::<Seq<Seq<char>>>::empty());
        assert(Seq::new(0, |i: int| package_read(st[i])) =~= Seq::<SourceStudentModel>::empty());
    }
}

/// A package's student file, read back by the package import, gives each
/// student in order: id, names and dates trimmed (blank number and birth
/// date as none), active where the stored flag is not 0, and the mask
/// trimmed (`TBA` where it is blank). This holds for students whose fields
/// hold no line break.
pub proof fn law_package_students_read_back(students: Seq<PackageStudentModel>)
    requires
        forall|i: int| 0 <= i < students.len() ==> packable(#[trigger] students[i]),
    ensures
        rows_from(
            package_records(
                text_lines(join_lines(package_student_lines(students))),
                8,
                text_lines(join_lines(package_student_lines(students))).len() as int,
            ),
            |f: Seq<Seq<char>>| student_row(f),
        ) == students.map_values(|s: PackageStudentModel| package_read(s)),
{
    let ls = package_student_lines(students);
    let cols = roster_columns();
    reveal_strlit("student_id");
    reveal_strlit("student_no");
    reveal_strlit("last_name");
    reveal_strlit("first_name");
    reveal_strlit("birth_date");
    reveal_strlit("active");
    reveal_strlit("sort_order");
    reveal_strlit("mark_set_mask");
    assert forall|i: int| 0 <= i < cols.len() implies no_breaks(#[trigger] cols[i]) by {}
    lemma_csv_line_no_breaks(cols);
    assert forall|i: int| 0 <= i < students.len() implies #[trigger] ls[i + 1] == csv_line(
        package_fields(students[i]),
    ) by {}
    assert forall|i: int| 0 <= i < ls.len() implies no_breaks(#[trigger] ls[i]) by {
        if i > 0 {
            lemma_package_fields_no_breaks(students[i - 1]);
            lemma_csv_line_no_breaks(package_fields(students[i - 1]));
        }
    }
    lemma_text_lines_join(ls);
    lemma_package_records(ls, students, ls.len() as int);
    lemma_package_rows(students, students.len() as int);
    assert(Seq::new(students.len(), |i: int| package_read(students[i])) =~= students.map_values(
        |s: PackageStudentModel| package_read(s),
    ));
}

} // verus!
