//! Seating plans: seat codes, the blocked-seat mask, and the plan as it is
//! read and saved.
use vstd::prelude::*;
use crate::text::{chars_of, string_of_seq};

verus! {

/// `raw` cut or padded with spaces to exactly `days` characters.
pub open spec fn fit_codes(raw: Seq<char>, days: nat) -> Seq<char> {
    if raw.len() < days {
        raw + Seq::new((days - raw.len()) as nat, |i: int| ' ')
    } else {
        raw.take(days as int)
    }
}

/// `raw` cut or padded with spaces to exactly `days` characters.
pub fn normalize_day_codes(raw: &str, days: usize) -> (r: String)
    ensures
        r@ == fit_codes(raw@, days as nat),
{
    let c = chars_of(raw);
    let mut out: Vec<char> = Vec::new();
    let mut i: usize = 0;
    while i < days
        invariant
            i <= days,
            out@ == fit_codes(c@, days as nat).take(i as int),
            c@ == raw@,
        decreases days - i,
    {
        let ch = if i < c.len() {
            c[i]
        } else {
            ' '
        };
        out.push(ch);
        i += 1;
        assert(out@ == fit_codes(c@, days as nat).take(i as int));
    }
    assert(fit_codes(c@, days as nat).take(days as int) == fit_codes(c@, days as nat));
    string_of_seq(&out)
}

/// `max(n, 1)`.
pub open spec fn at_least_one(n: i64) -> int {
    if n < 1 {
        1
    } else {
        n as int
    }
}

/// The seat code of seat `index` (counted from 0, row by row): the row
/// (from 0) times ten plus the seat in the row (from 1), with at least one
/// seat per row.
pub open spec fn seat_code(index: int, seats_per_row: i64) -> int {
    let m = at_least_one(seats_per_row);
    (index / m) * 10 + index % m + 1
}

/// The seat code of seat `index`.
pub fn seat_index_to_code(index: usize, seats_per_row: i64) -> (r: i64)
    requires
        index <= i64::MAX,
        seat_code(index as int, seats_per_row) <= i64::MAX,
    ensures
        r == seat_code(index as int, seats_per_row),
{
    let m: i64 = if seats_per_row < 1 {
        1
    } else {
        seats_per_row
    };
    let i = index as i64;
    let row = i / m;
    let col = i % m + 1;
    assert(row * 10 + col == seat_code(index as int, seats_per_row));
    row * 10 + col
}

/// The seat (counted from 0, row by row) of a seat code: none for a code
/// that is not above 0, whose row (the code's tens) is not below `rows`,
/// or whose seat in the row (its last digit) is 0 or above
/// `seats_per_row`.
pub open spec fn seat_index(code: i64, rows: i64, seats_per_row: i64) -> Option<int> {
    if code <= 0 {
        None
    } else {
        let row = code / 10;
        let col = code % 10;
        if row >= rows || col < 1 || col > seats_per_row {
            None
        } else {
            Some(row * seats_per_row + col - 1)
        }
    }
}

/// The seat of a seat code.
pub fn seat_code_to_index(seat_code: i64, rows: i64, seats_per_row: i64) -> (r: Option<usize>)
    requires
        seat_index(seat_code, rows, seats_per_row) matches Some(i) ==> i <= i64::MAX,
    ensures
        match seat_index(seat_code, rows, seats_per_row) {
            Some(i) => r == Some(i as usize),
            None => r is None,
        },
{
    if seat_code <= 0 {
        return None;
    }
    let row = seat_code / 10;
    let col = seat_code % 10;
    if row < 0 || row >= rows || col < 1 || col > seats_per_row {
        return None;
    }
    assert(0 <= row * seats_per_row + (col - 1) <= i64::MAX) by (nonlinear_arith)
        requires
            row >= 0,
            col >= 1,
            row * seats_per_row + col - 1 <= i64::MAX,
            seats_per_row >= 1,
    ;
    Some((row * seats_per_row + (col - 1)) as usize)
}

/// A seat's code reads back as the seat, in a plan of up to nine seats per
/// row.
pub proof fn law_seat_code_round_trip(index: int, rows: i64, seats_per_row: i64)
    requires
        1 <= seats_per_row <= 9,
        0 <= index < rows * seats_per_row,
        seat_code(index, seats_per_row) <= i64::MAX,
    ensures
        seat_index(seat_code(index, seats_per_row) as i64, rows, seats_per_row) == Some(index),
{
    let m = seats_per_row as int;
    let row = index / m;
    let col = index % m;
    let c = row * 10 + col + 1;
    assert(0 <= col < m) by (nonlinear_arith)
        requires
            m >= 1,
            col == index % m,
    ;
    assert(index == row * m + col) by (nonlinear_arith)
        requires
            m >= 1,
            row == index / m,
            col == index % m,
    ;
    assert(row >= 0) by (nonlinear_arith)
        requires
            m >= 1,
            index >= 0,
            row == index / m,
    ;
    assert(row < rows) by (nonlinear_arith)
        requires
            m >= 1,
            index == row * m + col,
            0 <= col,
            index < rows * m,
    ;
    assert(c / 10 == row && c % 10 == col + 1) by (nonlinear_arith)
        requires
            c == row * 10 + col + 1,
            0 <= col < m,
            m <= 9,
            row >= 0,
    ;
}

/// A valid seat code is the code of its seat, in a plan of up to nine seats
/// per row.
pub proof fn law_seat_index_round_trip(code: i64, rows: i64, seats_per_row: i64)
    requires
        1 <= seats_per_row <= 9,
        seat_index(code, rows, seats_per_row) is Some,
    ensures
        seat_code(seat_index(code, rows, seats_per_row)->0, seats_per_row) == code,
{
    let m = seats_per_row as int;
    let row = code / 10;
    let col = code % 10;
    let i = row * m + col - 1;
    assert(row >= 0);
    assert(i / m == row && i % m == col - 1) by (nonlinear_arith)
        requires
            i == row * m + col - 1,
            1 <= col <= m,
            row >= 0,
            m >= 1,
    ;
    assert(code == row * 10 + col);
}

// ---------------------------------------------------------------------------
// Reading a plan
// ---------------------------------------------------------------------------

/// The view of a class's seating plan: its size, its blocked seats (by
/// code, from 1) and, for each seat, the sort order of the student in it.
pub struct SeatingView {
    pub rows: i64,
    pub seats_per_row: i64,
    pub blocked_seat_codes: Vec<usize>,
    pub assignments: Vec<Option<i64>>,
}

pub open spec fn pairs_view(v: Seq<(String, i64)>) -> Seq<(Seq<char>, i64)> {
    v.map_values(|p: (String, i64)| (p.0@, p.1))
}

/// The value paired last with `id`.
pub open spec fn last_value_of(ps: Seq<(Seq<char>, i64)>, id: Seq<char>) -> Option<i64>
    decreases ps.len(),
{
    if ps.len() == 0 {
        None
    } else if ps.last().0 == id {
        Some(ps.last().1)
    } else {
        last_value_of(ps.drop_last(), id)
    }
}

/// The number of seats of a plan of `rows` by `seats_per_row`, each at
/// least one.
pub open spec fn seat_total(rows: i64, seats_per_row: i64) -> int {
    at_least_one(rows) * at_least_one(seats_per_row)
}

/// The positions (from 1) of the `1`s of a mask.
pub open spec fn one_positions(mask: Seq<char>) -> Seq<usize>
    decreases mask.len(),
{
    if mask.len() == 0 {
        Seq::empty()
    } else if mask.last() == '1' {
        one_positions(mask.drop_last()).push(mask.len() as usize)
    } else {
        one_positions(mask.drop_last())
    }
}

/// The seats after placing the students of `placed` (student id and seat
/// code) in turn: a code that is no seat of the plan, or a student that is
/// not in the class, is passed over; a later student in a seat replaces an
/// earlier one.
pub open spec fn place_all(
    seats: Seq<Option<i64>>,
    placed: Seq<(Seq<char>, i64)>,
    students: Seq<(Seq<char>, i64)>,
    rows: i64,
    seats_per_row: i64,
) -> Seq<Option<i64>>
    decreases placed.len(),
{
    if placed.len() == 0 {
        seats
    } else {
        let prev = place_all(seats, placed.drop_last(), students, rows, seats_per_row);
        let (sid, code) = placed.last();
        match seat_index(code, rows, seats_per_row) {
            Some(i) => if 0 <= i < prev.len() {
                match last_value_of(students, sid) {
                    Some(so) => prev.update(i, Some(so)),
                    None => prev,
                }
            } else {
                prev
            },
            None => prev,
        }
    }
}

pub proof fn lemma_place_all_len(
    seats: Seq<Option<i64>>,
    placed: Seq<(Seq<char>, i64)>,
    students: Seq<(Seq<char>, i64)>,
    rows: i64,
    seats_per_row: i64,
)
    ensures
        place_all(seats, placed, students, rows, seats_per_row).len() == seats.len(),
    decreases placed.len(),
{
    if placed.len() > 0 {
        lemma_place_all_len(seats, placed.drop_last(), students, rows, seats_per_row);
    }
}

/// The stored plan, or six rows of five seats and no blocked seat.
pub open spec fn plan_or_default(plan: Option<(i64, i64, String)>) -> (i64, i64, Seq<char>) {
    match plan {
        Some((r, s, m)) => (r, s, m@),
        None => (6, 5, Seq::new(100, |i: int| '0')),
    }
}

/// The plan as the class sees it (see `place_all`): the blocked seats are
/// those of the mask, cut or padded to 100 seats.
pub open spec fn seating_view_spec(
    plan: Option<(i64, i64, String)>,
    students: Seq<(Seq<char>, i64)>,
    placed: Seq<(Seq<char>, i64)>,
) -> (i64, i64, Seq<usize>, Seq<Option<i64>>) {
    let (rows, spr, mask) = plan_or_default(plan);
    let n = seat_total(rows, spr);
    (
        rows,
        spr,
        one_positions(fit_codes(mask, 100)),
        place_all(Seq::new(n as nat, |i: int| None::<i64>), placed, students, rows, spr),
    )
}

proof fn lemma_seat_index_bound(code: i64, rows: i64, seats_per_row: i64)
    requires
        seat_index(code, rows, seats_per_row) is Some,
    ensures
        0 <= seat_index(code, rows, seats_per_row)->0 < seat_total(rows, seats_per_row),
{
    let row = code / 10;
    let col = code % 10;
    let r = rows as int;
    let m = seats_per_row as int;
    assert(row >= 0);
    assert(0 <= row * m + col - 1 < r * m) by (nonlinear_arith)
        requires
            0 <= row < r,
            1 <= col <= m,
    ;
}

/// The value paired last with `id`, in a list of pairs.
fn last_value(ps: &Vec<(String, i64)>, id: &String) -> (r: Option<i64>)
    ensures
        r == last_value_of(pairs_view(ps@), id@),
{
    let ghost pv = pairs_view(ps@);
    let c = chars_of(id.as_str());
    let mut k = ps.len();
    assert(pv.take(k as int) == pv);
    while k > 0
        invariant
            k <= ps@.len(),
            pv == pairs_view(ps@),
            c@ == id@,
            last_value_of(pv, id@) == last_value_of(pv.take(k as int), id@),
        decreases k,
    {
        assert(pv.take(k as int).drop_last() == pv.take(k - 1));
        if crate::text::chars_eq(chars_of(ps[k - 1].0.as_str()).as_slice(), c.as_slice()) {
            return Some(ps[k - 1].1);
        }
        k -= 1;
    }
    None
}

/// The positions (from 1) of the `1`s of `mask`.
fn ones_of(mask: &Vec<char>) -> (r: Vec<usize>)
    requires
        mask@.len() < usize::MAX,
    ensures
        r@ == one_positions(mask@),
{
    let mut out: Vec<usize> = Vec::new();
    let mut i: usize = 0;
    while i < mask.len()
        invariant
            i <= mask@.len() < usize::MAX,
            out@ == one_positions(mask@.take(i as int)),
        decreases mask@.len() - i,
    {
        assert(mask@.take(i + 1).drop_last() == mask@.take(i as int));
        if mask[i] == '1' {
            out.push(i + 1);
        }
        i += 1;
    }
    assert(mask@.take(mask@.len() as int) == mask@);
    out
}

/// The plan of a class as it is shown (see `seating_view_spec`), from the
/// stored plan, the class's students (id and sort order) and the stored
/// seats (student id and seat code).
pub fn seating_view(
    plan: Option<(i64, i64, String)>,
    students: &Vec<(String, i64)>,
    placed: &Vec<(String, i64)>,
) -> (r: SeatingView)
    requires
        seat_total(plan_or_default(plan).0, plan_or_default(plan).1) <= usize::MAX,
        seat_total(plan_or_default(plan).0, plan_or_default(plan).1) <= i64::MAX,
    ensures
        seating_view_spec(plan, pairs_view(students@), pairs_view(placed@)) == (
            r.rows,
            r.seats_per_row,
            r.blocked_seat_codes@,
            r.assignments@,
        ),
{
    let ghost pv = plan_or_default(plan);
    let (rows, spr, mask) = match plan {
        Some((r, s, m)) => (r, s, chars_of(m.as_str())),
        None => {
            let mut z: Vec<char> = Vec::new();
            let mut q: usize = 0;
            while q < 100
                invariant
                    q <= 100,
                    z@ == Seq::new(q as nat, |i: int| '0'),
                decreases 100 - q,
            {
                z.push('0');
                q += 1;
                assert(z@ == Seq::new(q as nat, |i: int| '0'));
            }
            (6i64, 5i64, z)
        },
    };
    assert(mask@ == pv.2);
    let r1: i64 = if rows < 1 {
        1
    } else {
        rows
    };
    let s1: i64 = if spr < 1 {
        1
    } else {
        spr
    };
    assert(r1 * s1 == seat_total(rows, spr));
    assert(r1 * s1 >= 1) by (nonlinear_arith)
        requires
            r1 >= 1,
            s1 >= 1,
    ;
    let n = (r1 * s1) as usize;
    let blocked = normalize_day_codes(string_of_seq(&mask).as_str(), 100);
    let bchars = chars_of(blocked.as_str());
    let codes = ones_of(&bchars);
    let mut seats: Vec<Option<i64>> = Vec::new();
    let mut q: usize = 0;
    while q < n
        invariant
            q <= n,
            seats@ == Seq::new(q as nat, |i: int| None::<i64>),
        decreases n - q,
    {
        seats.push(None);
        q += 1;
        assert(seats@ == Seq::new(q as nat, |i: int| None::<i64>));
    }
    let ghost start = seats@;
    let ghost sv = pairs_view(students@);
    let ghost plv = pairs_view(placed@);
    let mut k: usize = 0;
    assert(plv.take(0) =~= Seq::<(Seq<char>, i64)>::empty());
    while k < placed.len()
        invariant
            k <= placed@.len(),
            plv == pairs_view(placed@),
            sv == pairs_view(students@),
            seats@.len() == n,
            n == seat_total(rows, spr),
            seat_total(rows, spr) <= i64::MAX,
            seats@ == place_all(start, plv.take(k as int), sv, rows, spr),
        decreases placed@.len() - k,
    {
        assert(plv.take(k + 1).drop_last() == plv.take(k as int));
        assert(plv.take(k + 1).last() == plv[k as int]);
        let code = placed[k].1;
        proof {
            if seat_index(code, rows, spr) is Some {
                lemma_seat_index_bound(code, rows, spr);
            }
        }
        match seat_code_to_index(code, rows, spr) {
            Some(idx) => {
                if idx < seats.len() {
                    match last_value(students, &placed[k].0) {
                        Some(so) => {
                            seats.set(idx, Some(so));
                        },
                        None => {},
                    }
                }
            },
            None => {},
        }
        k += 1;
    }
    assert(plv.take(placed@.len() as int) == plv);
    SeatingView { rows, seats_per_row: spr, blocked_seat_codes: codes, assignments: seats }
}

// ---------------------------------------------------------------------------
// Saving a plan
// ---------------------------------------------------------------------------

/// The blocked seats as a request gives them: a mask of `0` and `1` (a
/// `1` at position `i` blocks seat code `i + 1`), a list of seat codes, or
/// nothing.
pub enum BlockedSeats {
    Mask(String),
    Codes(Vec<u64>),
    Missing,
}

/// What is stored for a plan: its size (each at least one), its 100-seat
/// blocked mask and the seat code of each placed student.
pub struct SeatingSavePlan {
    pub rows: i64,
    pub seats_per_row: i64,
    pub blocked_mask: String,
    pub seats: Vec<(String, i64)>,
}

/// Whether a request blocks seat code `code`.
pub open spec fn blocks(b: BlockedSeats, code: int) -> bool {
    match b {
        BlockedSeats::Mask(m) => 1 <= code <= m@.len() && m@[code - 1] == '1',
        BlockedSeats::Codes(v) => exists|k: int| 0 <= k < v@.len() && (v@[k] as usize) as int == code,
        BlockedSeats::Missing => false,
    }
}

/// The 100-seat mask of the blocked seats.
pub open spec fn blocked_mask_of(b: BlockedSeats) -> Seq<char> {
    Seq::new(100, |p: int| if blocks(b, p + 1) { '1' } else { '0' })
}

/// The student of sort order `so`: the last one with that sort order.
pub open spec fn student_of(students: Seq<(Seq<char>, i64)>, so: i64) -> Option<Seq<char>>
    decreases students.len(),
{
    if students.len() == 0 {
        None
    } else if students.last().1 == so {
        Some(students.last().0)
    } else {
        student_of(students.drop_last(), so)
    }
}

/// The seats stored for the first `n` entries of `assignments` (the sort
/// order of the student in each seat, or nothing): each student found by
/// sort order, once only (the first seat counts), with its seat's code.
pub open spec fn saved_seats(
    assignments: Seq<Option<i64>>,
    students: Seq<(Seq<char>, i64)>,
    seats_per_row: i64,
    n: int,
) -> Seq<(Seq<char>, int)>
    decreases n,
{
    if n <= 0 {
        Seq::empty()
    } else {
        let prev = saved_seats(assignments, students, seats_per_row, n - 1);
        match assignments[n - 1] {
            None => prev,
            Some(so) => match student_of(students, so) {
                None => prev,
                Some(id) => if exists|k: int| 0 <= k < prev.len() && prev[k].0 == id {
                    prev
                } else {
                    prev.push((id, seat_code(n - 1, seats_per_row)))
                },
            },
        }
    }
}

/// The seats saved for a plan: those of the first entries of the request,
/// up to the number of seats.
pub open spec fn saved_seats_of(
    rows: i64,
    seats_per_row: i64,
    assignments: Seq<Option<i64>>,
    students: Seq<(Seq<char>, i64)>,
) -> Seq<(Seq<char>, int)> {
    let n = seat_total(rows, seats_per_row);
    saved_seats(
        assignments,
        students,
        at_least_one(seats_per_row) as i64,
        if assignments.len() < n {
            assignments.len() as int
        } else {
            n
        },
    )
}

pub open spec fn seats_view(v: Seq<(String, i64)>) -> Seq<(Seq<char>, int)> {
    v.map_values(|p: (String, i64)| (p.0@, p.1 as int))
}

/// The student of sort order `so`, in a list of students.
fn student_with(students: &Vec<(String, i64)>, so: i64) -> (r: Option<String>)
    ensures
        match r {
            Some(id) => student_of(pairs_view(students@), so) == Some(id@),
            None => student_of(pairs_view(students@), so) is None,
        },
{
    let ghost pv = pairs_view(students@);
    let mut k = students.len();
    assert(pv.take(k as int) == pv);
    while k > 0
        invariant
            k <= students@.len(),
            pv == pairs_view(students@),
            student_of(pv, so) == student_of(pv.take(k as int), so),
        decreases k,
    {
        assert(pv.take(k as int).drop_last() == pv.take(k - 1));
        if students[k - 1].1 == so {
            return Some(students[k - 1].0.clone());
        }
        k -= 1;
    }
    None
}

/// Whether `id` is already among the saved seats.
fn seated(v: &Vec<(String, i64)>, id: &String) -> (r: bool)
    ensures
        r == exists|k: int| 0 <= k < v@.len() && seats_view(v@)[k].0 == id@,
{
    let c = chars_of(id.as_str());
    let mut k: usize = 0;
    while k < v.len()
        invariant
            k <= v@.len(),
            c@ == id@,
            forall|j: int| 0 <= j < k ==> seats_view(v@)[j].0 != id@,
        decreases v@.len() - k,
    {
        if crate::text::chars_eq(chars_of(v[k].0.as_str()).as_slice(), c.as_slice()) {
            assert(seats_view(v@)[k as int].0 == id@);
            return true;
        }
        k += 1;
    }
    false
}

/// Whether a request blocks seat code `code`.
fn blocks_exec(b: &BlockedSeats, code: usize) -> (r: bool)
    ensures
        r == blocks(*b, code as int),
{
    match b {
        BlockedSeats::Mask(m) => {
            let c = chars_of(m.as_str());
            code >= 1 && code <= c.len() && c[code - 1] == '1'
        },
        BlockedSeats::Codes(v) => {
            let mut k: usize = 0;
            while k < v.len()
                invariant
                    k <= v@.len(),
                    *b matches BlockedSeats::Codes(w) && w@ == v@,
                    forall|j: int| 0 <= j < k ==> (v@[j] as usize) as int != code,
                decreases v@.len() - k,
            {
                if #[verifier::truncate] (v[k] as usize) == code {
                    assert((v@[k as int] as usize) as int == code as int);
                    return true;
                }
                k += 1;
            }
            false
        },
        BlockedSeats::Missing => false,
    }
}

/// What is stored when a class's seating plan is saved: the size, each at
/// least one; the blocked mask (see `blocked_mask_of`); and the seats (see
/// `saved_seats_of`).
pub fn seating_save_plan(
    rows: i64,
    seats_per_row: i64,
    assignments: &Vec<Option<i64>>,
    blocked: &BlockedSeats,
    students: &Vec<(String, i64)>,
) -> (r: SeatingSavePlan)
    requires
        seat_total(rows, seats_per_row) <= i64::MAX,
        seat_total(rows, seats_per_row) <= usize::MAX,
        forall|i: int|
            0 <= i < assignments@.len() && i < seat_total(rows, seats_per_row) ==> #[trigger] seat_code(
                i,
                seats_per_row,
            ) <= i64::MAX,
    ensures
        r.rows == at_least_one(rows),
        r.seats_per_row == at_least_one(seats_per_row),
        r.blocked_mask@ == blocked_mask_of(*blocked),
        seats_view(r.seats@) == saved_seats_of(rows, seats_per_row, assignments@, pairs_view(students@)),
{
    let r1: i64 = if rows < 1 {
        1
    } else {
        rows
    };
    let s1: i64 = if seats_per_row < 1 {
        1
    } else {
        seats_per_row
    };
    assert(r1 * s1 == seat_total(rows, seats_per_row));
    let seat_count = (r1 * s1) as usize;
    let mut mask: Vec<char> = Vec::new();
    let mut p: usize = 0;
    while p < 100
        invariant
            p <= 100,
            mask@ == blocked_mask_of(*blocked).take(p as int),
        decreases 100 - p,
    {
        let c = if blocks_exec(blocked, p + 1) {
            '1'
        } else {
            '0'
        };
        mask.push(c);
        p += 1;
        assert(mask@ == blocked_mask_of(*blocked).take(p as int));
    }
    assert(blocked_mask_of(*blocked).take(100) == blocked_mask_of(*blocked));
    let ghost sv = pairs_view(students@);
    let mut seats: Vec<(String, i64)> = Vec::new();
    let mut idx: usize = 0;
    assert(seats_view(seats@) =~= Seq::<(Seq<char>, int)>::empty());
    while idx < assignments.len() && idx < seat_count
        invariant
            idx <= assignments@.len(),
            idx <= seat_count,
            seat_count == seat_total(rows, seats_per_row),
            seat_total(rows, seats_per_row) <= i64::MAX,
            s1 == at_least_one(seats_per_row),
            sv == pairs_view(students@),
            forall|i: int|
                0 <= i < assignments@.len() && i < seat_total(rows, seats_per_row) ==> #[trigger] seat_code(
                    i,
                    seats_per_row,
                ) <= i64::MAX,
            seats_view(seats@) == saved_seats(assignments@, sv, s1, idx as int),
        decreases assignments@.len() - idx,
    {
        assert(seat_code(idx as int, s1) == seat_code(idx as int, seats_per_row));
        match assignments[idx] {
            None => {},
            Some(so) => match student_with(students, so) {
                None => {},
                Some(id) => {
                    if !seated(&seats, &id) {
                        let code = seat_index_to_code(idx, s1);
                        let ghost before = seats_view(seats@);
                        let ghost idv = id@;
                        seats.push((id, code));
                        assert(seats_view(seats@) == before.push((idv, code as int)));
                    }
                },
            },
        }
        idx += 1;
    }
    SeatingSavePlan { rows: r1, seats_per_row: s1, blocked_mask: string_of_seq(&mask), seats }
}

/// A saved plan seats each student at most once.
pub proof fn law_saved_students_distinct(
    assignments: Seq<Option<i64>>,
    students: Seq<(Seq<char>, i64)>,
    seats_per_row: i64,
    n: int,
)
    ensures
        forall|i: int, j: int|
            0 <= i < j < saved_seats(assignments, students, seats_per_row, n).len() ==> saved_seats(
                assignments,
                students,
                seats_per_row,
                n,
            )[i].0 != saved_seats(assignments, students, seats_per_row, n)[j].0,
    decreases n,
{
    if n > 0 {
        law_saved_students_distinct(assignments, students, seats_per_row, n - 1);
        let prev = saved_seats(assignments, students, seats_per_row, n - 1);
        let cur = saved_seats(assignments, students, seats_per_row, n);
        assert forall|i: int, j: int| 0 <= i < j < cur.len() implies cur[i].0 != cur[j].0 by {
            if cur.len() > prev.len() {
                assert(cur == prev.push(cur.last()));
                if j == prev.len() {
                    assert(cur[i] == prev[i]);
                } else {
                    assert(cur[i] == prev[i] && cur[j] == prev[j]);
                }
            } else {
                assert(cur == prev);
            }
        }
    }
}

/// Day codes fitted to a length have that length, and fitting them again
/// changes nothing.
pub proof fn law_day_codes_fit(raw: Seq<char>, days: nat)
    ensures
        fit_codes(raw, days).len() == days,
        fit_codes(fit_codes(raw, days), days) == fit_codes(raw, days),
{
    assert(fit_codes(raw, days).take(days as int) =~= fit_codes(raw, days));
}

} // verus!
