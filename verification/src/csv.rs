//! Comma-separated records with double-quoted fields, as the legacy files and
//! the roster imports write them.
use vstd::prelude::*;
use crate::text::{chars_of, trim, trim_chars};

verus! {

/// The fields of `s[i..]`, read from a state where `in_q` says whether a
/// quoted part is open, `buf` is the field read so far and `done` the fields
/// before it. A `"` opens or closes a quoted part, `""` inside one stands for
/// a `"`, and a `,` outside one ends a field.
pub open spec fn csv_scan(
    s: Seq<char>,
    i: int,
    in_q: bool,
    buf: Seq<char>,
    done: Seq<Seq<char>>,
) -> Seq<Seq<char>>
    decreases s.len() - i,
{
    if i >= s.len() {
        done.push(buf)
    } else if s[i] == '"' {
        if in_q && i + 1 < s.len() && s[i + 1] == '"' {
            csv_scan(s, i + 2, in_q, buf.push('"'), done)
        } else {
            csv_scan(s, i + 1, !in_q, buf, done)
        }
    } else if s[i] == ',' && !in_q {
        csv_scan(s, i + 1, in_q, Seq::empty(), done.push(buf))
    } else {
        csv_scan(s, i + 1, in_q, buf.push(s[i]), done)
    }
}

/// The fields of a record, as they stand between the separators.
pub open spec fn csv_record(s: Seq<char>) -> Seq<Seq<char>> {
    csv_scan(s, 0, false, Seq::empty(), Seq::empty())
}

/// The fields of a record, each without white space at its ends.
pub open spec fn csv_fields(s: Seq<char>) -> Seq<Seq<char>> {
    csv_record(s).map_values(|f: Seq<char>| trim(f))
}

pub proof fn lemma_csv_scan_len(
    s: Seq<char>,
    i: int,
    in_q: bool,
    buf: Seq<char>,
    done: Seq<Seq<char>>,
)
    requires
        0 <= i,
    ensures
        csv_scan(s, i, in_q, buf, done).len() >= done.len() + 1,
        forall|k: int|
            0 <= k < done.len() ==> #[trigger] csv_scan(s, i, in_q, buf, done)[k] == done[k],
    decreases s.len() - i,
{
    if i >= s.len() {
    } else if s[i] == '"' {
        if in_q && i + 1 < s.len() && s[i + 1] == '"' {
            lemma_csv_scan_len(s, i + 2, in_q, buf.push('"'), done);
        } else {
            lemma_csv_scan_len(s, i + 1, !in_q, buf, done);
        }
    } else if s[i] == ',' && !in_q {
        lemma_csv_scan_len(s, i + 1, in_q, Seq::empty(), done.push(buf));
    } else {
        lemma_csv_scan_len(s, i + 1, in_q, buf.push(s[i]), done);
    }
}

/// The fields of the record `line`, untrimmed.
pub fn csv_record_chars(line: &[char]) -> (r: Vec<Vec<char>>)
    ensures
        r@.len() == csv_record(line@).len(),
        forall|k: int| 0 <= k < r@.len() ==> #[trigger] r@[k]@ == csv_record(line@)[k],
{
    let mut out: Vec<Vec<char>> = Vec::new();
    let mut buf: Vec<char> = Vec::new();
    let mut in_q = false;
    let mut i: usize = 0;
    let ghost mut done: Seq<Seq<char>> = Seq::empty();
    let n = line.len();
    while i < n
        invariant
            n == line@.len(),
            i <= n + 1,
            out@.len() == done.len(),
            forall|k: int| 0 <= k < done.len() ==> #[trigger] out@[k]@ == done[k],
            csv_record(line@) == csv_scan(line@, i as int, in_q, buf@, done),
        decreases n + 1 - i,
    {
        let ch = line[i];
        if ch == '"' {
            if in_q && i + 1 < n && line[i + 1] == '"' {
                buf.push('"');
                i += 2;
                continue;
            }
            in_q = !in_q;
            i += 1;
            continue;
        }
        if ch == ',' && !in_q {
            proof {
                done = done.push(buf@);
            }
            out.push(buf);
            buf = Vec::new();
            i += 1;
            continue;
        }
        buf.push(ch);
        i += 1;
    }
    proof {
        done = done.push(buf@);
    }
    out.push(buf);
    out
}

/// The fields of the record `line`, each trimmed.
pub fn csv_fields_chars(line: &[char]) -> (r: Vec<Vec<char>>)
    ensures
        r@.len() == csv_fields(line@).len(),
        forall|k: int| 0 <= k < r@.len() ==> #[trigger] r@[k]@ == csv_fields(line@)[k],
{
    let rec = csv_record_chars(line);
    let mut out: Vec<Vec<char>> = Vec::new();
    let mut k: usize = 0;
    while k < rec.len()
        invariant
            k <= rec@.len() == csv_record(line@).len(),
            forall|j: int| 0 <= j < rec@.len() ==> #[trigger] rec@[j]@ == csv_record(line@)[j],
            out@.len() == k,
            forall|j: int| 0 <= j < k ==> #[trigger] out@[j]@ == trim(csv_record(line@)[j]),
        decreases rec@.len() - k,
    {
        out.push(trim_chars(rec[k].as_slice()));
        k += 1;
    }
    out
}

/// `s` with each `"` doubled.
pub open spec fn escape_quotes(s: Seq<char>) -> Seq<char>
    decreases s.len(),
{
    if s.len() == 0 {
        Seq::empty()
    } else if s.last() == '"' {
        escape_quotes(s.drop_last()) + seq!['"', '"']
    } else {
        escape_quotes(s.drop_last()).push(s.last())
    }
}

/// `s` between double quotes, with each `"` in it doubled.
pub open spec fn quoted(s: Seq<char>) -> Seq<char> {
    seq!['"'] + escape_quotes(s) + seq!['"']
}

/// `s`, quoted as `quoted` says where it holds a `,`, `"`, line feed or
/// carriage return, and as it is otherwise.
pub open spec fn quoted_if_needed(s: Seq<char>) -> Seq<char> {
    if s.contains(',') || s.contains('"') || s.contains('\n') || s.contains('\r') {
        quoted(s)
    } else {
        s
    }
}

/// Appends `escape_quotes(s)` to `out`.
fn push_escaped(out: &mut Vec<char>, s: &[char])
    ensures
        final(out)@ == old(out)@ + escape_quotes(s@),
{
    let ghost start = out@;
    let mut i: usize = 0;
    while i < s.len()
        invariant
            i <= s@.len(),
            out@ == start + escape_quotes(s@.take(i as int)),
        decreases s@.len() - i,
    {
        let c = s[i];
        assert(s@.take(i + 1).drop_last() == s@.take(i as int));
        if c == '"' {
            out.push('"');
            out.push('"');
        } else {
            out.push(c);
        }
        i += 1;
    }
    assert(s@.take(s@.len() as int) == s@);
}

/// `s` in double quotes, each `"` doubled.
pub fn quote_chars(s: &[char]) -> (r: Vec<char>)
    ensures
        r@ == quoted(s@),
{
    let mut out: Vec<char> = Vec::new();
    out.push('"');
    push_escaped(&mut out, s);
    out.push('"');
    out
}

/// `s`, in double quotes only where a `,`, `"`, line feed or carriage
/// return makes them necessary.
pub fn quote_if_needed_chars(s: &[char]) -> (r: Vec<char>)
    ensures
        r@ == quoted_if_needed(s@),
{
    let mut i: usize = 0;
    let mut needed = false;
    while i < s.len()
        invariant
            i <= s@.len(),
            needed <==> exists|k: int|
                0 <= k < i && (s@[k] == ',' || s@[k] == '"' || s@[k] == '\n' || s@[k] == '\r'),
        decreases s@.len() - i,
    {
        let c = s[i];
        if c == ',' || c == '"' || c == '\n' || c == '\r' {
            needed = true;
        }
        i += 1;
    }
    proof {
        if needed {
            let k = choose|k: int|
                0 <= k < i && (s@[k] == ',' || s@[k] == '"' || s@[k] == '\n' || s@[k] == '\r');
            if s@[k] == ',' {
                assert(s@.contains(','));
            } else if s@[k] == '"' {
                assert(s@.contains('"'));
            } else if s@[k] == '\n' {
                assert(s@.contains('\n'));
            } else {
                assert(s@.contains('\r'));
            }
        }
    }
    if needed {
        quote_chars(s)
    } else {
        let mut out: Vec<char> = Vec::new();
        let mut j: usize = 0;
        while j < s.len()
            invariant
                j <= s@.len(),
                out@ == s@.take(j as int),
            decreases s@.len() - j,
        {
            out.push(s[j]);
            j += 1;
            assert(s@.take(j as int) == s@.take(j - 1).push(s@[j - 1]));
        }
        assert(s@.take(s@.len() as int) == s@);
        out
    }
}

/// `parse_csv_fields` on a string: the fields of a record, trimmed.
pub fn parse_csv_fields(line: &str) -> (r: Vec<Vec<char>>)
    ensures
        r@.len() == csv_fields(line@).len(),
        forall|k: int| 0 <= k < r@.len() ==> #[trigger] r@[k]@ == csv_fields(line@)[k],
{
    let v = chars_of(line);
    csv_fields_chars(v.as_slice())
}


// ---------------------------------------------------------------------------
// Reading back what was written
// ---------------------------------------------------------------------------

/// Escaping distributes over concatenation.
pub proof fn lemma_escape_concat(a: Seq<char>, b: Seq<char>)
    ensures
        escape_quotes(a + b) == escape_quotes(a) + escape_quotes(b),
    decreases b.len(),
{
    if b.len() == 0 {
        assert(a + b == a);
        assert(escape_quotes(a) + escape_quotes(b) == escape_quotes(a));
    } else {
        assert((a + b).drop_last() == a + b.drop_last());
        assert((a + b).last() == b.last());
        lemma_escape_concat(a, b.drop_last());
    }
}

/// The escaped form of one character.
pub open spec fn escape_char(c: char) -> Seq<char> {
    if c == '"' {
        seq!['"', '"']
    } else {
        seq![c]
    }
}

proof fn lemma_escape_front(a: Seq<char>)
    requires
        a.len() > 0,
    ensures
        escape_quotes(a) == escape_char(a[0]) + escape_quotes(a.drop_first()),
{
    assert(a == seq![a[0]] + a.drop_first());
    lemma_escape_concat(seq![a[0]], a.drop_first());
    let one = seq![a[0]];
    assert(one.drop_last() == Seq::<char>::empty());
    assert(escape_quotes(Seq::<char>::empty()) == Seq::<char>::empty());
    if a[0] == '"' {
        assert(escape_quotes(one) == Seq::<char>::empty() + seq!['"', '"']);
    } else {
        assert(escape_quotes(one) == Seq::<char>::empty().push(a[0]));
    }
    assert(escape_quotes(one) == escape_char(a[0]));
}

/// Escaping adds no character that is not already there, but `"`.
pub proof fn lemma_escape_chars(a: Seq<char>, c: char)
    requires
        c != '"',
        forall|i: int| 0 <= i < a.len() ==> a[i] != c,
    ensures
        forall|i: int| 0 <= i < escape_quotes(a).len() ==> escape_quotes(a)[i] != c,
    decreases a.len(),
{
    if a.len() > 0 {
        lemma_escape_chars(a.drop_last(), c);
        let p = escape_quotes(a.drop_last());
        assert(a.last() != c);
        assert forall|i: int| 0 <= i < escape_quotes(a).len() implies escape_quotes(a)[i] != c by {
            if i < p.len() {
                assert(escape_quotes(a)[i] == p[i]);
            }
        }
    }
}

/// Reading the rest of a quoted field, from just after its opening quote:
/// the escaped text and the closing quote give back the text.
proof fn lemma_scan_quoted_body(
    s: Seq<char>,
    i: int,
    a: Seq<char>,
    buf: Seq<char>,
    done: Seq<Seq<char>>,
)
    requires
        0 <= i,
        i + escape_quotes(a).len() < s.len(),
        s.subrange(i, i + escape_quotes(a).len()) == escape_quotes(a),
        s[i + escape_quotes(a).len()] == '"',
        i + escape_quotes(a).len() + 1 == s.len() || s[i + escape_quotes(a).len() + 1] != '"',
    ensures
        csv_scan(s, i, true, buf, done) == csv_scan(
            s,
            i + escape_quotes(a).len() + 1,
            false,
            buf + a,
            done,
        ),
    decreases a.len(),
{
    let e = escape_quotes(a);
    if a.len() == 0 {
        assert(buf + a == buf);
    } else {
        lemma_escape_front(a);
        let rest = a.drop_first();
        let er = escape_quotes(rest);
        let c = a[0];
        assert(a == seq![c] + rest);
        if c == '"' {
            assert(e[0] == '"' && e[1] == '"');
            assert(s[i] == e[0]);
            assert(s[i + 1] == e[1]);
            assert(s.subrange(i + 2, i + 2 + er.len()) == er) by {
                assert forall|k: int| 0 <= k < er.len() implies s.subrange(i + 2, i + 2 + er.len())[k]
                    == er[k] by {
                    assert(s[i + 2 + k] == s.subrange(i, i + e.len())[2 + k]);
                }
            }
            lemma_scan_quoted_body(s, i + 2, rest, buf.push('"'), done);
            assert(buf.push('"') + rest == buf + a);
        } else {
            assert(e[0] == c);
            assert(s[i] == e[0]);
            assert(s.subrange(i + 1, i + 1 + er.len()) == er) by {
                assert forall|k: int| 0 <= k < er.len() implies s.subrange(i + 1, i + 1 + er.len())[k]
                    == er[k] by {
                    assert(s[i + 1 + k] == s.subrange(i, i + e.len())[1 + k]);
                }
            }
            lemma_scan_quoted_body(s, i + 1, rest, buf.push(c), done);
            assert(buf.push(c) + rest == buf + a);
        }
    }
}

/// Reading a quoted field that starts at `i`, outside quotes and with
/// nothing read of the field yet, gives back its text, where the field is
/// not followed by a `"`.
pub proof fn lemma_scan_quoted_field(s: Seq<char>, i: int, a: Seq<char>, done: Seq<Seq<char>>)
    requires
        0 <= i,
        i + quoted(a).len() <= s.len(),
        s.subrange(i, i + quoted(a).len()) == quoted(a),
        i + quoted(a).len() == s.len() || s[i + quoted(a).len()] != '"',
    ensures
        csv_scan(s, i, false, Seq::empty(), done) == csv_scan(
            s,
            i + quoted(a).len(),
            false,
            a,
            done,
        ),
{
    let e = escape_quotes(a);
    let q = quoted(a);
    assert(q.len() == e.len() + 2);
    assert(s[i] == q[0]);
    assert(q[0] == '"');
    assert(s.subrange(i + 1, i + 1 + e.len()) == e) by {
        assert forall|k: int| 0 <= k < e.len() implies s.subrange(i + 1, i + 1 + e.len())[k]
            == e[k] by {
            assert(s[i + 1 + k] == s.subrange(i, i + q.len())[1 + k]);
            assert(q[1 + k] == e[k]);
        }
    }
    assert(s[i + 1 + e.len()] == q[1 + e.len() as int]);
    lemma_scan_quoted_body(s, i + 1, a, Seq::empty(), done);
    assert(Seq::<char>::empty() + a == a);
}

/// A record of three quoted fields, separated by commas, reads back as the
/// three texts.
pub proof fn lemma_record_of_three(a: Seq<char>, b: Seq<char>, c: Seq<char>)
    ensures
        csv_record(quoted(a) + seq![','] + quoted(b) + seq![','] + quoted(c)) == seq![a, b, c],
{
    let qa = quoted(a);
    let qb = quoted(b);
    let qc = quoted(c);
    let s = qa + seq![','] + qb + seq![','] + qc;
    let i1 = qa.len() as int;
    let i2 = i1 + 1 + qb.len();
    let n = s.len() as int;
    assert(s.subrange(0, i1) == qa);
    assert(s[i1] == ',');
    lemma_scan_quoted_field(s, 0, a, Seq::empty());
    assert(s.subrange(i1 + 1, i2) == qb);
    assert(s[i2] == ',');
    lemma_scan_quoted_field(s, i1 + 1, b, seq![a]);
    assert(s.subrange(i2 + 1, n) == qc);
    lemma_scan_quoted_field(s, i2 + 1, c, seq![a, b]);
    assert(Seq::<Seq<char>>::empty().push(a) == seq![a]);
    assert(seq![a].push(b) == seq![a, b]);
    assert(seq![a, b].push(c) == seq![a, b, c]);
}

/// The fields, each as `quoted_if_needed` writes it, separated by commas.
pub open spec fn csv_line(fs: Seq<Seq<char>>) -> Seq<char>
    decreases fs.len(),
{
    if fs.len() == 0 {
        Seq::empty()
    } else if fs.len() == 1 {
        quoted_if_needed(fs[0])
    } else {
        quoted_if_needed(fs[0]) + seq![','] + csv_line(fs.drop_first())
    }
}

/// Reading a field written as it is (no `,` or `"` in it) gives it back.
proof fn lemma_scan_plain(s: Seq<char>, i: int, f: Seq<char>, buf: Seq<char>, done: Seq<Seq<char>>)
    requires
        0 <= i,
        i + f.len() <= s.len(),
        s.subrange(i, i + f.len()) == f,
        forall|k: int| 0 <= k < f.len() ==> f[k] != ',' && f[k] != '"',
    ensures
        csv_scan(s, i, false, buf, done) == csv_scan(s, i + f.len(), false, buf + f, done),
    decreases f.len(),
{
    if f.len() == 0 {
        assert(buf + f == buf);
    } else {
        assert(s[i] == f[0]);
        let rest = f.drop_first();
        assert(s.subrange(i + 1, i + 1 + rest.len()) == rest) by {
            assert forall|k: int| 0 <= k < rest.len() implies s.subrange(i + 1, i + 1 + rest.len())[k]
                == rest[k] by {
                assert(s[i + 1 + k] == s.subrange(i, i + f.len())[1 + k]);
            }
        }
        lemma_scan_plain(s, i + 1, rest, buf.push(f[0]), done);
        assert(buf.push(f[0]) + rest == buf + f);
    }
}

/// Reading a field written by `quoted_if_needed` gives it back, where the
/// field is followed by a `,` or ends the text.
proof fn lemma_scan_written_field(s: Seq<char>, i: int, f: Seq<char>, done: Seq<Seq<char>>)
    requires
        0 <= i,
        i + quoted_if_needed(f).len() <= s.len(),
        s.subrange(i, i + quoted_if_needed(f).len()) == quoted_if_needed(f),
        i + quoted_if_needed(f).len() == s.len() || s[i + quoted_if_needed(f).len()] == ',',
    ensures
        csv_scan(s, i, false, Seq::empty(), done) == csv_scan(
            s,
            i + quoted_if_needed(f).len(),
            false,
            f,
            done,
        ),
{
    if f.contains(',') || f.contains('"') || f.contains('\n') || f.contains('\r') {
        lemma_scan_quoted_field(s, i, f, done);
    } else {
        assert forall|k: int| 0 <= k < f.len() implies f[k] != ',' && f[k] != '"' by {
            if f[k] == ',' {
                assert(f.contains(','));
            }
            if f[k] == '"' {
                assert(f.contains('"'));
            }
        }
        lemma_scan_plain(s, i, f, Seq::empty(), done);
        assert(Seq::<char>::empty() + f == f);
    }
}

proof fn lemma_scan_line(s: Seq<char>, i: int, fs: Seq<Seq<char>>, done: Seq<Seq<char>>)
    requires
        0 <= i <= s.len(),
        fs.len() >= 1,
        s.subrange(i, s.len() as int) == csv_line(fs),
    ensures
        csv_scan(s, i, false, Seq::empty(), done) == done + fs,
    decreases fs.len(),
{
    let q = quoted_if_needed(fs[0]);
    let j = i + q.len();
    if fs.len() == 1 {
        assert(s.subrange(i, j) == q);
        lemma_scan_written_field(s, i, fs[0], done);
        assert(done.push(fs[0]) == done + fs);
    } else {
        let rest = csv_line(fs.drop_first());
        assert(csv_line(fs) == q + seq![','] + rest);
        assert(s.subrange(i, j) == q) by {
            assert forall|k: int| 0 <= k < q.len() implies s.subrange(i, j)[k] == q[k] by {
                assert(s.subrange(i, j)[k] == s.subrange(i, s.len() as int)[k]);
            }
        }
        assert(s[j] == ',') by {
            assert(s.subrange(i, s.len() as int)[q.len() as int] == ',');
        }
        lemma_scan_written_field(s, i, fs[0], done);
        assert(s.subrange(j + 1, s.len() as int) == rest) by {
            assert forall|k: int| 0 <= k < rest.len() implies s.subrange(j + 1, s.len() as int)[k]
                == rest[k] by {
                assert(s.subrange(j + 1, s.len() as int)[k] == s.subrange(i, s.len() as int)[q.len()
                    + 1 + k]);
            }
        }
        lemma_scan_line(s, j + 1, fs.drop_first(), done.push(fs[0]));
        assert(done.push(fs[0]) + fs.drop_first() == done + fs);
    }
}

/// A line of fields, each written by `quoted_if_needed` and separated by
/// commas, reads back as the fields.
pub proof fn law_csv_line_read_back(fs: Seq<Seq<char>>)
    requires
        fs.len() >= 1,
    ensures
        csv_record(csv_line(fs)) == fs,
{
    let s = csv_line(fs);
    assert(s.subrange(0, s.len() as int) == s);
    lemma_scan_line(s, 0, fs, Seq::empty());
    assert(Seq::<Seq<char>>::empty() + fs == fs);
}

/// A line grows by a comma and the next field.
pub proof fn lemma_csv_line_push(fs: Seq<Seq<char>>, f: Seq<char>)
    requires
        fs.len() >= 1,
    ensures
        csv_line(fs.push(f)) == csv_line(fs) + seq![','] + quoted_if_needed(f),
    decreases fs.len(),
{
    if fs.len() == 1 {
        assert(fs.push(f).drop_first() == seq![f]);
        assert(csv_line(seq![f]) == quoted_if_needed(f));
    } else {
        assert(fs.push(f).drop_first() == fs.drop_first().push(f));
        lemma_csv_line_push(fs.drop_first(), f);
    }
}

/// The fields as one line (see `csv_line`); no field gives an empty line.
pub fn write_csv_line(fields: &Vec<Vec<char>>) -> (r: Vec<char>)
    ensures
        r@ == csv_line(fields@.map_values(|f: Vec<char>| f@)),
        fields@.len() == 0 ==> r@.len() == 0,
{
    let ghost fs = fields@.map_values(|f: Vec<char>| f@);
    if fields.len() == 0 {
        return Vec::new();
    }
    let mut out = quote_if_needed_chars(fields[0].as_slice());
    let mut k: usize = 1;
    assert(fs.take(1) == seq![fs[0]]);
    while k < fields.len()
        invariant
            1 <= k <= fields@.len(),
            fs == fields@.map_values(|f: Vec<char>| f@),
            out@ == csv_line(fs.take(k as int)),
        decreases fields@.len() - k,
    {
        out.push(',');
        let q = quote_if_needed_chars(fields[k].as_slice());
        let mut j: usize = 0;
        let ghost head = out@;
        while j < q.len()
            invariant
                j <= q@.len(),
                out@ == head + q@.take(j as int),
            decreases q@.len() - j,
        {
            out.push(q[j]);
            j += 1;
            assert(q@.take(j as int) == q@.take(j - 1).push(q@[j - 1]));
        }
        assert(q@.take(q@.len() as int) == q@);
        proof {
            lemma_csv_line_push(fs.take(k as int), fs[k as int]);
            assert(fs.take(k + 1) == fs.take(k as int).push(fs[k as int]));
        }
        k += 1;
    }
    assert(fs.take(fields@.len() as int) == fs);
    out
}

} // verus!
