use vstd::prelude::*;

use crate::aggregate::AnilistScores;
use crate::digits::{
    dec_int, i64_to_string, is_dec_digit, spec_parse_i64, parse_i64_range, lemma_dec_int_chars,
    lemma_parse_dec_int_roundtrip,
};

verus! {

/// The flattened unit written to a report file: one tracked item of one
/// list, with the user's score and the global average side by side.
pub struct ReportRow {
    pub list_type: String,
    pub anilist_id: i64,
    pub user_score: i64,
    pub global_avg_score: i64,
}

/// The data a row carries, with the list name as a character sequence.
pub open spec fn row_data(r: ReportRow) -> (Seq<char>, i64, i64, i64) {
    (r.list_type@, r.anilist_id, r.user_score, r.global_avg_score)
}

pub open spec fn rows_data(rows: Seq<ReportRow>) -> Seq<(Seq<char>, i64, i64, i64)> {
    rows.map_values(|r: ReportRow| row_data(r))
}

/// A list name that can stand unquoted in a report field.
pub open spec fn csv_safe(s: Seq<char>) -> bool {
    forall|i: int|
        0 <= i < s.len() ==> #[trigger] s[i] != ',' && s[i] != '\n' && s[i] != '\r' && s[i] != '"'
}

pub open spec fn header_text() -> Seq<char> {
    "list_type,anilist_id,user_score,global_avg_score\n"@
}

/// One report line, without its terminating newline.
pub open spec fn line_text(r: ReportRow) -> Seq<char> {
    r.list_type@ + seq![','] + dec_int(r.anilist_id as int) + seq![','] + dec_int(
        r.user_score as int,
    ) + seq![','] + dec_int(r.global_avg_score as int)
}

pub open spec fn row_text(r: ReportRow) -> Seq<char> {
    line_text(r) + seq!['\n']
}

/// The report lines of a row sequence, in order.
pub open spec fn rows_text(rows: Seq<ReportRow>) -> Seq<char>
    decreases rows.len(),
{
    if rows.len() == 0 {
        Seq::<char>::empty()
    } else {
        row_text(rows[0]) + rows_text(rows.drop_first())
    }
}

/// The full report document: header line, then one line per row.
pub open spec fn csv_doc(rows: Seq<ReportRow>) -> Seq<char> {
    header_text() + rows_text(rows)
}

pub proof fn lemma_rows_text_push(rows: Seq<ReportRow>, r: ReportRow)
    ensures
        rows_text(rows.push(r)) == rows_text(rows) + row_text(r),
    decreases rows.len(),
{
    if rows.len() == 0 {
        assert(rows.push(r).drop_first() =~= Seq::<ReportRow>::empty());
        assert(rows.push(r)[0] == r);
        assert(row_text(r) + Seq::<char>::empty() =~= row_text(r));
        assert(Seq::<char>::empty() + row_text(r) =~= row_text(r));
        assert(rows_text(rows.push(r)) == row_text(r) + rows_text(rows.push(r).drop_first()));
        assert(rows_text(rows.push(r)) =~= rows_text(rows) + row_text(r));
    } else {
        assert(rows.push(r).drop_first() =~= rows.drop_first().push(r));
        lemma_rows_text_push(rows.drop_first(), r);
        assert(rows.push(r)[0] == rows[0]);
        assert(row_text(rows[0]) + (rows_text(rows.drop_first()) + row_text(r)) =~= (row_text(
            rows[0],
        ) + rows_text(rows.drop_first())) + row_text(r));
        assert(rows_text(rows.push(r)) == row_text(rows[0]) + rows_text(
            rows.drop_first().push(r),
        ));
        assert(rows_text(rows.push(r)) =~= rows_text(rows) + row_text(r));
    }
}

/// Writes the report document for a sequence of rows: the fixed header,
/// then one `list,id,user,avg` line per row, in order.
pub fn csv_of_rows(rows: &Vec<ReportRow>) -> (s: String)
    ensures
        s@ == csv_doc(rows@),
{
    let mut s = String::from_str("list_type,anilist_id,user_score,global_avg_score\n");
    let mut i: usize = 0;
    while i < rows.len()
        invariant
            i <= rows.len(),
            s@ == header_text() + rows_text(rows@.take(i as int)),
        decreases rows.len() - i,
    {
        proof {
            reveal_strlit(",");
            reveal_strlit("\n");
            assert(rows@.take(i + 1) =~= rows@.take(i as int).push(rows@[i as int]));
            lemma_rows_text_push(rows@.take(i as int), rows@[i as int]);
        }
        s.append(rows[i].list_type.as_str());
        s.append(",");
        let t1 = i64_to_string(rows[i].anilist_id);
        s.append(t1.as_str());
        s.append(",");
        let t2 = i64_to_string(rows[i].user_score);
        s.append(t2.as_str());
        s.append(",");
        let t3 = i64_to_string(rows[i].global_avg_score);
        s.append(t3.as_str());
        s.append("\n");
        proof {
            assert(","@ =~= seq![',']);
            assert("\n"@ =~= seq!['\n']);
            assert(s@ =~= header_text() + rows_text(rows@.take(i + 1)));
        }
        i = i + 1;
    }
    proof {
        assert(rows@.take(i as int) =~= rows@);
    }
    s
}

impl AnilistScores {
    /// Flattens a joined list into its report rows, one per entry, in
    /// entry order.
    pub fn report_rows(&self) -> (rows: Vec<ReportRow>)
        requires
            self.wf(),
        ensures
            rows@.len() == self.anilist_id@.len(),
            forall|i: int|
                0 <= i < rows@.len() ==> (#[trigger] rows@[i]).list_type@ == self.list_type@
                    && rows@[i].anilist_id == self.anilist_id@[i] && rows@[i].user_score
                    == self.user_score@[i] && rows@[i].global_avg_score
                    == self.global_avg_score@[i],
    {
        let mut rows: Vec<ReportRow> = Vec::new();
        let mut i: usize = 0;
        while i < self.anilist_id.len()
            invariant
                self.wf(),
                i <= self.anilist_id@.len(),
                rows@.len() == i,
                forall|j: int|
                    0 <= j < i ==> (#[trigger] rows@[j]).list_type@ == self.list_type@
                        && rows@[j].anilist_id == self.anilist_id@[j] && rows@[j].user_score
                        == self.user_score@[j] && rows@[j].global_avg_score
                        == self.global_avg_score@[j],
            decreases self.anilist_id.len() - i,
        {
            rows.push(
                ReportRow {
                    list_type: String::from_str(self.list_type.as_str()),
                    anilist_id: self.anilist_id[i],
                    user_score: self.user_score[i],
                    global_avg_score: self.global_avg_score[i],
                },
            );
            i = i + 1;
        }
        rows
    }
}

// ---------------------------------------------------------------------------
// Parsing a report document back
// ---------------------------------------------------------------------------

/// Length of the prefix before the first occurrence of c; the whole
/// length when c is absent.
pub open spec fn idx_of(s: Seq<char>, c: char) -> nat
    decreases s.len(),
{
    if s.len() == 0 {
        0
    } else if s[0] == c {
        0
    } else {
        1 + idx_of(s.drop_first(), c)
    }
}

/// idx_of is pinned by its pointwise description: nothing before i is
/// c, and either i is the length or position i holds c.
pub proof fn lemma_idx_of_at(s: Seq<char>, c: char, i: int)
    requires
        0 <= i <= s.len(),
        forall|q: int| 0 <= q < i ==> #[trigger] s[q] != c,
        i < s.len() ==> s[i] == c,
    ensures
        idx_of(s, c) == i,
    decreases s.len(),
{
    if s.len() > 0 && i > 0 {
        let d = s.drop_first();
        assert(forall|q: int| 0 <= q < d.len() ==> #[trigger] d[q] == s[q + 1]);
        lemma_idx_of_at(d, c, i - 1);
    }
}

/// What one line parses to: the name field before the first comma, then
/// three signed decimal fields; the last field must hold no comma.
pub open spec fn spec_parse_row(line: Seq<char>) -> Option<(Seq<char>, i64, i64, i64)> {
    let i0 = idx_of(line, ',');
    if i0 == line.len() {
        None
    } else {
        let f0 = line.take(i0 as int);
        let r1 = line.skip(i0 + 1 as int);
        let i1 = idx_of(r1, ',');
        if i1 == r1.len() {
            None
        } else {
            let f1 = r1.take(i1 as int);
            let r2 = r1.skip(i1 + 1 as int);
            let i2 = idx_of(r2, ',');
            if i2 == r2.len() {
                None
            } else {
                let f2 = r2.take(i2 as int);
                let f3 = r2.skip(i2 + 1 as int);
                if idx_of(f3, ',') != f3.len() {
                    None
                } else {
                    match (spec_parse_i64(f1), spec_parse_i64(f2), spec_parse_i64(f3)) {
                        (Some(a), Some(b), Some(c)) => Some((f0, a, b, c)),
                        _ => None,
                    }
                }
            }
        }
    }
}

/// What the body of a report document parses to: newline-terminated
/// lines, each parsed as a row.
pub open spec fn spec_parse_rows(s: Seq<char>) -> Option<Seq<(Seq<char>, i64, i64, i64)>>
    decreases s.len(),
{
    if s.len() == 0 {
        Some(Seq::<(Seq<char>, i64, i64, i64)>::empty())
    } else {
        let i = idx_of(s, '\n');
        if i >= s.len() {
            None
        } else {
            let line = s.take(i as int);
            let rest = s.skip(i + 1 as int);
            match spec_parse_row(line) {
                Some(r) => match spec_parse_rows(rest) {
                    Some(rs) => Some(seq![r] + rs),
                    None => None,
                },
                None => None,
            }
        }
    }
}

/// What a report document parses to: the exact header, then the rows.
pub open spec fn spec_parse_csv(s: Seq<char>) -> Option<Seq<(Seq<char>, i64, i64, i64)>> {
    if s.len() >= header_text().len() && s.take(header_text().len() as int) == header_text() {
        spec_parse_rows(s.skip(header_text().len() as int))
    } else {
        None
    }
}

/// The rendering of an integer holds neither separator a report line
/// uses.
pub proof fn lemma_dec_int_csv_safe(v: int)
    ensures
        csv_safe(dec_int(v)),
{
    lemma_dec_int_chars(v);
    assert(forall|i: int|
        0 <= i < dec_int(v).len() ==> (is_dec_digit(#[trigger] dec_int(v)[i]) || dec_int(v)[i]
            == '-'));
}

/// Splitting `a + "," + b` at its first comma recovers a and b, when a
/// holds no comma.
pub proof fn lemma_split_field(a: Seq<char>, b: Seq<char>)
    requires
        forall|q: int| 0 <= q < a.len() ==> #[trigger] a[q] != ',',
    ensures
        idx_of(a + seq![','] + b, ',') == a.len(),
        (a + seq![','] + b).take(a.len() as int) == a,
        (a + seq![','] + b).skip(a.len() + 1 as int) == b,
        (a + seq![','] + b).len() == a.len() + 1 + b.len(),
{
    let line = a + seq![','] + b;
    lemma_idx_of_at(line, ',', a.len() as int);
    assert(line.take(a.len() as int) =~= a);
    assert(line.skip(a.len() + 1 as int) =~= b);
}

/// A rendered line carries no newline, and parses back to its row's
/// data.
#[verifier::rlimit(100)]
pub proof fn lemma_parse_row_roundtrip(r: ReportRow)
    requires
        csv_safe(r.list_type@),
    ensures
        forall|q: int| 0 <= q < line_text(r).len() ==> #[trigger] line_text(r)[q] != '\n',
        spec_parse_row(line_text(r)) == Some(row_data(r)),
{
    let f0 = r.list_type@;
    let d1 = dec_int(r.anilist_id as int);
    let d2 = dec_int(r.user_score as int);
    let d3 = dec_int(r.global_avg_score as int);
    lemma_dec_int_csv_safe(r.anilist_id as int);
    lemma_dec_int_csv_safe(r.user_score as int);
    lemma_dec_int_csv_safe(r.global_avg_score as int);
    let r2 = d2 + seq![','] + d3;
    let r1 = d1 + seq![','] + r2;
    let line = line_text(r);
    assert(line =~= f0 + seq![','] + r1);
    lemma_split_field(f0, r1);
    lemma_split_field(d1, r2);
    lemma_split_field(d2, d3);
    lemma_idx_of_at(d3, ',', d3.len() as int);
    lemma_parse_dec_int_roundtrip(r.anilist_id);
    lemma_parse_dec_int_roundtrip(r.user_score);
    lemma_parse_dec_int_roundtrip(r.global_avg_score);
    assert(spec_parse_row(line) == Some(row_data(r)));
    assert(forall|q: int| 0 <= q < line.len() ==> #[trigger] line[q] != '\n') by {
        assert(forall|q: int| 0 <= q < f0.len() ==> #[trigger] f0[q] != '\n');
        assert(forall|q: int| 0 <= q < r2.len() ==> #[trigger] r2[q] != '\n');
        assert(forall|q: int| 0 <= q < r1.len() ==> #[trigger] r1[q] != '\n');
    }
}

/// The rendered lines of a row sequence parse back to exactly its data.
pub proof fn lemma_parse_rows_roundtrip(rows: Seq<ReportRow>)
    requires
        forall|p: int| 0 <= p < rows.len() ==> csv_safe((#[trigger] rows[p]).list_type@),
    ensures
        spec_parse_rows(rows_text(rows)) == Some(rows_data(rows)),
    decreases rows.len(),
{
    if rows.len() == 0 {
        assert(rows_text(rows) =~= Seq::<char>::empty());
        assert(rows_data(rows) =~= Seq::<(Seq<char>, i64, i64, i64)>::empty());
    } else {
        let r0 = rows[0];
        let rest = rows.drop_first();
        let line = line_text(r0);
        let total = rows_text(rows);
        lemma_parse_row_roundtrip(r0);
        assert(total =~= line + seq!['\n'] + rows_text(rest));
        lemma_idx_of_at(total, '\n', line.len() as int);
        assert(total.len() > line.len());
        assert(total.take(line.len() as int) =~= line);
        assert(total.skip(line.len() + 1 as int) =~= rows_text(rest));
        assert(forall|q: int| 0 <= q < rest.len() ==> #[trigger] rest[q] == rows[q + 1]);
        lemma_parse_rows_roundtrip(rest);
        assert(rows_data(rows) =~= seq![row_data(r0)] + rows_data(rest));
    }
}

/// Parses a report document back into rows: the exact header, then one
/// `list,id,user,avg` line per row. `None` on any malformed document.
#[verifier::rlimit(100)]
pub fn parse_csv(s: &str) -> (r: Option<Vec<ReportRow>>)
    ensures
        match r {
            Some(rows) => spec_parse_csv(s@) == Some(rows_data(rows@)),
            None => spec_parse_csv(s@) is None,
        },
{
    let n = s.unicode_len();
    let header = "list_type,anilist_id,user_score,global_avg_score\n";
    let hl = header.unicode_len();
    if n < hl {
        return None;
    }
    let mut q: usize = 0;
    while q < hl
        invariant
            q <= hl,
            header@ == header_text(),
            hl == header_text().len(),
            n == s@.len(),
            hl <= n,
            forall|t: int| 0 <= t < q ==> s@[t] == header_text()[t],
        decreases hl - q,
    {
        if s.get_char(q) != header.get_char(q) {
            proof {
                if s@.take(hl as int) == header_text() {
                    assert(s@[q as int] == s@.take(hl as int)[q as int]);
                }
            }
            return None;
        }
        q = q + 1;
    }
    proof {
        assert(s@.take(hl as int) =~= header_text());
    }
    let mut acc: Vec<ReportRow> = Vec::new();
    let mut pos: usize = hl;
    while pos < n
        invariant
            hl <= pos <= n,
            n == s@.len(),
            hl == header_text().len(),
            spec_parse_csv(s@) == spec_parse_rows(s@.skip(hl as int)),
            (match spec_parse_rows(s@.skip(pos as int)) {
                Some(tail) => spec_parse_rows(s@.skip(hl as int)) == Some(rows_data(acc@) + tail),
                None => spec_parse_rows(s@.skip(hl as int)) is None,
            }),
        decreases n - pos,
    {
        let ghost t = s@.skip(pos as int);
        proof {
            assert(forall|u: int| 0 <= u < t.len() ==> #[trigger] t[u] == s@[u + pos]);
        }
        let mut e: usize = pos;
        while e < n && s.get_char(e) != '\n'
            invariant
                pos <= e <= n,
                n == s@.len(),
                forall|u: int| pos <= u < e ==> s@[u] != '\n',
            decreases n - e,
        {
            e = e + 1;
        }
        if e == n {
            proof {
                lemma_idx_of_at(t, '\n', (e - pos) as int);
            }
            return None;
        }
        proof {
            assert(s@[e as int] == '\n');
            lemma_idx_of_at(t, '\n', (e - pos) as int);
            assert(t.take((e - pos) as int) =~= s@.subrange(pos as int, e as int));
            assert(t.skip(((e - pos) + 1) as int) =~= s@.skip((e + 1) as int));
        }
        let ghost line = t.take((e - pos) as int);
        proof {
            assert(forall|u: int| 0 <= u < line.len() ==> #[trigger] line[u] == s@[u + pos]);
        }
        let mut c0: usize = pos;
        while c0 < e && s.get_char(c0) != ','
            invariant
                pos <= c0 <= e <= n,
                n == s@.len(),
                forall|u: int| pos <= u < c0 ==> s@[u] != ',',
            decreases e - c0,
        {
            c0 = c0 + 1;
        }
        proof {
            lemma_idx_of_at(line, ',', (c0 - pos) as int);
        }
        if c0 == e {
            return None;
        }
        let ghost r1 = line.skip(((c0 - pos) + 1) as int);
        proof {
            assert(r1 =~= s@.subrange((c0 + 1) as int, e as int));
            assert(forall|u: int| 0 <= u < r1.len() ==> #[trigger] r1[u] == s@[u + c0 + 1]);
        }
        let mut c1: usize = c0 + 1;
        while c1 < e && s.get_char(c1) != ','
            invariant
                c0 + 1 <= c1 <= e <= n,
                n == s@.len(),
                forall|u: int| c0 + 1 <= u < c1 ==> s@[u] != ',',
            decreases e - c1,
        {
            c1 = c1 + 1;
        }
        proof {
            lemma_idx_of_at(r1, ',', (c1 - c0 - 1) as int);
        }
        if c1 == e {
            return None;
        }
        let ghost r2 = r1.skip(((c1 - c0 - 1) + 1) as int);
        proof {
            assert(r2 =~= s@.subrange((c1 + 1) as int, e as int));
            assert(forall|u: int| 0 <= u < r2.len() ==> #[trigger] r2[u] == s@[u + c1 + 1]);
        }
        let mut c2: usize = c1 + 1;
        while c2 < e && s.get_char(c2) != ','
            invariant
                c1 + 1 <= c2 <= e <= n,
                n == s@.len(),
                forall|u: int| c1 + 1 <= u < c2 ==> s@[u] != ',',
            decreases e - c2,
        {
            c2 = c2 + 1;
        }
        proof {
            lemma_idx_of_at(r2, ',', (c2 - c1 - 1) as int);
        }
        if c2 == e {
            return None;
        }
        let ghost f3 = r2.skip(((c2 - c1 - 1) + 1) as int);
        proof {
            assert(f3 =~= s@.subrange((c2 + 1) as int, e as int));
            assert(forall|u: int| 0 <= u < f3.len() ==> #[trigger] f3[u] == s@[u + c2 + 1]);
        }
        let mut c3: usize = c2 + 1;
        while c3 < e && s.get_char(c3) != ','
            invariant
                c2 + 1 <= c3 <= e <= n,
                n == s@.len(),
                forall|u: int| c2 + 1 <= u < c3 ==> s@[u] != ',',
            decreases e - c3,
        {
            c3 = c3 + 1;
        }
        if c3 < e {
            proof {
                assert(s@[c3 as int] == ',');
                lemma_idx_of_at(f3, ',', (c3 - c2 - 1) as int);
            }
            return None;
        }
        proof {
            lemma_idx_of_at(f3, ',', (c3 - c2 - 1) as int);
        }
        let name_str = s.substring_char(pos, c0);
        let name = String::from_str(name_str);
        proof {
            assert(line.take((c0 - pos) as int) =~= s@.subrange(pos as int, c0 as int));
            assert(r1.take((c1 - c0 - 1) as int) =~= s@.subrange((c0 + 1) as int, c1 as int));
            assert(r2.take((c2 - c1 - 1) as int) =~= s@.subrange((c1 + 1) as int, c2 as int));
        }
        let av = match parse_i64_range(s, c0 + 1, c1) {
            Some(v) => v,
            None => {
                return None;
            },
        };
        let bv = match parse_i64_range(s, c1 + 1, c2) {
            Some(v) => v,
            None => {
                return None;
            },
        };
        let cv = match parse_i64_range(s, c2 + 1, e) {
            Some(v) => v,
            None => {
                return None;
            },
        };
        let ghost rd = spec_parse_row(line).unwrap();
        proof {
            assert(spec_parse_row(line) == Some(
                (s@.subrange(pos as int, c0 as int), av, bv, cv),
            ));
        }
        let ghost old_acc = acc@;
        acc.push(
            ReportRow { list_type: name, anilist_id: av, user_score: bv, global_avg_score: cv },
        );
        proof {
            assert(row_data(acc@[old_acc.len() as int]) == rd);
            assert(rows_data(acc@) =~= rows_data(old_acc).push(rd));
            match spec_parse_rows(s@.skip((e + 1) as int)) {
                Some(tl2) => {
                    assert(spec_parse_rows(t) == Some(seq![rd] + tl2));
                    assert(rows_data(old_acc) + (seq![rd] + tl2) =~= rows_data(acc@) + tl2);
                },
                None => {
                    assert(spec_parse_rows(t) is None);
                },
            }
        }
        pos = e + 1;
    }
    proof {
        assert(s@.skip(pos as int) =~= Seq::<char>::empty());
        assert(spec_parse_rows(s@.skip(pos as int)) == Some(
            Seq::<(Seq<char>, i64, i64, i64)>::empty(),
        ));
        assert(rows_data(acc@) + Seq::<(Seq<char>, i64, i64, i64)>::empty() =~= rows_data(acc@));
    }
    Some(acc)
}

/// Round trip: rows written to a report document and parsed back yield
/// exactly the (name, id, user score, global average) data they held.
pub proof fn lemma_csv_roundtrip(rows: Seq<ReportRow>)
    requires
        forall|p: int| 0 <= p < rows.len() ==> csv_safe((#[trigger] rows[p]).list_type@),
    ensures
        spec_parse_csv(csv_doc(rows)) == Some(rows_data(rows)),
{
    let s = csv_doc(rows);
    assert(s.take(header_text().len() as int) =~= header_text());
    assert(s.skip(header_text().len() as int) =~= rows_text(rows));
    lemma_parse_rows_roundtrip(rows);
}

} // verus!
