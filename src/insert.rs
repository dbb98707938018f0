//! Rendering of rows as SQL literals, multi-row `INSERT` statements, and the
//! partition of a table's rows into batches.
use crate::frame::{cells, CellValue};
use crate::text::{
    decimal, join, push_char, push_decimal, push_joined, push_signed_decimal, push_text,
    signed_decimal, texts,
};
use vstd::prelude::*;
use vstd::string::*;

verus! {

// ---------------------------------------------------------------------------
// Quoting of text values.
// ---------------------------------------------------------------------------

/// Text with every single quote doubled.
pub open spec fn escape_quotes(t: Seq<char>) -> Seq<char>
    decreases t.len(),
{
    if t.len() == 0 {
        Seq::empty()
    } else {
        escape_quotes(t.drop_last()) + if t.last() == '\'' {
            seq!['\'', '\'']
        } else {
            seq![t.last()]
        }
    }
}

/// A quoted SQL text literal.
pub open spec fn quote_text(t: Seq<char>) -> Seq<char> {
    seq!['\''] + escape_quotes(t) + seq!['\'']
}

/// Reads the body of a quoted literal (after its opening quote) as the store
/// does: a doubled quote stands for one quote, a lone quote ends the literal
/// and must be the last character.
pub open spec fn read_quoted_body(b: Seq<char>) -> Option<Seq<char>>
    decreases b.len(),
{
    if b.len() == 0 {
        None
    } else if b[0] == '\'' {
        if b.len() == 1 {
            Some(Seq::empty())
        } else if b[1] == '\'' {
            match read_quoted_body(b.subrange(2, b.len() as int)) {
                Some(rest) => Some(seq!['\''] + rest),
                None => None,
            }
        } else {
            None
        }
    } else {
        match read_quoted_body(b.subrange(1, b.len() as int)) {
            Some(rest) => Some(seq![b[0]] + rest),
            None => None,
        }
    }
}

/// The value of a whole quoted SQL text literal.
pub open spec fn read_text_literal(l: Seq<char>) -> Option<Seq<char>> {
    if l.len() >= 1 && l[0] == '\'' {
        read_quoted_body(l.subrange(1, l.len() as int))
    } else {
        None
    }
}

/// `escape_quotes` read front to back.
proof fn lemma_escape_front(t: Seq<char>)
    requires
        t.len() > 0,
    ensures
        escape_quotes(t) == (if t[0] == '\'' {
            seq!['\'', '\'']
        } else {
            seq![t[0]]
        }) + escape_quotes(t.subrange(1, t.len() as int)),
    decreases t.len(),
{
    let rest = t.subrange(1, t.len() as int);
    if t.len() == 1 {
        assert(rest =~= Seq::<char>::empty());
        assert(t.drop_last() =~= Seq::<char>::empty());
        assert(escape_quotes(t) =~= escape_quotes(t.drop_last()) + if t.last() == '\'' {
            seq!['\'', '\'']
        } else {
            seq![t.last()]
        });
    } else {
        lemma_escape_front(t.drop_last());
        assert(t.drop_last().subrange(1, t.drop_last().len() as int) =~= rest.drop_last());
        assert(rest.last() == t.last());
        assert(escape_quotes(rest) == escape_quotes(rest.drop_last()) + if rest.last() == '\'' {
            seq!['\'', '\'']
        } else {
            seq![rest.last()]
        });
        assert(escape_quotes(t) =~= (if t[0] == '\'' {
            seq!['\'', '\'']
        } else {
            seq![t[0]]
        }) + escape_quotes(rest));
    }
}

proof fn lemma_read_escaped(t: Seq<char>)
    ensures
        read_quoted_body(escape_quotes(t) + seq!['\'']) == Some(t),
    decreases t.len(),
{
    if t.len() == 0 {
        assert(escape_quotes(t) + seq!['\''] =~= seq!['\'']);
        assert(t =~= Seq::<char>::empty());
    } else {
        let rest = t.subrange(1, t.len() as int);
        lemma_escape_front(t);
        lemma_read_escaped(rest);
        let b = escape_quotes(t) + seq!['\''];
        if t[0] == '\'' {
            assert(b[0] == '\'' && b[1] == '\'');
            assert(b.subrange(2, b.len() as int) =~= escape_quotes(rest) + seq!['\'']);
        } else {
            assert(b[0] == t[0]);
            assert(b.subrange(1, b.len() as int) =~= escape_quotes(rest) + seq!['\'']);
        }
        assert(seq![t[0]] + rest =~= t);
    }
}

/// Reading back a quoted literal gives back the quoted text, whatever
/// quotes it holds.
pub proof fn lemma_quote_round_trip(t: Seq<char>)
    ensures
        read_text_literal(quote_text(t)) == Some(t),
{
    let l = quote_text(t);
    assert(l.subrange(1, l.len() as int) =~= escape_quotes(t) + seq!['\'']);
    lemma_read_escaped(t);
}

/// Appends `t` as a quoted SQL text literal.
pub fn push_quoted(out: &mut String, t: &str)
    ensures
        final(out)@ == old(out)@ + quote_text(t@),
{
    let ghost start = out@;
    push_char(out, '\'');
    let n = t.unicode_len();
    let mut i: usize = 0;
    while i < n
        invariant
            n == t@.len(),
            i <= n,
            out@ == start + seq!['\''] + escape_quotes(t@.subrange(0, i as int)),
        decreases n - i,
    {
        let c = t.get_char(i);
        push_char(out, c);
        if c == '\'' {
            push_char(out, '\'');
        }
        proof {
            let sub = t@.subrange(0, i + 1);
            assert(sub.drop_last() =~= t@.subrange(0, i as int));
            assert(sub.last() == c);
            assert(out@ =~= start + seq!['\''] + escape_quotes(sub));
        }
        i = i + 1;
    }
    push_char(out, '\'');
    assert(t@.subrange(0, n as int) =~= t@);
    assert(out@ =~= start + quote_text(t@));
}

/// Quotes a text value for an SQL statement, doubling inner single quotes.
pub fn quote_sql_text(t: &str) -> (r: String)
    ensures
        r@ == quote_text(t@),
        read_text_literal(r@) == Some(t@),
{
    let mut out = String::new();
    push_quoted(&mut out, t);
    assert(out@ =~= quote_text(t@));
    proof {
        lemma_quote_round_trip(t@);
    }
    out
}

// ---------------------------------------------------------------------------
// Values and rows.
// ---------------------------------------------------------------------------

/// SQL literal of a cell: `NULL`, booleans as `1`/`0`, numbers as their
/// decimal text, text quoted.
pub open spec fn value_sql(c: CellValue) -> Seq<char> {
    match c {
        CellValue::Null => "NULL"@,
        CellValue::Boolean(b) => if b {
            "1"@
        } else {
            "0"@
        },
        CellValue::Int(i) => signed_decimal(i as int),
        CellValue::UInt(u) => decimal(u as nat),
        CellValue::Real(t) => t@,
        CellValue::Text(t) => quote_text(t@),
    }
}

/// Literal of one row: its values in parentheses, separated by commas.
pub open spec fn row_sql(row: Seq<CellValue>) -> Seq<char> {
    "("@ + join(Seq::new(row.len(), |i: int| value_sql(row[i])), ","@) + ")"@
}

/// A multi-row `INSERT` of `rows` into the named columns of `table`.
pub open spec fn insert_sql(table: Seq<char>, columns: Seq<Seq<char>>, rows: Seq<Seq<CellValue>>) -> Seq<char> {
    "INSERT INTO "@ + table + " ("@ + join(columns, ","@) + ") VALUES "@ + join(
        Seq::new(rows.len(), |i: int| row_sql(rows[i])),
        ","@,
    )
}

/// The SQL literal of one cell.
pub fn value_to_sql(c: &CellValue) -> (r: String)
    ensures
        r@ == value_sql(*c),
{
    let mut out = String::new();
    match c {
        CellValue::Null => push_text(&mut out, "NULL"),
        CellValue::Boolean(b) => {
            if *b {
                push_text(&mut out, "1");
            } else {
                push_text(&mut out, "0");
            }
        },
        CellValue::Int(i) => push_signed_decimal(&mut out, *i),
        CellValue::UInt(u) => push_decimal(&mut out, *u),
        CellValue::Real(t) => push_text(&mut out, t.as_str()),
        CellValue::Text(t) => push_quoted(&mut out, t.as_str()),
    }
    assert(out@ =~= value_sql(*c));
    out
}

/// The literal of one row.
pub fn row_to_sql(row: &Vec<CellValue>) -> (r: String)
    ensures
        r@ == row_sql(row@),
{
    let mut vals: Vec<String> = Vec::new();
    let ghost all = Seq::new(row@.len(), |i: int| value_sql(row@[i]));
    let mut i: usize = 0;
    while i < row.len()
        invariant
            all == Seq::new(row@.len(), |i: int| value_sql(row@[i])),
            i <= row.len(),
            texts(vals@) == all.subrange(0, i as int),
        decreases row.len() - i,
    {
        let v = value_to_sql(&row[i]);
        let ghost before = texts(vals@);
        vals.push(v);
        assert(texts(vals@) =~= before.push(v@));
        assert(texts(vals@) =~= all.subrange(0, i + 1));
        i = i + 1;
    }
    assert(all.subrange(0, row.len() as int) =~= all);
    let mut out = String::new();
    push_text(&mut out, "(");
    push_joined(&mut out, &vals, ",");
    push_text(&mut out, ")");
    assert(out@ =~= row_sql(row@));
    out
}

/// `INSERT INTO table (columns) VALUES (...),(...)` for the rows
/// `start..end`.
pub fn insert_statement(
    table: &str,
    columns: &Vec<String>,
    rows: &Vec<Vec<CellValue>>,
    start: usize,
    end: usize,
) -> (r: String)
    requires
        start <= end <= rows@.len(),
    ensures
        r@ == insert_sql(table@, texts(columns@), cells(rows@).subrange(start as int, end as int)),
{
    let ghost sel = cells(rows@).subrange(start as int, end as int);
    let ghost all = Seq::new(sel.len(), |i: int| row_sql(sel[i]));
    let mut tuples: Vec<String> = Vec::new();
    let mut i: usize = start;
    while i < end
        invariant
            start <= i <= end <= rows@.len(),
            sel == cells(rows@).subrange(start as int, end as int),
            all == Seq::new(sel.len(), |i: int| row_sql(sel[i])),
            texts(tuples@) == all.subrange(0, i - start),
        decreases end - i,
    {
        let t = row_to_sql(&rows[i]);
        let ghost before = texts(tuples@);
        tuples.push(t);
        assert(sel[i - start] == rows@[i as int]@);
        assert(texts(tuples@) =~= before.push(t@));
        assert(texts(tuples@) =~= all.subrange(0, i + 1 - start));
        i = i + 1;
    }
    assert(all.subrange(0, end - start) =~= all);
    let mut out = String::new();
    push_text(&mut out, "INSERT INTO ");
    push_text(&mut out, table);
    push_text(&mut out, " (");
    push_joined(&mut out, columns, ",");
    push_text(&mut out, ") VALUES ");
    push_joined(&mut out, &tuples, ",");
    assert(out@ =~= insert_sql(table@, texts(columns@), sel));
    out
}

// ---------------------------------------------------------------------------
// Batches.
// ---------------------------------------------------------------------------

/// Number of batches of at most `b` rows that `n` rows take.
pub open spec fn batch_count(n: nat, b: nat) -> nat
    recommends
        b > 0,
{
    if b == 0 {
        0
    } else {
        ((n + b - 1) / b as int) as nat
    }
}

/// The `i`-th batch of `n` rows in batches of `b`: rows `i*b` up to
/// `min((i+1)*b, n)`.
pub open spec fn batch_range(n: nat, b: nat, i: nat) -> (nat, nat) {
    (i * b, if (i + 1) * b <= n {
        (i + 1) * b
    } else {
        n
    })
}

/// Batch bounds of `n` rows in batches of `b`, in order.
pub open spec fn batch_ranges(n: nat, b: nat) -> Seq<(nat, nat)> {
    Seq::new(batch_count(n, b), |i: int| batch_range(n, b, i as nat))
}

proof fn lemma_batch_count(n: nat, b: nat, k: nat)
    requires
        b > 0,
        k * b < n,
    ensures
        k < batch_count(n, b),
{
    let c = batch_count(n, b) as int;
    assert(c == (n + b - 1) / (b as int));
    assert((k + 1) * b <= n + b - 1) by (nonlinear_arith)
        requires
            k * b < n,
            b > 0,
    ;
    assert(k + 1 <= (n + b - 1) / (b as int)) by (nonlinear_arith)
        requires
            (k + 1) * b <= n + b - 1,
            b > 0,
    ;
}

proof fn lemma_batch_count_upper(n: nat, b: nat, k: nat)
    requires
        b > 0,
        k * b >= n,
    ensures
        k >= batch_count(n, b),
        n == 0 ==> batch_count(n, b) == 0,
{
    if n == 0 {
        assert((b - 1) / (b as int) == 0) by (nonlinear_arith)
            requires
                b > 0,
        ;
    }
    assert((n + b - 1) / (b as int) <= k) by (nonlinear_arith)
        requires
            k * b >= n,
            b > 0,
    ;
}

/// Index of the batch that holds `row`.
pub open spec fn batch_of(b: nat, row: nat) -> nat {
    if b == 0 {
        0
    } else {
        (row / b) as nat
    }
}

proof fn lemma_batch_count_full(n: nat, b: nat)
    requires
        b > 0,
    ensures
        batch_count(n, b) * b >= n,
        batch_count(n, b) > 0 ==> (batch_count(n, b) - 1) * b < n,
{
    let c = batch_count(n, b) as int;
    let m = (n + b - 1) as int;
    assert(c == m / (b as int));
    assert(c * b + m % (b as int) == m) by (nonlinear_arith)
        requires
            c == m / (b as int),
            b > 0,
    ;
    assert(0 <= m % (b as int) < b) by (nonlinear_arith)
        requires
            b > 0,
    ;
    assert(c * b >= n) by (nonlinear_arith)
        requires
            c * b + m % (b as int) == m,
            m == n + b - 1,
            m % (b as int) < b,
    ;
    if c > 0 {
        assert((c - 1) * b < n) by (nonlinear_arith)
            requires
                c * b + m % (b as int) == m,
                m == n + b - 1,
                m % (b as int) >= 0,
        ;
    }
}

/// Batches split rows `0..n` into consecutive ranges: none is empty, none
/// holds more than `b` rows, all but the last hold exactly `b`, the first
/// starts at row 0, the last ends at row `n`, each starts where the previous
/// ended, and every row lies in exactly one of them.
pub proof fn lemma_batches_partition_rows(n: nat, b: nat)
    requires
        b > 0,
    ensures
        (batch_ranges(n, b).len() == 0) == (n == 0),
        batch_ranges(n, b).len() > 0 ==> batch_ranges(n, b)[0].0 == 0 && batch_ranges(n, b).last().1
            == n,
        forall|i: int|
            0 <= i < batch_ranges(n, b).len() ==> #[trigger] batch_ranges(n, b)[i].0 < batch_ranges(
                n,
                b,
            )[i].1 <= batch_ranges(n, b)[i].0 + b,
        forall|i: int|
            0 <= i < batch_ranges(n, b).len() - 1 ==> #[trigger] batch_ranges(n, b)[i].1
                == batch_ranges(n, b)[i + 1].0 && batch_ranges(n, b)[i].1 - batch_ranges(n, b)[i].0
                == b,
        forall|row: nat|
            row < n ==> #[trigger] batch_of(b, row) < batch_ranges(n, b).len() && batch_ranges(
                n,
                b,
            )[batch_of(b, row) as int].0 <= row < batch_ranges(n, b)[batch_of(b, row) as int].1,
        forall|row: nat, i: int|
            #![trigger batch_ranges(n, b)[i], batch_of(b, row)]
            0 <= i < batch_ranges(n, b).len() && batch_ranges(n, b)[i].0 <= row < batch_ranges(
                n,
                b,
            )[i].1 ==> i == batch_of(b, row),
{
    let r = batch_ranges(n, b);
    let c = batch_count(n, b);
    lemma_batch_count_full(n, b);
    if n == 0 {
        lemma_batch_count_upper(n, b, 0);
    } else {
        lemma_batch_count(n, b, 0);
        assert(0 * b == 0) by (nonlinear_arith);
    }
    assert forall|i: int| 0 <= i < r.len() implies #[trigger] r[i].0 < r[i].1 <= r[i].0 + b by {
        assert(i * b <= (c - 1) * b) by (nonlinear_arith)
            requires
                0 <= i < c,
                b > 0,
        ;
        assert((i + 1) * b == i * b + b) by (nonlinear_arith);
    }
    assert forall|i: int| 0 <= i < r.len() - 1 implies #[trigger] r[i].1 == r[i + 1].0 && r[i].1
        - r[i].0 == b by {
        assert((i + 1) * b <= (c - 1) * b) by (nonlinear_arith)
            requires
                0 <= i < c - 1,
                b > 0,
        ;
        assert((i + 1) * b == i * b + b) by (nonlinear_arith);
    }
    if c > 0 {
        assert(r.last().1 == n) by {
            assert((c - 1 + 1) * b == c * b) by (nonlinear_arith);
        }
    }
    assert forall|row: nat| row < n implies #[trigger] batch_of(b, row) < r.len() && r[batch_of(
        b,
        row,
    ) as int].0 <= row < r[batch_of(b, row) as int].1 by {
        let k = batch_of(b, row);
        assert(k * b <= row < (k + 1) * b) by (nonlinear_arith)
            requires
                k == row / b,
                b > 0,
        ;
        lemma_batch_count(n, b, k);
        assert(r[k as int].0 <= row < r[k as int].1);
    }
    assert forall|row: nat, i: int|
        #![trigger r[i], batch_of(b, row)]
        0 <= i < r.len() && r[i].0 <= row < r[i].1 implies i == batch_of(b, row) by {
        let k = batch_of(b, row);
        assert(k * b <= row < (k + 1) * b) by (nonlinear_arith)
            requires
                k == row / b,
                b > 0,
        ;
        assert(i * b <= row < (i + 1) * b) by (nonlinear_arith)
            requires
                r[i].0 == i * b,
                r[i].0 <= row < r[i].1,
                r[i].1 <= (i + 1) * b,
        ;
        if i < k {
            assert((i + 1) * b <= k * b) by (nonlinear_arith)
                requires
                    i + 1 <= k,
                    b > 0,
            ;
        }
        if k < i {
            assert((k + 1) * b <= i * b) by (nonlinear_arith)
                requires
                    k + 1 <= i,
                    b > 0,
            ;
        }
    }
}

/// Batch bounds `(start, end)` of `n_rows` rows in batches of at most
/// `batch_size`, in order.
pub fn partition_batches(n_rows: usize, batch_size: usize) -> (r: Vec<(usize, usize)>)
    requires
        batch_size > 0,
    ensures
        r@.len() == batch_count(n_rows as nat, batch_size as nat),
        forall|i: int| 0 <= i < r@.len() ==> #[trigger] r@[i].0 <= r@[i].1 <= n_rows,
        forall|i: int|
            0 <= i < r@.len() ==> (r@[i].0 as nat, r@[i].1 as nat) == batch_range(
                n_rows as nat,
                batch_size as nat,
                i as nat,
            ),
{
    let mut r: Vec<(usize, usize)> = Vec::new();
    let mut start: usize = 0;
    proof {
        assert(0 * (batch_size as nat) == 0) by (nonlinear_arith);
        if n_rows == 0 {
            lemma_batch_count_upper(n_rows as nat, batch_size as nat, 0);
        } else {
            lemma_batch_count(n_rows as nat, batch_size as nat, 0);
        }
    }
    while start < n_rows
        invariant
            batch_size > 0,
            start <= n_rows,
            start < n_rows ==> start as nat == r@.len() * batch_size,
            start == n_rows ==> r@.len() >= batch_count(n_rows as nat, batch_size as nat),
            r@.len() <= batch_count(n_rows as nat, batch_size as nat),
            forall|i: int| 0 <= i < r@.len() ==> #[trigger] r@[i].0 <= r@[i].1 <= n_rows,
            forall|i: int|
                0 <= i < r@.len() ==> (r@[i].0 as nat, r@[i].1 as nat) == batch_range(
                    n_rows as nat,
                    batch_size as nat,
                    i as nat,
                ),
        decreases n_rows - start,
    {
        let k = r.len();
        proof {
            lemma_batch_count(n_rows as nat, batch_size as nat, k as nat);
        }
        let end: usize = if n_rows - start > batch_size {
            start + batch_size
        } else {
            n_rows
        };
        r.push((start, end));
        proof {
            assert((k + 1) * batch_size == k * batch_size + batch_size) by (nonlinear_arith);
            if end == n_rows {
                lemma_batch_count_upper(n_rows as nat, batch_size as nat, (k + 1) as nat);
            }
        }
        start = end;
    }
    r
}

} // verus!
