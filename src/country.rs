//! Surrogate keys for free-text country values, and the country dimension
//! built from the fact source.
//!
//! A key is the sum of the character codes of the (sentinel-substituted)
//! text, modulo 1_000_000_009. It is deterministic; distinct texts may share
//! a key (any two anagrams do), and the dimension keeps the first text seen
//! for a key.
use crate::frame::{cell_text, cell_to_text, CellValue, Frame};
use crate::text::text_eq;
use crate::types::SourceType;
use crate::error::LoadError;
use vstd::prelude::*;
use vstd::string::*;

verus! {

pub const KEY_MODULUS: u64 = 1_000_000_009;

/// Sum of the character codes modulo `KEY_MODULUS`.
pub open spec fn additive_hash(s: Seq<char>) -> nat
    decreases s.len(),
{
    if s.len() == 0 {
        0
    } else {
        (additive_hash(s.drop_last()) + (s.last() as u32) as nat) % (KEY_MODULUS as nat)
    }
}

/// Surrogate key of a text.
pub fn simple_hash(s: &str) -> (r: u64)
    ensures
        r == additive_hash(s@),
{
    let n = s.unicode_len();
    let mut hash: u64 = 0;
    let mut i: usize = 0;
    while i < n
        invariant
            n == s@.len(),
            i <= n,
            hash == additive_hash(s@.subrange(0, i as int)),
            hash < KEY_MODULUS,
        decreases n - i,
    {
        let c = s.get_char(i);
        proof {
            let sub = s@.subrange(0, i + 1);
            assert(sub.drop_last() =~= s@.subrange(0, i as int));
            assert(sub.last() == c);
        }
        hash = (hash + (c as u32) as u64) % KEY_MODULUS;
        i = i + 1;
    }
    assert(s@.subrange(0, n as int) =~= s@);
    hash
}

/// Placeholder for the nationality sentinel `99` (ignored).
pub open spec fn ignored_text() -> Seq<char> {
    "SE INGONARA"@
}

/// Placeholder for the origin sentinel `97` (not applicable).
pub open spec fn not_applicable_text() -> Seq<char> {
    "NO APLICA"@
}

/// A nationality value with its sentinel replaced.
pub open spec fn nationality_substituted(v: Seq<char>) -> Seq<char> {
    if v == "99"@ {
        ignored_text()
    } else {
        v
    }
}

/// An origin value with its sentinel replaced.
pub open spec fn origin_substituted(v: Seq<char>) -> Seq<char> {
    if v == "97"@ {
        not_applicable_text()
    } else {
        v
    }
}

/// The two country columns.
#[derive(Debug, Clone, Copy, PartialEq, Eq, Structural)]
pub enum CountryColumn {
    /// `PAIS_NACIONALIDAD`, whose sentinel `99` means ignored.
    Nationality,
    /// `PAIS_ORIGEN`, whose sentinel `97` means not applicable.
    Origin,
}

pub open spec fn substituted(col: CountryColumn, v: Seq<char>) -> Seq<char> {
    match col {
        CountryColumn::Nationality => nationality_substituted(v),
        CountryColumn::Origin => origin_substituted(v),
    }
}

/// Surrogate key of a raw value of a country column.
pub open spec fn country_key(col: CountryColumn, v: Seq<char>) -> nat {
    additive_hash(substituted(col, v))
}

/// Replaces the column's sentinel by its placeholder.
pub fn substitute_sentinel(col: CountryColumn, v: &str) -> (r: String)
    ensures
        r@ == substituted(col, v@),
{
    match col {
        CountryColumn::Nationality => {
            if text_eq(v, "99") {
                String::from_str("SE INGONARA")
            } else {
                String::from_str(v)
            }
        },
        CountryColumn::Origin => {
            if text_eq(v, "97") {
                String::from_str("NO APLICA")
            } else {
                String::from_str(v)
            }
        },
    }
}

/// The surrogate key that a raw country value takes.
pub fn country_surrogate_key(col: CountryColumn, v: &str) -> (r: u64)
    ensures
        r == country_key(col, v@),
{
    let t = substitute_sentinel(col, v);
    simple_hash(t.as_str())
}

/// Equal texts after substitution have equal keys; in particular a sentinel
/// and its placeholder text share one key.
pub proof fn lemma_same_text_same_key(c1: CountryColumn, s1: Seq<char>, c2: CountryColumn, s2: Seq<char>)
    requires
        substituted(c1, s1) == substituted(c2, s2),
    ensures
        country_key(c1, s1) == country_key(c2, s2),
{
}

/// The nationality sentinel and the "ignored" placeholder share a key, and
/// so do the origin sentinel and the "not applicable" placeholder.
pub proof fn lemma_sentinel_keys()
    ensures
        country_key(CountryColumn::Nationality, "99"@) == country_key(
            CountryColumn::Nationality,
            ignored_text(),
        ),
        country_key(CountryColumn::Origin, "97"@) == country_key(
            CountryColumn::Origin,
            not_applicable_text(),
        ),
{
    reveal_strlit("99");
    reveal_strlit("97");
    reveal_strlit("SE INGONARA");
    reveal_strlit("NO APLICA");
    assert(ignored_text() != "99"@) by {
        assert(ignored_text().len() != "99"@.len());
    }
    assert(not_applicable_text() != "97"@) by {
        assert(not_applicable_text().len() != "97"@.len());
    }
}

// ---------------------------------------------------------------------------
// The country dimension.
// ---------------------------------------------------------------------------

/// Texts of the non-null cells of column `j`, in row order.
pub open spec fn present_texts(rows: Seq<Seq<CellValue>>, j: int) -> Seq<Seq<char>>
    decreases rows.len(),
{
    if rows.len() == 0 {
        Seq::empty()
    } else {
        present_texts(rows.drop_last(), j) + match cell_text(rows.last()[j]) {
            Some(t) => seq![t],
            None => Seq::empty(),
        }
    }
}

/// Substituted values of column `j` of a country column, in row order.
pub open spec fn column_candidates(rows: Seq<Seq<CellValue>>, j: int, col: CountryColumn) -> Seq<Seq<char>> {
    present_texts(rows, j).map_values(|t: Seq<char>| substituted(col, t))
}

/// One `(key, text)` pair per distinct key, in order of first appearance.
pub open spec fn dedup_by_key(c: Seq<Seq<char>>) -> Seq<(nat, Seq<char>)>
    decreases c.len(),
{
    if c.len() == 0 {
        Seq::empty()
    } else {
        let prev = dedup_by_key(c.drop_last());
        let k = additive_hash(c.last());
        if exists|i: int| 0 <= i < prev.len() && prev[i].0 == k {
            prev
        } else {
            prev.push((k, c.last()))
        }
    }
}

/// Keys of the dimension are unique; every candidate's key is in it; every
/// row pairs a candidate with that candidate's key.
pub proof fn lemma_dedup_by_key(c: Seq<Seq<char>>)
    ensures
        forall|i: int, j: int|
            0 <= i < j < dedup_by_key(c).len() ==> dedup_by_key(c)[i].0 != dedup_by_key(c)[j].0,
        forall|x: int|
            0 <= x < c.len() ==> exists|i: int|
                0 <= i < dedup_by_key(c).len() && dedup_by_key(c)[i].0 == additive_hash(
                    #[trigger] c[x],
                ),
        forall|i: int|
            0 <= i < dedup_by_key(c).len() ==> dedup_by_key(c)[i].0 == additive_hash(
                #[trigger] dedup_by_key(c)[i].1,
            ) && c.contains(dedup_by_key(c)[i].1),
    decreases c.len(),
{
    if c.len() > 0 {
        let p = c.drop_last();
        lemma_dedup_by_key(p);
        let d = dedup_by_key(c);
        let prev = dedup_by_key(p);
        assert forall|x: int| 0 <= x < c.len() implies exists|i: int|
            0 <= i < d.len() && d[i].0 == additive_hash(#[trigger] c[x]) by {
            if x < c.len() - 1 {
                assert(c[x] == p[x]);
                let i = choose|i: int| 0 <= i < prev.len() && prev[i].0 == additive_hash(p[x]);
                assert(d[i] == prev[i]);
            } else {
                if exists|i: int| 0 <= i < prev.len() && prev[i].0 == additive_hash(c.last()) {
                    let i = choose|i: int|
                        0 <= i < prev.len() && prev[i].0 == additive_hash(c.last());
                    assert(d[i] == prev[i]);
                } else {
                    assert(d[prev.len() as int].0 == additive_hash(c[x]));
                }
            }
        }
        assert forall|i: int| 0 <= i < d.len() implies d[i].0 == additive_hash(
            #[trigger] d[i].1,
        ) && c.contains(d[i].1) by {
            if i < prev.len() {
                assert(d[i] == prev[i]);
                let x = choose|x: int| 0 <= x < p.len() && p[x] == prev[i].1;
                assert(c[x] == p[x]);
            } else {
                assert(c[c.len() - 1] == c.last());
            }
        }
    }
}

/// A dimension row: the key, then the text.
pub open spec fn dimension_row(r: Seq<CellValue>, k: nat, t: Seq<char>) -> bool {
    &&& r.len() == 2
    &&& r[0] == CellValue::UInt(k as u64)
    &&& r[1] matches CellValue::Text(v) && v@ == t
}

/// Appends the key and the text of a present cell, if its key is new.
fn add_candidate(
    keys: &mut Vec<u64>,
    texts: &mut Vec<String>,
    cell: &CellValue,
    col: CountryColumn,
    Ghost(c): Ghost<Seq<Seq<char>>>,
)
    requires
        old(keys)@.len() == old(texts)@.len(),
        dedup_by_key(c) == Seq::new(
            old(keys)@.len(),
            |i: int| (old(keys)@[i] as nat, old(texts)@[i]@),
        ),
    ensures
        final(keys)@.len() == final(texts)@.len(),
        dedup_by_key(
            c + match cell_text(*cell) {
                Some(t) => seq![substituted(col, t)],
                None => Seq::empty(),
            },
        ) == Seq::new(final(keys)@.len(), |i: int| (final(keys)@[i] as nat, final(texts)@[i]@)),
{
    match cell_to_text(cell) {
        None => {
            assert(c + Seq::<Seq<char>>::empty() =~= c);
        },
        Some(raw) => {
            let v = substitute_sentinel(col, raw.as_str());
            let k = simple_hash(v.as_str());
            let ghost c2 = c.push(v@);
            assert(c + seq![substituted(col, raw@)] =~= c2);
            assert(c2.drop_last() =~= c);
            let ghost prev = dedup_by_key(c);
            let mut found = false;
            let mut i: usize = 0;
            while i < keys.len()
                invariant
                    i <= keys@.len(),
                    prev == Seq::new(keys@.len(), |i: int| (keys@[i] as nat, texts@[i]@)),
                    found <==> exists|j: int| 0 <= j < i && prev[j].0 == k,
                decreases keys.len() - i,
            {
                if keys[i] == k {
                    found = true;
                    assert(prev[i as int].0 == k);
                }
                i = i + 1;
            }
            if !found {
                keys.push(k);
                texts.push(v);
                assert(dedup_by_key(c2) =~= Seq::new(
                    keys@.len(),
                    |i: int| (keys@[i] as nat, texts@[i]@),
                ));
            }
        },
    }
}

/// The country dimension: one row `(key, text)` per distinct surrogate key
/// among the present values of `PAIS_NACIONALIDAD` then `PAIS_ORIGEN` (row
/// order, sentinels replaced), keeping the first text of each key. The
/// columns are named `id_name` (unsigned) and `col_name` (text).
pub fn get_unique_contry(df: &Frame, col_name: &str, id_name: &str) -> (r: Result<Frame, LoadError>)
    requires
        df.wf(),
    ensures
        r is Err <==> !crate::frame::has_name(df.columns@, "PAIS_NACIONALIDAD"@)
            || !crate::frame::has_name(df.columns@, "PAIS_ORIGEN"@),
        r matches Ok(t) ==> {
            let nj = choose|j: int| crate::frame::first_index_of(df.columns@, "PAIS_NACIONALIDAD"@, j);
            let oj = choose|j: int| crate::frame::first_index_of(df.columns@, "PAIS_ORIGEN"@, j);
            let d = dedup_by_key(
                column_candidates(crate::frame::cells(df.rows@), nj, CountryColumn::Nationality)
                    + column_candidates(crate::frame::cells(df.rows@), oj, CountryColumn::Origin),
            );
            &&& t.wf()
            &&& t.columns@.len() == 2 && t.columns@[0]@ == id_name@ && t.columns@[1]@ == col_name@
            &&& t.dtypes@ == seq![SourceType::UInt64, SourceType::String]
            &&& t.rows@.len() == d.len()
            &&& forall|i: int|
                0 <= i < d.len() ==> dimension_row(#[trigger] t.rows@[i]@, d[i].0, d[i].1)
        },
{
    let nj = match df.column_index("PAIS_NACIONALIDAD") {
        Some(j) => j,
        None => {
            return Err(LoadError::SourceFormat(String::from_str("PAIS_NACIONALIDAD")));
        },
    };
    let oj = match df.column_index("PAIS_ORIGEN") {
        Some(j) => j,
        None => {
            return Err(LoadError::SourceFormat(String::from_str("PAIS_ORIGEN")));
        },
    };
    proof {
        assert(crate::frame::first_index_of(df.columns@, "PAIS_NACIONALIDAD"@, nj as int));
        assert(crate::frame::first_index_of(df.columns@, "PAIS_ORIGEN"@, oj as int));
        assert forall|j: int|
            crate::frame::first_index_of(df.columns@, "PAIS_NACIONALIDAD"@, j) implies j
            == nj by {}
        assert forall|j: int| crate::frame::first_index_of(df.columns@, "PAIS_ORIGEN"@, j) implies j
            == oj by {}
    }
    let ghost rows = crate::frame::cells(df.rows@);
    let mut keys: Vec<u64> = Vec::new();
    let mut texts: Vec<String> = Vec::new();
    let mut i: usize = 0;
    assert(dedup_by_key(Seq::empty()) =~= Seq::new(0, |i: int| (keys@[i] as nat, texts@[i]@)));
    assert(column_candidates(rows.subrange(0, 0), nj as int, CountryColumn::Nationality)
        =~= Seq::empty());
    while i < df.rows.len()
        invariant
            df.wf(),
            rows == crate::frame::cells(df.rows@),
            nj < df.columns@.len(),
            i <= df.rows@.len(),
            keys@.len() == texts@.len(),
            dedup_by_key(column_candidates(rows.subrange(0, i as int), nj as int, CountryColumn::Nationality))
                == Seq::new(keys@.len(), |k: int| (keys@[k] as nat, texts@[k]@)),
        decreases df.rows.len() - i,
    {
        let ghost before = column_candidates(rows.subrange(0, i as int), nj as int, CountryColumn::Nationality);
        proof {
            let sub = rows.subrange(0, i + 1);
            assert(sub.drop_last() =~= rows.subrange(0, i as int));
            assert(sub.last() == df.rows@[i as int]@);
            assert(column_candidates(sub, nj as int, CountryColumn::Nationality) =~= before + match cell_text(df.rows@[i as int]@[nj as int]) {
                Some(t) => seq![substituted(CountryColumn::Nationality, t)],
                None => Seq::empty(),
            });
        }
        add_candidate(&mut keys, &mut texts, &df.rows[i][nj], CountryColumn::Nationality, Ghost(before));
        i = i + 1;
    }
    assert(rows.subrange(0, df.rows@.len() as int) =~= rows);
    let ghost nat_c = column_candidates(rows, nj as int, CountryColumn::Nationality);
    let mut i: usize = 0;
    assert(column_candidates(rows.subrange(0, 0), oj as int, CountryColumn::Origin) =~= Seq::empty());
    assert(nat_c + Seq::<Seq<char>>::empty() =~= nat_c);
    while i < df.rows.len()
        invariant
            df.wf(),
            rows == crate::frame::cells(df.rows@),
            oj < df.columns@.len(),
            i <= df.rows@.len(),
            keys@.len() == texts@.len(),
            dedup_by_key(nat_c + column_candidates(rows.subrange(0, i as int), oj as int, CountryColumn::Origin))
                == Seq::new(keys@.len(), |k: int| (keys@[k] as nat, texts@[k]@)),
        decreases df.rows.len() - i,
    {
        let ghost before = nat_c + column_candidates(rows.subrange(0, i as int), oj as int, CountryColumn::Origin);
        proof {
            let sub = rows.subrange(0, i + 1);
            assert(sub.drop_last() =~= rows.subrange(0, i as int));
            assert(sub.last() == df.rows@[i as int]@);
            assert(nat_c + column_candidates(sub, oj as int, CountryColumn::Origin) =~= before + match cell_text(df.rows@[i as int]@[oj as int]) {
                Some(t) => seq![substituted(CountryColumn::Origin, t)],
                None => Seq::empty(),
            });
        }
        add_candidate(&mut keys, &mut texts, &df.rows[i][oj], CountryColumn::Origin, Ghost(before));
        i = i + 1;
    }
    assert(rows.subrange(0, df.rows@.len() as int) =~= rows);
    let ghost d = Seq::new(keys@.len(), |k: int| (keys@[k] as nat, texts@[k]@));
    let mut out_rows: Vec<Vec<CellValue>> = Vec::new();
    let mut k: usize = 0;
    while k < keys.len()
        invariant
            keys@.len() == texts@.len(),
            d == Seq::new(keys@.len(), |k: int| (keys@[k] as nat, texts@[k]@)),
            k <= keys@.len(),
            out_rows@.len() == k,
            forall|i: int|
                0 <= i < k ==> dimension_row(#[trigger] out_rows@[i]@, d[i].0, d[i].1),
        decreases keys.len() - k,
    {
        let mut row: Vec<CellValue> = Vec::new();
        row.push(CellValue::UInt(keys[k]));
        row.push(CellValue::Text(texts[k].clone()));
        out_rows.push(row);
        k = k + 1;
    }
    let mut columns: Vec<String> = Vec::new();
    columns.push(String::from_str(id_name));
    columns.push(String::from_str(col_name));
    let mut dtypes: Vec<SourceType> = Vec::new();
    dtypes.push(SourceType::UInt64);
    dtypes.push(SourceType::String);
    assert(dtypes@ =~= seq![SourceType::UInt64, SourceType::String]);
    Ok(Frame { columns, dtypes, rows: out_rows })
}

} // verus!
