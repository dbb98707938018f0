//! Normalisation of fact rows: composite municipality codes, country
//! surrogate keys, the death-date sentinel, pruning of rows with an unknown
//! municipality, and trimming of text columns.
use crate::country::{country_key, country_surrogate_key, CountryColumn};
use crate::frame::{
    cell_text, cell_to_text, cells, first_index_of, has_name, parse_u64,
    parse_unsigned, CellValue, Frame,
};
use crate::text::{push_char, push_text, text_eq};
use crate::types::SourceType;
use crate::error::LoadError;
use vstd::prelude::*;
use vstd::string::*;

verus! {

/// `t` padded on the left with `0` up to `width` characters.
pub open spec fn zero_pad(t: Seq<char>, width: nat) -> Seq<char> {
    if t.len() >= width {
        t
    } else {
        Seq::new((width - t.len()) as nat, |i: int| '0') + t
    }
}

/// The composite municipality code: the region code followed by the
/// municipality code padded to three digits, read as an unsigned integer;
/// null when either part is null or the result is no number.
pub open spec fn municipality_code(region: CellValue, municipality: CellValue) -> CellValue {
    match (cell_text(region), cell_text(municipality)) {
        (Some(r), Some(m)) => match parse_unsigned(r + zero_pad(m, 3)) {
            Some(v) => CellValue::UInt(v),
            None => CellValue::Null,
        },
        _ => CellValue::Null,
    }
}

/// A country cell replaced by its surrogate key; null stays null.
pub open spec fn country_cell(c: CellValue, col: CountryColumn) -> CellValue {
    match cell_text(c) {
        Some(t) => CellValue::UInt(country_key(col, t) as u64),
        None => CellValue::Null,
    }
}

/// The death date with its sentinel `9999-99-99` turned into null.
pub open spec fn death_cell(c: CellValue) -> CellValue {
    match c {
        CellValue::Text(t) => if t@ == "9999-99-99"@ {
            CellValue::Null
        } else {
            c
        },
        _ => c,
    }
}

/// Positions of the columns that normalisation reads.
pub struct FactColumns {
    pub region: usize,
    pub municipality: usize,
    pub nationality: usize,
    pub origin: usize,
    pub death_date: usize,
}

/// A fact row after normalisation.
pub open spec fn normalized_row(row: Seq<CellValue>, p: FactColumns) -> Seq<CellValue> {
    row.update(p.municipality as int, municipality_code(row[p.region as int], row[p.municipality as int])).update(
        p.nationality as int,
        country_cell(row[p.nationality as int], CountryColumn::Nationality),
    ).update(p.origin as int, country_cell(row[p.origin as int], CountryColumn::Origin)).update(
        p.death_date as int,
        death_cell(row[p.death_date as int]),
    )
}

/// Column types after normalisation: the code and the keys are unsigned.
pub open spec fn normalized_types(t: Seq<SourceType>, p: FactColumns) -> Seq<SourceType> {
    t.update(p.municipality as int, SourceType::UInt64).update(
        p.nationality as int,
        SourceType::UInt64,
    ).update(p.origin as int, SourceType::UInt64)
}

/// The positions of the five columns, each the first of its name.
pub open spec fn fact_columns_of(names: Seq<String>, p: FactColumns) -> bool {
    &&& first_index_of(names, "ENTIDAD_RES"@, p.region as int)
    &&& first_index_of(names, "MUNICIPIO_RES"@, p.municipality as int)
    &&& first_index_of(names, "PAIS_NACIONALIDAD"@, p.nationality as int)
    &&& first_index_of(names, "PAIS_ORIGEN"@, p.origin as int)
    &&& first_index_of(names, "FECHA_DEF"@, p.death_date as int)
}

pub open spec fn has_fact_columns(names: Seq<String>) -> bool {
    &&& has_name(names, "ENTIDAD_RES"@)
    &&& has_name(names, "MUNICIPIO_RES"@)
    &&& has_name(names, "PAIS_NACIONALIDAD"@)
    &&& has_name(names, "PAIS_ORIGEN"@)
    &&& has_name(names, "FECHA_DEF"@)
}

fn required_column(df: &Frame, name: &str) -> (r: Result<usize, LoadError>)
    ensures
        r matches Ok(i) ==> first_index_of(df.columns@, name@, i as int),
        r is Err <==> !has_name(df.columns@, name@),
{
    match df.column_index(name) {
        Some(i) => Ok(i),
        None => Err(LoadError::SourceFormat(String::from_str(name))),
    }
}

/// Finds the five columns that normalisation reads.
pub fn fact_columns(df: &Frame) -> (r: Result<FactColumns, LoadError>)
    ensures
        r matches Ok(p) ==> fact_columns_of(df.columns@, p),
        r is Err <==> !has_fact_columns(df.columns@),
{
    let region = required_column(df, "ENTIDAD_RES")?;
    let municipality = required_column(df, "MUNICIPIO_RES")?;
    let nationality = required_column(df, "PAIS_NACIONALIDAD")?;
    let origin = required_column(df, "PAIS_ORIGEN")?;
    let death_date = required_column(df, "FECHA_DEF")?;
    Ok(FactColumns { region, municipality, nationality, origin, death_date })
}

/// Appends `t` padded on the left with zeros to `width` characters.
fn push_zero_padded(out: &mut String, t: &str, width: usize)
    ensures
        final(out)@ == old(out)@ + zero_pad(t@, width as nat),
{
    let ghost start = out@;
    let n = t.unicode_len();
    if n < width {
        let mut k: usize = 0;
        while k < width - n
            invariant
                n < width,
                k <= width - n,
                out@ == start + Seq::new(k as nat, |i: int| '0'),
            decreases width - n - k,
        {
            push_char(out, '0');
            assert(out@ =~= start + Seq::new((k + 1) as nat, |i: int| '0'));
            k = k + 1;
        }
    }
    push_text(out, t);
    assert(out@ =~= start + zero_pad(t@, width as nat));
}

/// The composite municipality code of a region and a municipality cell.
pub fn municipality_key(region: &CellValue, municipality: &CellValue) -> (r: CellValue)
    ensures
        r == municipality_code(*region, *municipality),
{
    match (cell_to_text(region), cell_to_text(municipality)) {
        (Some(r), Some(m)) => {
            let mut code = r;
            push_zero_padded(&mut code, m.as_str(), 3);
            match parse_u64(code.as_str()) {
                Some(v) => CellValue::UInt(v),
                None => CellValue::Null,
            }
        },
        _ => CellValue::Null,
    }
}

fn country_to_key(c: &CellValue, col: CountryColumn) -> (r: CellValue)
    ensures
        r == country_cell(*c, col),
{
    match cell_to_text(c) {
        Some(t) => CellValue::UInt(country_surrogate_key(col, t.as_str())),
        None => CellValue::Null,
    }
}

fn death_to_cell(c: &CellValue) -> (r: CellValue)
    ensures
        r == death_cell(*c),
{
    match c {
        CellValue::Text(t) => {
            if text_eq(t.as_str(), "9999-99-99") {
                CellValue::Null
            } else {
                c.clone()
            }
        },
        _ => c.clone(),
    }
}

fn set_cell(row: &mut Vec<CellValue>, j: usize, v: CellValue)
    requires
        j < old(row)@.len(),
    ensures
        final(row)@ == old(row)@.update(j as int, v),
{
    row.set(j, v);
}

/// Normalises the fact rows: `MUNICIPIO_RES` becomes the composite code of
/// `ENTIDAD_RES` and itself, `PAIS_NACIONALIDAD` and `PAIS_ORIGEN` become
/// surrogate keys, and the death-date sentinel becomes null. Fails when one
/// of these columns is missing.
pub fn clean_data_covid(df: &Frame) -> (r: Result<Frame, LoadError>)
    requires
        df.wf(),
    ensures
        r is Err <==> !has_fact_columns(df.columns@),
        r matches Ok(t) ==> {
            let p = choose|p: FactColumns| fact_columns_of(df.columns@, p);
            &&& t.wf()
            &&& t.columns@ == df.columns@
            &&& t.dtypes@ == normalized_types(df.dtypes@, p)
            &&& t.rows@.len() == df.rows@.len()
            &&& forall|i: int|
                0 <= i < t.rows@.len() ==> #[trigger] t.rows@[i]@ == normalized_row(
                    df.rows@[i]@,
                    p,
                )
        },
{
    let p = fact_columns(df)?;
    proof {
        assert forall|q: FactColumns| fact_columns_of(df.columns@, q) implies q == p by {
            assert(q.region == p.region);
            assert(q.municipality == p.municipality);
            assert(q.nationality == p.nationality);
            assert(q.origin == p.origin);
            assert(q.death_date == p.death_date);
        }
    }
    let mut rows: Vec<Vec<CellValue>> = Vec::new();
    let mut i: usize = 0;
    while i < df.rows.len()
        invariant
            df.wf(),
            fact_columns_of(df.columns@, p),
            i <= df.rows@.len(),
            rows@.len() == i,
            forall|k: int| 0 <= k < i ==> #[trigger] rows@[k]@ == normalized_row(df.rows@[k]@, p),
        decreases df.rows.len() - i,
    {
        let src = &df.rows[i];
        let mut row = src.clone();
        assert(row@ == src@);
        let m = municipality_key(&src[p.region], &src[p.municipality]);
        set_cell(&mut row, p.municipality, m);
        let n = country_to_key(&src[p.nationality], CountryColumn::Nationality);
        set_cell(&mut row, p.nationality, n);
        let o = country_to_key(&src[p.origin], CountryColumn::Origin);
        set_cell(&mut row, p.origin, o);
        let d = death_to_cell(&src[p.death_date]);
        set_cell(&mut row, p.death_date, d);
        rows.push(row);
        i = i + 1;
    }
    let mut dtypes = df.dtypes.clone();
    dtypes.set(p.municipality, SourceType::UInt64);
    dtypes.set(p.nationality, SourceType::UInt64);
    dtypes.set(p.origin, SourceType::UInt64);
    let columns = df.columns.clone();
    proof {
        let q = choose|q: FactColumns| fact_columns_of(df.columns@, q);
        assert(fact_columns_of(df.columns@, p));
        assert(q == p);
        assert(dtypes@ =~= normalized_types(df.dtypes@, p));
        assert(columns@ =~= df.columns@);
    }
    Ok(Frame { columns, dtypes, rows })
}

// ---------------------------------------------------------------------------
// Referential pruning.
// ---------------------------------------------------------------------------

/// An unsigned cell whose value is among `keys`.
pub open spec fn known_key(c: CellValue, keys: Seq<u64>) -> bool {
    c matches CellValue::UInt(k) && keys.contains(k)
}

/// The rows whose column `j` holds a known key, in order.
pub open spec fn rows_with_known_key(rows: Seq<Seq<CellValue>>, j: int, keys: Seq<u64>) -> Seq<Seq<CellValue>>
    decreases rows.len(),
{
    if rows.len() == 0 {
        Seq::empty()
    } else {
        rows_with_known_key(rows.drop_last(), j, keys) + if known_key(rows.last()[j], keys) {
            seq![rows.last()]
        } else {
            Seq::empty()
        }
    }
}

/// The unsigned values of column `j`, in row order.
pub open spec fn unsigned_values(rows: Seq<Seq<CellValue>>, j: int) -> Seq<u64>
    decreases rows.len(),
{
    if rows.len() == 0 {
        Seq::empty()
    } else {
        unsigned_values(rows.drop_last(), j) + match rows.last()[j] {
            CellValue::UInt(k) => seq![k],
            _ => Seq::empty(),
        }
    }
}

fn contains_key(keys: &Vec<u64>, k: u64) -> (r: bool)
    ensures
        r == keys@.contains(k),
{
    let mut i: usize = 0;
    while i < keys.len()
        invariant
            i <= keys@.len(),
            forall|j: int| 0 <= j < i ==> keys@[j] != k,
        decreases keys.len() - i,
    {
        if keys[i] == k {
            assert(keys@[i as int] == k);
            return true;
        }
        i = i + 1;
    }
    false
}

/// The unsigned values of the column `name` of a dimension table, in row
/// order; fails when there is no such column.
pub fn dimension_keys(df: &Frame, name: &str) -> (r: Result<Vec<u64>, LoadError>)
    requires
        df.wf(),
    ensures
        r is Err <==> !has_name(df.columns@, name@),
        r matches Ok(v) ==> v@ == unsigned_values(
            cells(df.rows@),
            choose|j: int| first_index_of(df.columns@, name@, j),
        ),
{
    let j = required_column(df, name)?;
    proof {
        assert forall|k: int| first_index_of(df.columns@, name@, k) implies k == j by {}
    }
    let ghost rows = cells(df.rows@);
    let mut v: Vec<u64> = Vec::new();
    let mut i: usize = 0;
    while i < df.rows.len()
        invariant
            df.wf(),
            rows == cells(df.rows@),
            j < df.columns@.len(),
            i <= df.rows@.len(),
            v@ == unsigned_values(rows.subrange(0, i as int), j as int),
        decreases df.rows.len() - i,
    {
        proof {
            let sub = rows.subrange(0, i + 1);
            assert(sub.drop_last() =~= rows.subrange(0, i as int));
            assert(sub.last() == df.rows@[i as int]@);
        }
        match &df.rows[i][j] {
            CellValue::UInt(k) => {
                v.push(*k);
            },
            _ => {},
        }
        assert(v@ =~= unsigned_values(rows.subrange(0, i + 1), j as int));
        i = i + 1;
    }
    assert(rows.subrange(0, df.rows@.len() as int) =~= rows);
    Ok(v)
}

/// Keeps the rows whose `MUNICIPIO_RES` is one of `keys`, in order; rows with
/// an unknown or null code are dropped. Fails when the column is missing.
pub fn retain_known_municipalities(df: &Frame, keys: &Vec<u64>) -> (r: Result<Frame, LoadError>)
    requires
        df.wf(),
    ensures
        r is Err <==> !has_name(df.columns@, "MUNICIPIO_RES"@),
        r matches Ok(t) ==> {
            &&& t.wf()
            &&& t.columns@ == df.columns@
            &&& t.dtypes@ == df.dtypes@
            &&& cells(t.rows@) == rows_with_known_key(
                cells(df.rows@),
                choose|j: int| first_index_of(df.columns@, "MUNICIPIO_RES"@, j),
                keys@,
            )
        },
{
    let j = required_column(df, "MUNICIPIO_RES")?;
    proof {
        assert forall|k: int| first_index_of(df.columns@, "MUNICIPIO_RES"@, k) implies k == j by {}
    }
    let ghost src = cells(df.rows@);
    let mut rows: Vec<Vec<CellValue>> = Vec::new();
    let mut i: usize = 0;
    while i < df.rows.len()
        invariant
            df.wf(),
            src == cells(df.rows@),
            j < df.columns@.len(),
            i <= df.rows@.len(),
            cells(rows@) == rows_with_known_key(src.subrange(0, i as int), j as int, keys@),
            forall|k: int| 0 <= k < rows@.len() ==> #[trigger] rows@[k]@.len() == df.columns@.len(),
        decreases df.rows.len() - i,
    {
        proof {
            let sub = src.subrange(0, i + 1);
            assert(sub.drop_last() =~= src.subrange(0, i as int));
            assert(sub.last() == df.rows@[i as int]@);
        }
        let ghost before = cells(rows@);
        let keep = match &df.rows[i][j] {
            CellValue::UInt(k) => contains_key(keys, *k),
            _ => false,
        };
        if keep {
            let row = df.rows[i].clone();
            assert(row@ == df.rows@[i as int]@);
            rows.push(row);
            assert(cells(rows@) =~= before.push(df.rows@[i as int]@));
        } else {
            assert(cells(rows@) =~= before);
        }
        assert(cells(rows@) =~= rows_with_known_key(src.subrange(0, i + 1), j as int, keys@));
        i = i + 1;
    }
    assert(src.subrange(0, df.rows@.len() as int) =~= src);
    Ok(Frame { columns: df.columns.clone(), dtypes: df.dtypes.clone(), rows })
}

// ---------------------------------------------------------------------------
// Trimming of text columns.
// ---------------------------------------------------------------------------

pub open spec fn strip_leading_spaces(t: Seq<char>) -> Seq<char>
    decreases t.len(),
{
    if t.len() > 0 && t[0] == ' ' {
        strip_leading_spaces(t.subrange(1, t.len() as int))
    } else {
        t
    }
}

pub open spec fn strip_trailing_spaces(t: Seq<char>) -> Seq<char>
    decreases t.len(),
{
    if t.len() > 0 && t.last() == ' ' {
        strip_trailing_spaces(t.drop_last())
    } else {
        t
    }
}

/// `t` without its leading and trailing spaces.
pub open spec fn trim_spaces(t: Seq<char>) -> Seq<char> {
    strip_trailing_spaces(strip_leading_spaces(t))
}

/// Removes leading and trailing spaces.
pub fn trim_text(t: &str) -> (r: String)
    ensures
        r@ == trim_spaces(t@),
{
    let n = t.unicode_len();
    let mut a: usize = 0;
    assert(t@.subrange(0, n as int) =~= t@);
    while a < n && t.get_char(a) == ' '
        invariant
            n == t@.len(),
            a <= n,
            strip_leading_spaces(t@) == strip_leading_spaces(t@.subrange(a as int, n as int)),
        decreases n - a,
    {
        let ghost sub = t@.subrange(a as int, n as int);
        assert(sub.subrange(1, sub.len() as int) =~= t@.subrange(a + 1, n as int));
        a = a + 1;
    }
    let mut b: usize = n;
    while b > a && t.get_char(b - 1) == ' '
        invariant
            n == t@.len(),
            a <= b <= n,
            strip_leading_spaces(t@) == t@.subrange(a as int, n as int),
            strip_trailing_spaces(t@.subrange(a as int, n as int)) == strip_trailing_spaces(
                t@.subrange(a as int, b as int),
            ),
        decreases b - a,
    {
        let ghost sub = t@.subrange(a as int, b as int);
        assert(sub.drop_last() =~= t@.subrange(a as int, b - 1));
        b = b - 1;
    }
    let r = String::from_str(t.substring_char(a, b));
    r
}

/// A cell after trimming: a text cell of a text column loses its outer
/// spaces, every other cell stays.
pub open spec fn trimmed_cell(before: CellValue, after: CellValue, text_column: bool) -> bool {
    match before {
        CellValue::Text(t) => if text_column {
            after matches CellValue::Text(u) && u@ == trim_spaces(t@)
        } else {
            after == before
        },
        _ => after == before,
    }
}

/// Trims leading and trailing spaces in every text cell of the columns of
/// type `String`.
pub fn trim_cols(df: &Frame) -> (r: Frame)
    requires
        df.wf(),
    ensures
        r.wf(),
        r.columns@ == df.columns@,
        r.dtypes@ == df.dtypes@,
        r.rows@.len() == df.rows@.len(),
        forall|i: int, j: int|
            0 <= i < df.rows@.len() && 0 <= j < df.columns@.len() ==> trimmed_cell(
                #[trigger] df.rows@[i]@[j],
                r.rows@[i]@[j],
                df.dtypes@[j] == SourceType::String,
            ),
{
    let mut rows: Vec<Vec<CellValue>> = Vec::new();
    let mut i: usize = 0;
    while i < df.rows.len()
        invariant
            df.wf(),
            i <= df.rows@.len(),
            rows@.len() == i,
            forall|k: int| 0 <= k < i ==> #[trigger] rows@[k]@.len() == df.columns@.len(),
            forall|k: int, j: int|
                0 <= k < i && 0 <= j < df.columns@.len() ==> trimmed_cell(
                    #[trigger] df.rows@[k]@[j],
                    rows@[k]@[j],
                    df.dtypes@[j] == SourceType::String,
                ),
        decreases df.rows.len() - i,
    {
        let mut row: Vec<CellValue> = Vec::new();
        let mut j: usize = 0;
        while j < df.columns.len()
            invariant
                df.wf(),
                i < df.rows@.len(),
                j <= df.columns@.len(),
                row@.len() == j,
                forall|c: int|
                    0 <= c < j ==> trimmed_cell(
                        #[trigger] df.rows@[i as int]@[c],
                        row@[c],
                        df.dtypes@[c] == SourceType::String,
                    ),
            decreases df.columns.len() - j,
        {
            let cell = &df.rows[i][j];
            let is_text = match df.dtypes[j] {
                SourceType::String => true,
                _ => false,
            };
            let out = match cell {
                CellValue::Text(t) => {
                    if is_text {
                        CellValue::Text(trim_text(t.as_str()))
                    } else {
                        cell.clone()
                    }
                },
                _ => cell.clone(),
            };
            row.push(out);
            j = j + 1;
        }
        rows.push(row);
        i = i + 1;
    }
    Frame { columns: df.columns.clone(), dtypes: df.dtypes.clone(), rows }
}

} // verus!
