//! The data dictionary: sheets read as tables, the logical and storage
//! schemas of the fact table derived from the variable descriptors, and the
//! dimension tables built from the catalog sheets.
use crate::frame::{cast_to_unsigned, cast_unsigned, cell_text, cell_to_text, cells, first_index_of, has_name, parse_u64, parse_unsigned, CellValue, Frame};
use crate::schema::{
    default_column_spec, insert_entry, merge_entries, ColumnSpec, SqliteColOption, SqliteSchema,
};
use crate::text::{contains, contains_text, push_char, push_text, text_eq, texts};
use crate::types::{SourceType, SqliteDataType};
use crate::error::LoadError;
use vstd::prelude::*;
use vstd::string::*;

verus! {

// ---------------------------------------------------------------------------
// Text pieces.
// ---------------------------------------------------------------------------

/// Unicode white space, as `char::is_whitespace` defines it.
pub open spec fn is_white_space(c: char) -> bool {
    let u = c as u32;
    (0x09 <= u <= 0x0D) || u == 0x20 || u == 0x85 || u == 0xA0 || u == 0x1680 || (0x2000 <= u
        <= 0x200A) || u == 0x2028 || u == 0x2029 || u == 0x202F || u == 0x205F || u == 0x3000
}

pub fn white_space(c: char) -> (r: bool)
    ensures
        r == is_white_space(c),
{
    let u = c as u32;
    (0x09 <= u && u <= 0x0D) || u == 0x20 || u == 0x85 || u == 0xA0 || u == 0x1680 || (0x2000 <= u
        && u <= 0x200A) || u == 0x2028 || u == 0x2029 || u == 0x202F || u == 0x205F || u == 0x3000
}

/// The run of non-space characters at the end of `s`.
pub open spec fn word_suffix(s: Seq<char>) -> Seq<char>
    decreases s.len(),
{
    if s.len() == 0 || is_white_space(s.last()) {
        Seq::empty()
    } else {
        word_suffix(s.drop_last()).push(s.last())
    }
}

/// The last white-space separated word of `s`; empty when there is none.
pub open spec fn last_word(s: Seq<char>) -> Seq<char>
    decreases s.len(),
{
    if s.len() == 0 {
        Seq::empty()
    } else if is_white_space(s.last()) {
        last_word(s.drop_last())
    } else {
        word_suffix(s)
    }
}

/// The last white-space separated word of `s`.
pub fn last_token(s: &str) -> (r: String)
    ensures
        r@ == last_word(s@),
{
    let n = s.unicode_len();
    let mut b: usize = n;
    assert(s@.subrange(0, n as int) =~= s@);
    while b > 0 && white_space(s.get_char(b - 1))
        invariant
            n == s@.len(),
            b <= n,
            last_word(s@) == last_word(s@.subrange(0, b as int)),
        decreases b,
    {
        assert(s@.subrange(0, b as int).drop_last() =~= s@.subrange(0, b - 1));
        b = b - 1;
    }
    let mut a: usize = b;
    assert(s@.subrange(a as int, b as int) =~= Seq::<char>::empty());
    while a > 0 && !white_space(s.get_char(a - 1))
        invariant
            n == s@.len(),
            a <= b <= n,
            b > 0 ==> !is_white_space(s@[b - 1]),
            last_word(s@) == last_word(s@.subrange(0, b as int)),
            word_suffix(s@.subrange(0, b as int)) == word_suffix(s@.subrange(0, a as int)) + s@.subrange(
                a as int,
                b as int,
            ),
        decreases a,
    {
        let ghost pre = s@.subrange(0, a as int);
        assert(pre.drop_last() =~= s@.subrange(0, a - 1));
        assert(s@.subrange(a - 1, b as int) =~= seq![s@[a - 1]] + s@.subrange(a as int, b as int));
        assert(word_suffix(pre) == word_suffix(pre.drop_last()).push(pre.last()));
        assert(word_suffix(pre.drop_last()).push(pre.last()) + s@.subrange(a as int, b as int)
            =~= word_suffix(s@.subrange(0, a - 1)) + s@.subrange(a - 1, b as int));
        a = a - 1;
    }
    proof {
        let pre = s@.subrange(0, a as int);
        assert(word_suffix(pre) =~= Seq::<char>::empty());
        if b > 0 {
            assert(last_word(s@.subrange(0, b as int)) == word_suffix(s@.subrange(0, b as int)));
        }
        assert(word_suffix(pre) + s@.subrange(a as int, b as int) =~= s@.subrange(
            a as int,
            b as int,
        ));
    }
    String::from_str(s.substring_char(a, b))
}

/// What follows the first colon of `t`; empty when there is none.
pub open spec fn after_first_colon(t: Seq<char>) -> Seq<char>
    decreases t.len(),
{
    if t.len() == 0 {
        Seq::empty()
    } else if t[0] == ':' {
        t.subrange(1, t.len() as int)
    } else {
        after_first_colon(t.subrange(1, t.len() as int))
    }
}

/// `t` without its spaces.
pub open spec fn without_spaces(t: Seq<char>) -> Seq<char>
    decreases t.len(),
{
    if t.len() == 0 {
        Seq::empty()
    } else {
        without_spaces(t.drop_last()) + if t.last() == ' ' {
            Seq::empty()
        } else {
            seq![t.last()]
        }
    }
}

/// The table a catalog-backed variable refers to: the text after the first
/// colon of its format annotation, without spaces.
pub open spec fn catalog_reference(format: Seq<char>) -> Seq<char> {
    without_spaces(after_first_colon(format))
}

/// The table named by a format annotation such as `CATÁLOGO: SEXO`.
pub fn catalog_ref(format: &str) -> (r: String)
    ensures
        r@ == catalog_reference(format@),
{
    let n = format.unicode_len();
    let mut i: usize = 0;
    assert(format@.subrange(0, n as int) =~= format@);
    while i < n && format.get_char(i) != ':'
        invariant
            n == format@.len(),
            i <= n,
            after_first_colon(format@) == after_first_colon(format@.subrange(i as int, n as int)),
        decreases n - i,
    {
        let ghost sub = format@.subrange(i as int, n as int);
        assert(sub.subrange(1, sub.len() as int) =~= format@.subrange(i + 1, n as int));
        i = i + 1;
    }
    let ghost rest = if i < n {
        format@.subrange(i + 1, n as int)
    } else {
        Seq::<char>::empty()
    };
    proof {
        let sub = format@.subrange(i as int, n as int);
        if i < n {
            assert(sub.subrange(1, sub.len() as int) =~= rest);
        } else {
            assert(sub =~= Seq::<char>::empty());
        }
    }
    let mut out = String::new();
    if i < n {
        let mut k: usize = i + 1;
        assert(format@.subrange(i + 1, k as int) =~= Seq::<char>::empty());
        while k < n
            invariant
                n == format@.len(),
                i < n,
                i + 1 <= k <= n,
                rest == format@.subrange(i + 1, n as int),
                out@ == without_spaces(format@.subrange(i + 1, k as int)),
            decreases n - k,
        {
            let c = format.get_char(k);
            if c != ' ' {
                push_char(&mut out, c);
            }
            proof {
                let sub = format@.subrange(i + 1, k + 1);
                assert(sub.drop_last() =~= format@.subrange(i + 1, k as int));
                assert(sub.last() == c);
                assert(out@ =~= without_spaces(sub));
            }
            k = k + 1;
        }
    }
    out
}

/// A format annotation that marks a catalog-backed variable.
pub open spec fn is_catalog_format(format: Option<Seq<char>>) -> bool {
    format matches Some(t) && (contains_text(t, "CATÁLOGO"@) || contains_text(t, "CATALÓGO"@))
}

fn catalog_format(format: &Option<String>) -> (r: bool)
    ensures
        r == is_catalog_format(crate::frame::opt_view(*format)),
{
    match format {
        Some(t) => contains(t.as_str(), "CATÁLOGO") || contains(t.as_str(), "CATALÓGO"),
        None => false,
    }
}

// ---------------------------------------------------------------------------
// Sheets as tables.
// ---------------------------------------------------------------------------

/// A sheet cell as a table cell: text, or null when empty.
pub open spec fn sheet_cell(c: Option<String>) -> CellValue {
    match c {
        Some(t) => CellValue::Text(t),
        None => CellValue::Null,
    }
}

/// A header cell: its text, empty when the cell is empty.
pub open spec fn header_text(c: Option<String>) -> Seq<char> {
    match c {
        Some(t) => t@,
        None => Seq::empty(),
    }
}

/// A data row of a sheet cut or padded with nulls to `width` cells.
pub open spec fn sheet_row(row: Seq<Option<String>>, width: nat) -> Seq<CellValue> {
    Seq::new(width, |j: int| if j < row.len() { sheet_cell(row[j]) } else { CellValue::Null })
}

/// A sheet's rows as a table: the first row names the columns, every other
/// row is a data row with one cell per column; all columns are text.
pub fn sheet_to_frame(rows: &Vec<Vec<Option<String>>>) -> (r: Frame)
    ensures
        r.wf(),
        rows@.len() == 0 ==> r.columns@.len() == 0 && r.rows@.len() == 0,
        rows@.len() > 0 ==> {
            &&& texts(r.columns@) == rows@[0]@.map_values(|c: Option<String>| header_text(c))
            &&& r.rows@.len() == rows@.len() - 1
            &&& forall|i: int|
                0 <= i < r.rows@.len() ==> #[trigger] r.rows@[i]@ == sheet_row(
                    rows@[i + 1]@,
                    rows@[0]@.len(),
                )
        },
        forall|j: int| 0 <= j < r.dtypes@.len() ==> r.dtypes@[j] == SourceType::String,
{
    let mut columns: Vec<String> = Vec::new();
    let mut dtypes: Vec<SourceType> = Vec::new();
    let mut data: Vec<Vec<CellValue>> = Vec::new();
    if rows.len() == 0 {
        return Frame { columns, dtypes, rows: data };
    }
    let header = &rows[0];
    let width = header.len();
    let mut j: usize = 0;
    while j < width
        invariant
            width == header@.len(),
            header == rows@[0],
            j <= width,
            texts(columns@) == header@.subrange(0, j as int).map_values(
                |c: Option<String>| header_text(c),
            ),
            dtypes@.len() == j,
            forall|k: int| 0 <= k < j ==> dtypes@[k] == SourceType::String,
        decreases width - j,
    {
        let name = match &header[j] {
            Some(t) => t.clone(),
            None => String::new(),
        };
        let ghost before = texts(columns@);
        assert(name@ == header_text(header@[j as int]));
        columns.push(name);
        dtypes.push(SourceType::String);
        assert(texts(columns@) =~= before.push(header_text(header@[j as int])));
        assert(texts(columns@) =~= header@.subrange(0, j + 1).map_values(
            |c: Option<String>| header_text(c),
        ));
        j = j + 1;
    }
    assert(header@.subrange(0, width as int) =~= header@);
    let mut i: usize = 1;
    while i < rows.len()
        invariant
            1 <= i <= rows@.len(),
            width == rows@[0]@.len(),
            data@.len() == i - 1,
            forall|k: int| 0 <= k < data@.len() ==> #[trigger] data@[k]@ == sheet_row(rows@[k + 1]@, width as nat),
        decreases rows.len() - i,
    {
        let src = &rows[i];
        let mut row: Vec<CellValue> = Vec::new();
        let mut j: usize = 0;
        while j < width
            invariant
                j <= width,
                src == rows@[i as int],
                row@ == sheet_row(src@, width as nat).subrange(0, j as int),
            decreases width - j,
        {
            let cell = if j < src.len() {
                match &src[j] {
                    Some(t) => CellValue::Text(t.clone()),
                    None => CellValue::Null,
                }
            } else {
                CellValue::Null
            };
            row.push(cell);
            assert(row@ =~= sheet_row(src@, width as nat).subrange(0, j + 1));
            j = j + 1;
        }
        assert(row@ =~= sheet_row(src@, width as nat));
        data.push(row);
        i = i + 1;
    }
    Frame { columns, dtypes, rows: data }
}

// ---------------------------------------------------------------------------
// Schemas from the variable descriptors.
// ---------------------------------------------------------------------------

/// Column of the descriptor sheet that names the variables.
pub open spec fn name_column() -> Seq<char> {
    "NOMBRE DE VARIABLE"@
}

/// Column of the descriptor sheet that holds the format annotations.
pub open spec fn format_column() -> Seq<char> {
    "FORMATO O FUENTE"@
}

/// Positions of the name and format columns of a descriptor table.
pub open spec fn descriptor_columns(d: Frame) -> (int, int) {
    (
        choose|j: int| first_index_of(d.columns@, name_column(), j),
        choose|j: int| first_index_of(d.columns@, format_column(), j),
    )
}

pub open spec fn has_descriptor_columns(d: Frame) -> bool {
    has_name(d.columns@, name_column()) && has_name(d.columns@, format_column())
}

/// `(name, format)` of each descriptor row that names a variable, in order.
pub open spec fn descriptors(rows: Seq<Seq<CellValue>>, nj: int, fj: int) -> Seq<(Seq<char>, Option<Seq<char>>)>
    decreases rows.len(),
{
    if rows.len() == 0 {
        Seq::empty()
    } else {
        descriptors(rows.drop_last(), nj, fj) + match cell_text(rows.last()[nj]) {
            Some(n) => seq![(n, cell_text(rows.last()[fj]))],
            None => Seq::empty(),
        }
    }
}

/// Logical type of a variable for parsing the fact source: unsigned when
/// catalog-backed, text otherwise.
pub open spec fn logical_type_of(format: Option<Seq<char>>) -> SourceType {
    if is_catalog_format(format) {
        SourceType::UInt64
    } else {
        SourceType::String
    }
}

/// Storage options of a variable: a catalog-backed one is an integer that
/// references `CLAVE` of its catalog's table, any other is text.
pub open spec fn storage_spec_of(format: Option<Seq<char>>) -> ColumnSpec {
    if is_catalog_format(format) {
        default_column_spec().with_type_sql(SqliteDataType::INTEGER).with_foreign_key(
            catalog_reference(format.unwrap()),
            "CLAVE"@,
        )
    } else {
        default_column_spec().with_type_sql(SqliteDataType::TEXT)
    }
}

/// The storage schema of the fact table: `FECHA_ACTUALIZACION` (required
/// text) first, then the variables described after the first two rows, then
/// `EDAD` (integer) and `ID_REGISTRO` (text primary key).
pub open spec fn fact_storage_schema(d: Seq<(Seq<char>, Option<Seq<char>>)>) -> Seq<(Seq<char>, ColumnSpec)> {
    let described = Seq::new(d.len(), |i: int| (d[i].0, storage_spec_of(d[i].1)));
    let seeded = merge_entries(
        seq![("FECHA_ACTUALIZACION"@, default_column_spec().with_nullable(false))],
        described,
    );
    let with_age = insert_entry(
        seeded,
        "EDAD"@,
        default_column_spec().with_type_sql(SqliteDataType::INTEGER),
    );
    insert_entry(with_age, "ID_REGISTRO"@, default_column_spec().with_primary_key(true))
}

/// The rows from position `k` on; none when there are fewer.
pub open spec fn rows_from(rows: Seq<Seq<CellValue>>, k: int) -> Seq<Seq<CellValue>> {
    if k <= rows.len() {
        rows.subrange(k, rows.len() as int)
    } else {
        Seq::empty()
    }
}

/// The descriptors of rows `from..` of a descriptor table.
fn collect_descriptors(d: &Frame, nj: usize, fj: usize, from: usize) -> (r: Vec<(String, Option<String>)>)
    requires
        d.wf(),
        nj < d.columns@.len(),
        fj < d.columns@.len(),
    ensures
        r@.len() == descriptors(rows_from(cells(d.rows@), from as int), nj as int, fj as int).len(),
        forall|i: int|
            0 <= i < r@.len() ==> (#[trigger] r@[i].0@, crate::frame::opt_view(r@[i].1))
                == descriptors(rows_from(cells(d.rows@), from as int), nj as int, fj as int)[i],
{
    let ghost all = cells(d.rows@);
    let mut r: Vec<(String, Option<String>)> = Vec::new();
    let start: usize = if from < d.rows.len() {
        from
    } else {
        d.rows.len()
    };
    let mut i: usize = start;
    assert(all.subrange(start as int, i as int) =~= Seq::<Seq<CellValue>>::empty());
    while i < d.rows.len()
        invariant
            d.wf(),
            all == cells(d.rows@),
            nj < d.columns@.len(),
            fj < d.columns@.len(),
            start <= i <= d.rows@.len(),
            r@.len() == descriptors(all.subrange(start as int, i as int), nj as int, fj as int).len(),
            forall|k: int|
                0 <= k < r@.len() ==> (#[trigger] r@[k].0@, crate::frame::opt_view(r@[k].1))
                    == descriptors(all.subrange(start as int, i as int), nj as int, fj as int)[k],
        decreases d.rows.len() - i,
    {
        let ghost prev = descriptors(all.subrange(start as int, i as int), nj as int, fj as int);
        proof {
            let sub = all.subrange(start as int, i + 1);
            assert(sub.drop_last() =~= all.subrange(start as int, i as int));
            assert(sub.last() == d.rows@[i as int]@);
        }
        match cell_to_text(&d.rows[i][nj]) {
            Some(name) => {
                let format = cell_to_text(&d.rows[i][fj]);
                r.push((name, format));
            },
            None => {},
        }
        i = i + 1;
    }
    if from >= d.rows.len() {
        assert(all.subrange(start as int, d.rows@.len() as int) =~= Seq::<Seq<CellValue>>::empty());
    }
    r
}

fn descriptor_positions(d: &Frame) -> (r: Result<(usize, usize), LoadError>)
    ensures
        r is Err <==> !has_descriptor_columns(*d),
        r matches Ok(p) ==> p.0 == descriptor_columns(*d).0 && p.1 == descriptor_columns(*d).1
            && p.0 < d.columns@.len() && p.1 < d.columns@.len(),
{
    let nj = match d.column_index("NOMBRE DE VARIABLE") {
        Some(j) => j,
        None => {
            return Err(LoadError::SourceFormat(String::from_str("NOMBRE DE VARIABLE")));
        },
    };
    let fj = match d.column_index("FORMATO O FUENTE") {
        Some(j) => j,
        None => {
            return Err(LoadError::SourceFormat(String::from_str("FORMATO O FUENTE")));
        },
    };
    proof {
        assert forall|j: int| first_index_of(d.columns@, name_column(), j) implies j == nj by {}
        assert forall|j: int| first_index_of(d.columns@, format_column(), j) implies j == fj by {}
    }
    Ok((nj, fj))
}

/// The logical schema for parsing the fact source: one `(name, type)` per
/// described variable, unsigned when catalog-backed, text otherwise. Fails
/// when the descriptor table lacks its name or format column.
pub fn get_schema_pl(d: &Frame) -> (r: Result<Vec<(String, SourceType)>, LoadError>)
    requires
        d.wf(),
    ensures
        r is Err <==> !has_descriptor_columns(*d),
        r matches Ok(v) ==> {
            let ds = descriptors(cells(d.rows@), descriptor_columns(*d).0, descriptor_columns(*d).1);
            &&& v@.len() == ds.len()
            &&& forall|i: int|
                0 <= i < v@.len() ==> #[trigger] v@[i].0@ == ds[i].0 && v@[i].1 == logical_type_of(
                    ds[i].1,
                )
        },
{
    let (nj, fj) = descriptor_positions(d)?;
    let ds = collect_descriptors(d, nj, fj, 0);
    assert(rows_from(cells(d.rows@), 0) =~= cells(d.rows@));
    let mut v: Vec<(String, SourceType)> = Vec::new();
    let mut i: usize = 0;
    while i < ds.len()
        invariant
            i <= ds@.len(),
            v@.len() == i,
            forall|k: int|
                0 <= k < i ==> #[trigger] v@[k].0@ == ds@[k].0@ && v@[k].1 == logical_type_of(
                    crate::frame::opt_view(ds@[k].1),
                ),
        decreases ds.len() - i,
    {
        let t = if catalog_format(&ds[i].1) {
            SourceType::UInt64
        } else {
            SourceType::String
        };
        v.push((ds[i].0.clone(), t));
        assert(v@[i as int].0@ == ds@[i as int].0@);
        i = i + 1;
    }
    Ok(v)
}

/// The storage schema of the fact table from the descriptor table (see
/// `fact_storage_schema`; the first two descriptor rows are skipped). Fails
/// when the descriptor table lacks its name or format column.
pub fn get_schema_sql(d: &Frame) -> (r: Result<SqliteSchema, LoadError>)
    requires
        d.wf(),
    ensures
        r is Err <==> !has_descriptor_columns(*d),
        r matches Ok(s) ==> s@ == fact_storage_schema(
            descriptors(
                rows_from(cells(d.rows@), 2),
                descriptor_columns(*d).0,
                descriptor_columns(*d).1,
            ),
        ),
{
    let (nj, fj) = descriptor_positions(d)?;
    let ds = collect_descriptors(d, nj, fj, 2);
    let ghost dv = descriptors(rows_from(cells(d.rows@), 2), nj as int, fj as int);
    let ghost described = Seq::new(dv.len(), |i: int| (dv[i].0, storage_spec_of(dv[i].1)));
    let ghost seed = seq![("FECHA_ACTUALIZACION"@, default_column_spec().with_nullable(false))];
    let mut schema = SqliteSchema::new(
        "FECHA_ACTUALIZACION",
        SqliteColOption::default().with_nullable(false),
    );
    let mut i: usize = 0;
    while i < ds.len()
        invariant
            i <= ds@.len(),
            ds@.len() == dv.len(),
            forall|k: int|
                0 <= k < ds@.len() ==> (#[trigger] ds@[k].0@, crate::frame::opt_view(ds@[k].1)) == dv[k],
            described == Seq::new(dv.len(), |i: int| (dv[i].0, storage_spec_of(dv[i].1))),
            schema@ == merge_entries(seed, described.subrange(0, i as int)),
        decreases ds.len() - i,
    {
        let (name, format) = (&ds[i].0, &ds[i].1);
        assert((name@, crate::frame::opt_view(*format)) == dv[i as int]);
        let opt = if catalog_format(format) {
            match format {
                Some(f) => {
                    let reference = catalog_ref(f.as_str());
                    SqliteColOption::default().with_type_sql(SqliteDataType::INTEGER).foreign_key(
                        reference.as_str(),
                        "CLAVE",
                    )
                },
                None => SqliteColOption::default().with_type_sql(SqliteDataType::TEXT),
            }
        } else {
            SqliteColOption::default().with_type_sql(SqliteDataType::TEXT)
        };
        assert(opt@ == storage_spec_of(dv[i as int].1));
        schema.with_column(name.as_str(), opt);
        proof {
            let sub = described.subrange(0, i + 1);
            assert(sub.drop_last() =~= described.subrange(0, i as int));
        }
        i = i + 1;
    }
    assert(described.subrange(0, ds@.len() as int) =~= described);
    schema.with_column("EDAD", SqliteColOption::default().with_type_sql(SqliteDataType::INTEGER));
    schema.with_column("ID_REGISTRO", SqliteColOption::default().with_primary_key(true));
    Ok(schema)
}

/// Options of a catalog table's key column `CLAVE`: integer primary key.
pub open spec fn catalog_key_spec() -> ColumnSpec {
    default_column_spec().with_type_sql(SqliteDataType::INTEGER).with_primary_key(true)
}

/// Options of a country column of the fact table: an integer that
/// references `CLAVE` of `PAISES`.
pub open spec fn country_key_spec() -> ColumnSpec {
    default_column_spec().with_type_sql(SqliteDataType::INTEGER).with_foreign_key(
        "PAISES"@,
        "CLAVE"@,
    )
}

/// The explicit schema of every dimension table: `CLAVE` is an integer
/// primary key.
pub fn catalog_key_schema() -> (r: SqliteSchema)
    ensures
        r@ == seq![("CLAVE"@, catalog_key_spec())],
{
    SqliteSchema::new(
        "CLAVE",
        SqliteColOption::default().with_type_sql(SqliteDataType::INTEGER).with_primary_key(true),
    )
}

/// Turns `PAIS_NACIONALIDAD` and `PAIS_ORIGEN` into integer references to
/// the country dimension, as the normaliser writes surrogate keys there.
pub fn with_country_keys(schema: &mut SqliteSchema)
    ensures
        final(schema)@ == insert_entry(
            insert_entry(old(schema)@, "PAIS_NACIONALIDAD"@, country_key_spec()),
            "PAIS_ORIGEN"@,
            country_key_spec(),
        ),
{
    schema.with_column(
        "PAIS_NACIONALIDAD",
        SqliteColOption::default().with_type_sql(SqliteDataType::INTEGER).foreign_key(
            "PAISES",
            "CLAVE",
        ),
    );
    schema.with_column(
        "PAIS_ORIGEN",
        SqliteColOption::default().with_type_sql(SqliteDataType::INTEGER).foreign_key(
            "PAISES",
            "CLAVE",
        ),
    );
}

// ---------------------------------------------------------------------------
// Catalog sheets as dimension tables.
// ---------------------------------------------------------------------------

/// How a catalog sheet becomes a dimension table.
#[derive(Debug, Clone, Copy, PartialEq, Eq, Structural)]
pub enum CatalogKind {
    /// Regions: the key column is renamed `CLAVE`.
    Regions,
    /// Municipalities: `CLAVE` joins the region and municipality codes.
    Municipalities,
    /// Laboratory results: only the first two columns are kept.
    LabResults,
    /// Any other catalog: the first column is the key.
    Generic,
}

pub open spec fn catalog_kind_of(sheet: Seq<char>) -> CatalogKind {
    if sheet == "Catálogo de ENTIDADES"@ {
        CatalogKind::Regions
    } else if sheet == "Catálogo MUNICIPIOS"@ {
        CatalogKind::Municipalities
    } else if sheet == "Catálogo RESULTADO_LAB"@ {
        CatalogKind::LabResults
    } else {
        CatalogKind::Generic
    }
}

/// The kind of a catalog sheet, from its name.
pub fn catalog_kind(sheet: &str) -> (r: CatalogKind)
    ensures
        r == catalog_kind_of(sheet@),
{
    if text_eq(sheet, "Catálogo de ENTIDADES") {
        CatalogKind::Regions
    } else if text_eq(sheet, "Catálogo MUNICIPIOS") {
        CatalogKind::Municipalities
    } else if text_eq(sheet, "Catálogo RESULTADO_LAB") {
        CatalogKind::LabResults
    } else {
        CatalogKind::Generic
    }
}

/// The two cells' texts joined and read as an unsigned integer; null when
/// either is null or the result is no number.
pub open spec fn joined_code(a: CellValue, b: CellValue) -> CellValue {
    match (cell_text(a), cell_text(b)) {
        (Some(x), Some(y)) => match parse_unsigned(x + y) {
            Some(v) => CellValue::UInt(v),
            None => CellValue::Null,
        },
        _ => CellValue::Null,
    }
}

/// Column names of a dimension table.
pub open spec fn catalog_columns(k: CatalogKind, cols: Seq<Seq<char>>) -> Seq<Seq<char>> {
    match k {
        CatalogKind::Regions => cols.map_values(
            |c: Seq<char>|
                if c == "CLAVE_ENTIDAD"@ {
                    "CLAVE"@
                } else {
                    c
                },
        ),
        CatalogKind::Municipalities => seq!["CLAVE"@] + cols,
        CatalogKind::LabResults => cols.subrange(0, 2),
        CatalogKind::Generic => cols,
    }
}

/// Column types of a dimension table.
pub open spec fn catalog_types(k: CatalogKind, t: Seq<SourceType>) -> Seq<SourceType> {
    match k {
        CatalogKind::Municipalities => seq![SourceType::UInt64] + t.update(0, SourceType::UInt64).update(
            1,
            SourceType::UInt64,
        ),
        CatalogKind::LabResults => seq![SourceType::UInt64, t[1]],
        _ => t.update(0, SourceType::UInt64),
    }
}

/// A row of a dimension table: the first cell cast to an unsigned key; for
/// municipalities, `CLAVE` first and the municipality code cast too.
pub open spec fn catalog_row(k: CatalogKind, row: Seq<CellValue>) -> Seq<CellValue> {
    let key = cast_unsigned(row[0]);
    match k {
        CatalogKind::Municipalities => seq![joined_code(key, row[1])] + row.update(0, key).update(
            1,
            cast_unsigned(row[1]),
        ),
        CatalogKind::LabResults => seq![key, row[1]],
        _ => row.update(0, key),
    }
}

/// `t` is the dimension table that the catalog sheet `sheet` with table `df`
/// gives.
pub open spec fn is_catalog_table(sheet: Seq<char>, df: Frame, t: Frame) -> bool {
    let k = catalog_kind_of(sheet);
    &&& t.wf()
    &&& texts(t.columns@) == catalog_columns(k, texts(df.columns@))
    &&& t.dtypes@ == catalog_types(k, df.dtypes@)
    &&& t.rows@.len() == df.rows@.len()
    &&& forall|i: int|
        0 <= i < t.rows@.len() ==> #[trigger] t.rows@[i]@ == catalog_row(k, df.rows@[i]@)
}

fn catalog_row_exec(k: CatalogKind, row: &Vec<CellValue>) -> (r: Vec<CellValue>)
    requires
        row@.len() >= 2,
    ensures
        r@ == catalog_row(k, row@),
{
    let key = cast_to_unsigned(&row[0]);
    match k {
        CatalogKind::Municipalities => {
            let code = match (cell_to_text(&key), cell_to_text(&row[1])) {
                (Some(x), Some(y)) => {
                    let mut joined = x;
                    push_text(&mut joined, y.as_str());
                    match parse_u64(joined.as_str()) {
                        Some(v) => CellValue::UInt(v),
                        None => CellValue::Null,
                    }
                },
                _ => CellValue::Null,
            };
            let mut r: Vec<CellValue> = Vec::new();
            r.push(code);
            let mut j: usize = 0;
            while j < row.len()
                invariant
                    row@.len() >= 2,
                    j <= row@.len(),
                    r@ == (seq![joined_code(key, row@[1])] + row@.update(0, key).update(
                        1,
                        cast_unsigned(row@[1]),
                    )).subrange(0, j + 1),
                decreases row.len() - j,
            {
                let cell = if j == 0 {
                    key.clone()
                } else if j == 1 {
                    cast_to_unsigned(&row[1])
                } else {
                    row[j].clone()
                };
                r.push(cell);
                assert(r@ =~= (seq![joined_code(key, row@[1])] + row@.update(0, key).update(
                    1,
                    cast_unsigned(row@[1]),
                )).subrange(0, j + 2));
                j = j + 1;
            }
            assert(r@ =~= catalog_row(k, row@));
            r
        },
        CatalogKind::LabResults => {
            let mut r: Vec<CellValue> = Vec::new();
            r.push(key);
            r.push(row[1].clone());
            assert(r@ =~= catalog_row(k, row@));
            r
        },
        _ => {
            let mut r = row.clone();
            r.set(0, key);
            assert(r@ =~= catalog_row(k, row@));
            r
        },
    }
}

fn catalog_columns_exec(k: CatalogKind, cols: &Vec<String>) -> (r: Vec<String>)
    requires
        cols@.len() >= 2,
    ensures
        texts(r@) == catalog_columns(k, texts(cols@)),
{
    match k {
        CatalogKind::Regions => {
            let mut r: Vec<String> = Vec::new();
            let mut j: usize = 0;
            while j < cols.len()
                invariant
                    j <= cols@.len(),
                    texts(r@) == catalog_columns(k, texts(cols@)).subrange(0, j as int),
                    k == CatalogKind::Regions,
                decreases cols.len() - j,
            {
                let c = if text_eq(cols[j].as_str(), "CLAVE_ENTIDAD") {
                    String::from_str("CLAVE")
                } else {
                    cols[j].clone()
                };
                let ghost before = texts(r@);
                r.push(c);
                assert(texts(r@) =~= before.push(c@));
                assert(texts(r@) =~= catalog_columns(k, texts(cols@)).subrange(0, j + 1));
                j = j + 1;
            }
            assert(catalog_columns(k, texts(cols@)).subrange(0, cols@.len() as int) =~= catalog_columns(
                k,
                texts(cols@),
            ));
            r
        },
        CatalogKind::Municipalities => {
            let mut r: Vec<String> = Vec::new();
            r.push(String::from_str("CLAVE"));
            let mut j: usize = 0;
            while j < cols.len()
                invariant
                    j <= cols@.len(),
                    texts(r@) == (seq!["CLAVE"@] + texts(cols@)).subrange(0, j + 1),
                decreases cols.len() - j,
            {
                let ghost before = texts(r@);
                r.push(cols[j].clone());
                assert(texts(r@) =~= before.push(cols@[j as int]@));
                assert(texts(r@) =~= (seq!["CLAVE"@] + texts(cols@)).subrange(0, j + 2));
                j = j + 1;
            }
            assert((seq!["CLAVE"@] + texts(cols@)).subrange(0, cols@.len() + 1 as int) =~= seq!["CLAVE"@]
                + texts(cols@));
            r
        },
        CatalogKind::LabResults => {
            let mut r: Vec<String> = Vec::new();
            r.push(cols[0].clone());
            r.push(cols[1].clone());
            assert(texts(r@) =~= catalog_columns(k, texts(cols@)));
            r
        },
        CatalogKind::Generic => {
            let r = cols.clone();
            assert(texts(r@) =~= texts(cols@));
            r
        },
    }
}

/// The dimension table of one catalog sheet, and its table name: the last
/// word of the sheet's name. Fails when the sheet has fewer than two columns.
pub fn catalog_table(sheet: &str, df: &Frame) -> (r: Result<(String, Frame), LoadError>)
    requires
        df.wf(),
    ensures
        r is Err <==> df.columns@.len() < 2,
        r matches Ok(p) ==> p.0@ == last_word(sheet@) && is_catalog_table(sheet@, *df, p.1),
{
    if df.columns.len() < 2 {
        return Err(LoadError::SourceFormat(String::from_str(sheet)));
    }
    let k = catalog_kind(sheet);
    let columns = catalog_columns_exec(k, &df.columns);
    let mut dtypes: Vec<SourceType> = Vec::new();
    match k {
        CatalogKind::Municipalities => {
            dtypes.push(SourceType::UInt64);
            let mut j: usize = 0;
            while j < df.dtypes.len()
                invariant
                    df.wf(),
                    df.columns@.len() >= 2,
                    j <= df.dtypes@.len(),
                    dtypes@ == (seq![SourceType::UInt64] + df.dtypes@.update(0, SourceType::UInt64).update(
                        1,
                        SourceType::UInt64,
                    )).subrange(0, j + 1),
                decreases df.dtypes.len() - j,
            {
                let t = if j < 2 {
                    SourceType::UInt64
                } else {
                    df.dtypes[j]
                };
                dtypes.push(t);
                assert(dtypes@ =~= (seq![SourceType::UInt64] + df.dtypes@.update(
                    0,
                    SourceType::UInt64,
                ).update(1, SourceType::UInt64)).subrange(0, j + 2));
                j = j + 1;
            }
        },
        CatalogKind::LabResults => {
            dtypes.push(SourceType::UInt64);
            dtypes.push(df.dtypes[1]);
        },
        _ => {
            dtypes = df.dtypes.clone();
            dtypes.set(0, SourceType::UInt64);
        },
    }
    assert(dtypes@ =~= catalog_types(k, df.dtypes@));
    let mut rows: Vec<Vec<CellValue>> = Vec::new();
    let mut i: usize = 0;
    while i < df.rows.len()
        invariant
            df.wf(),
            df.columns@.len() >= 2,
            i <= df.rows@.len(),
            rows@.len() == i,
            forall|q: int| 0 <= q < i ==> #[trigger] rows@[q]@ == catalog_row(k, df.rows@[q]@),
        decreases df.rows.len() - i,
    {
        rows.push(catalog_row_exec(k, &df.rows[i]));
        i = i + 1;
    }
    let t = Frame { columns, dtypes, rows };
    proof {
        assert(texts(t.columns@).len() == t.columns@.len());
        assert(t.dtypes@.len() == t.columns@.len());
        assert forall|q: int| 0 <= q < t.rows@.len() implies t.rows@[q]@.len() == t.columns@.len() by {
            assert(t.rows@[q]@ == catalog_row(k, df.rows@[q]@));
        }
    }
    Ok((last_token(sheet), t))
}

/// The dimension tables of all catalog sheets, in sheet order, each under
/// the last word of its sheet's name. Fails on the first sheet with fewer
/// than two columns.
pub fn get_df_cat(sheets: &Vec<(String, Frame)>) -> (r: Result<Vec<(String, Frame)>, LoadError>)
    requires
        forall|i: int| 0 <= i < sheets@.len() ==> (#[trigger] sheets@[i]).1.wf(),
    ensures
        r is Err <==> exists|i: int|
            0 <= i < sheets@.len() && (#[trigger] sheets@[i]).1.columns@.len() < 2,
        r matches Ok(v) ==> v@.len() == sheets@.len() && forall|i: int|
            0 <= i < v@.len() ==> (#[trigger] v@[i]).0@ == last_word(sheets@[i].0@)
                && is_catalog_table(sheets@[i].0@, sheets@[i].1, v@[i].1),
{
    let mut v: Vec<(String, Frame)> = Vec::new();
    let mut i: usize = 0;
    while i < sheets.len()
        invariant
            forall|q: int| 0 <= q < sheets@.len() ==> (#[trigger] sheets@[q]).1.wf(),
            i <= sheets@.len(),
            v@.len() == i,
            forall|q: int| 0 <= q < i ==> (#[trigger] sheets@[q]).1.columns@.len() >= 2,
            forall|q: int|
                0 <= q < i ==> (#[trigger] v@[q]).0@ == last_word(sheets@[q].0@) && is_catalog_table(
                    sheets@[q].0@,
                    sheets@[q].1,
                    v@[q].1,
                ),
        decreases sheets.len() - i,
    {
        let (name, df) = (&sheets[i].0, &sheets[i].1);
        let table = catalog_table(name.as_str(), df)?;
        v.push(table);
        i = i + 1;
    }
    Ok(v)
}

} // verus!
