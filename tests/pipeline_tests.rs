use db_cov19mx::country::{country_surrogate_key, get_unique_contry, simple_hash, substitute_sentinel, CountryColumn};
use db_cov19mx::dictionary::{
    catalog_key_schema, catalog_kind, catalog_ref, catalog_table, get_df_cat, with_country_keys, get_schema_pl, get_schema_sql, last_token,
    sheet_to_frame, CatalogKind,
};
use db_cov19mx::frame::{cast_to_unsigned, parse_u64, CellValue, Frame};
use db_cov19mx::normalize::{clean_data_covid, dimension_keys, municipality_key, retain_known_municipalities, trim_cols, trim_text};
use db_cov19mx::types::SourceType;
use db_cov19mx::error::LoadError;

fn text(s: &str) -> CellValue {
    CellValue::Text(s.to_string())
}

fn fact_frame(rows: Vec<Vec<CellValue>>) -> Frame {
    Frame {
        columns: ["ID_REGISTRO", "ENTIDAD_RES", "MUNICIPIO_RES", "PAIS_NACIONALIDAD", "PAIS_ORIGEN", "FECHA_DEF"]
            .iter()
            .map(|s| s.to_string())
            .collect(),
        dtypes: vec![
            SourceType::String,
            SourceType::String,
            SourceType::UInt64,
            SourceType::String,
            SourceType::String,
            SourceType::String,
        ],
        rows,
    }
}

fn is_uint(c: &CellValue, v: u64) -> bool {
    matches!(c, CellValue::UInt(x) if *x == v)
}

#[test]
fn surrogate_key_is_the_code_sum() {
    assert_eq!(simple_hash(""), 0);
    assert_eq!(simple_hash("AB"), 131);
    assert_eq!(simple_hash("BA"), 131);
    assert_eq!(simple_hash("é"), 233);
}

#[test]
fn sentinels_are_replaced_per_column() {
    assert_eq!(substitute_sentinel(CountryColumn::Nationality, "99"), "SE INGONARA");
    assert_eq!(substitute_sentinel(CountryColumn::Nationality, "97"), "97");
    assert_eq!(substitute_sentinel(CountryColumn::Origin, "97"), "NO APLICA");
    assert_eq!(substitute_sentinel(CountryColumn::Origin, "99"), "99");
    assert_eq!(
        country_surrogate_key(CountryColumn::Nationality, "99"),
        simple_hash("SE INGONARA")
    );
}

#[test]
fn municipality_code_joins_region_and_padded_municipality() {
    let rows = vec![vec![text("a"), text("09"), CellValue::UInt(7), text("México"), text("97"), text("9999-99-99")]];
    let cleaned = clean_data_covid(&fact_frame(rows)).unwrap();
    let row = &cleaned.rows[0];
    assert!(is_uint(&row[2], 9007));
    assert!(is_uint(&row[3], simple_hash("México")));
    assert!(is_uint(&row[4], simple_hash("NO APLICA")));
    assert!(matches!(row[5], CellValue::Null));
    assert_eq!(cleaned.dtypes[2], SourceType::UInt64);
    assert_eq!(cleaned.dtypes[3], SourceType::UInt64);
    assert_eq!(cleaned.dtypes[5], SourceType::String);

    let known = retain_known_municipalities(&cleaned, &vec![1001, 9007]).unwrap();
    assert_eq!(known.rows.len(), 1);
    let unknown = retain_known_municipalities(&cleaned, &vec![9006]).unwrap();
    assert_eq!(unknown.rows.len(), 0);
}

#[test]
fn municipality_code_edge_cases() {
    assert!(is_uint(&municipality_key(&CellValue::UInt(15), &text("123")), 15123));
    assert!(is_uint(&municipality_key(&text("1"), &text("1234")), 11234));
    assert!(matches!(municipality_key(&CellValue::Null, &text("7")), CellValue::Null));
    assert!(matches!(municipality_key(&text("x"), &text("7")), CellValue::Null));
}

#[test]
fn other_dates_and_nulls_pass_through() {
    let rows = vec![vec![text("b"), text("1"), CellValue::Null, CellValue::Null, text("US"), text("2020-05-01")]];
    let cleaned = clean_data_covid(&fact_frame(rows)).unwrap();
    let row = &cleaned.rows[0];
    assert!(matches!(row[2], CellValue::Null));
    assert!(matches!(row[3], CellValue::Null));
    assert!(matches!(&row[5], CellValue::Text(t) if t == "2020-05-01"));
    assert!(matches!(&row[0], CellValue::Text(t) if t == "b"));
}

#[test]
fn missing_fact_column_is_a_source_format_error() {
    let mut df = fact_frame(vec![]);
    df.columns[5] = "OTRA".to_string();
    match clean_data_covid(&df) {
        Err(LoadError::SourceFormat(c)) => assert_eq!(c, "FECHA_DEF"),
        other => panic!("unexpected {other:?}"),
    }
    assert!(matches!(retain_known_municipalities(&Frame { columns: vec![], dtypes: vec![], rows: vec![] }, &vec![]), Err(LoadError::SourceFormat(_))));
}

#[test]
fn ignored_nationality_shares_one_dimension_row_with_its_placeholder() {
    let rows = vec![
        vec![text("a"), text("09"), CellValue::UInt(7), text("99"), text("97"), CellValue::Null],
        vec![text("b"), text("09"), CellValue::UInt(7), text("SE INGONARA"), text("México"), CellValue::Null],
        vec![text("c"), text("09"), CellValue::UInt(7), CellValue::Null, text("97"), CellValue::Null],
    ];
    let df = fact_frame(rows);
    let dim = get_unique_contry(&df, "PAIS", "CLAVE").unwrap();
    assert_eq!(dim.columns, vec!["CLAVE".to_string(), "PAIS".to_string()]);
    assert_eq!(dim.dtypes, vec![SourceType::UInt64, SourceType::String]);
    let key = simple_hash("SE INGONARA");
    let hits: Vec<&Vec<CellValue>> = dim.rows.iter().filter(|r| is_uint(&r[0], key)).collect();
    assert_eq!(hits.len(), 1);
    assert!(matches!(&hits[0][1], CellValue::Text(t) if t == "SE INGONARA"));
    assert_eq!(dim.rows.len(), 3);
    assert!(matches!(&dim.rows[1][1], CellValue::Text(t) if t == "NO APLICA"));
    assert!(matches!(&dim.rows[2][1], CellValue::Text(t) if t == "México"));

    let cleaned = clean_data_covid(&df).unwrap();
    assert!(is_uint(&cleaned.rows[0][3], key));
    assert!(is_uint(&cleaned.rows[1][3], key));
}

#[test]
fn colliding_keys_keep_the_first_text() {
    let rows = vec![
        vec![text("a"), text("1"), CellValue::UInt(1), text("AB"), text("BA"), CellValue::Null],
    ];
    let dim = get_unique_contry(&fact_frame(rows), "PAIS", "CLAVE").unwrap();
    assert_eq!(dim.rows.len(), 1);
    assert!(matches!(&dim.rows[0][1], CellValue::Text(t) if t == "AB"));
    let no_origin = Frame { columns: vec!["PAIS_NACIONALIDAD".to_string()], dtypes: vec![SourceType::String], rows: vec![] };
    assert!(matches!(get_unique_contry(&no_origin, "P", "K"), Err(LoadError::SourceFormat(c)) if c == "PAIS_ORIGEN"));
}

#[test]
fn unsigned_parsing() {
    assert_eq!(parse_u64("09007"), Some(9007));
    assert_eq!(parse_u64("18446744073709551615"), Some(u64::MAX));
    assert_eq!(parse_u64("18446744073709551616"), None);
    assert_eq!(parse_u64(""), None);
    assert_eq!(parse_u64("-1"), None);
    assert_eq!(parse_u64("1.5"), None);
    assert!(is_uint(&cast_to_unsigned(&CellValue::Boolean(true)), 1));
    assert!(matches!(cast_to_unsigned(&CellValue::Int(-3)), CellValue::Null));
    assert!(is_uint(&cast_to_unsigned(&CellValue::Real("12".to_string())), 12));
}

fn sheet(rows: Vec<Vec<Option<&str>>>) -> Frame {
    let rows: Vec<Vec<Option<String>>> = rows
        .into_iter()
        .map(|r| r.into_iter().map(|c| c.map(|s| s.to_string())).collect())
        .collect();
    sheet_to_frame(&rows)
}

#[test]
fn sheets_become_text_tables() {
    let df = sheet(vec![
        vec![Some("A"), None, Some("C")],
        vec![Some("1")],
        vec![Some("2"), Some("x"), Some("y"), Some("extra")],
    ]);
    assert_eq!(df.columns, vec!["A".to_string(), String::new(), "C".to_string()]);
    assert_eq!(df.dtypes, vec![SourceType::String; 3]);
    assert_eq!(df.rows.len(), 2);
    assert_eq!(df.rows[0].len(), 3);
    assert!(matches!(df.rows[0][1], CellValue::Null));
    assert!(matches!(&df.rows[1][2], CellValue::Text(t) if t == "y"));
    assert!(df.is_well_formed());
    assert_eq!(sheet(vec![]).columns.len(), 0);
}

fn descriptor() -> Frame {
    sheet(vec![
        vec![Some("Nº"), Some("NOMBRE DE VARIABLE"), Some("FORMATO O FUENTE")],
        vec![Some("1"), Some("FECHA_ACTUALIZACION"), Some("AAAA-MM-DD")],
        vec![Some("2"), Some("ID_REGISTRO"), Some("TEXTO")],
        vec![Some("3"), Some("SEXO"), Some("CATÁLOGO: SEXO ")],
        vec![Some("4"), Some("ENTIDAD_RES"), Some("CATALÓGO: ENTIDADES")],
        vec![Some("5"), Some("EDAD"), Some("NÚMERICA EN AÑOS")],
        vec![Some("6"), None, Some("TEXTO")],
        vec![Some("7"), Some("PAIS_NACIONALIDAD"), Some("TEXTO")],
    ])
}

#[test]
fn storage_schema_from_the_descriptors() {
    let schema = get_schema_sql(&descriptor()).unwrap();
    assert_eq!(
        schema.finish("COVID19MEXICO"),
        "CREATE TABLE IF NOT EXISTS COVID19MEXICO (\n    FECHA_ACTUALIZACION TEXT NOT NULL,\n    SEXO INTEGER,\n    ENTIDAD_RES INTEGER,\n    EDAD INTEGER,\n    PAIS_NACIONALIDAD TEXT,\n    ID_REGISTRO TEXT PRIMARY KEY NOT NULL,\n    FOREIGN KEY (SEXO) REFERENCES SEXO(CLAVE),\n    FOREIGN KEY (ENTIDAD_RES) REFERENCES ENTIDADES(CLAVE)\n);"
    );
}

#[test]
fn logical_schema_from_the_descriptors() {
    let fields = get_schema_pl(&descriptor()).unwrap();
    let names: Vec<&str> = fields.iter().map(|(n, _)| n.as_str()).collect();
    assert_eq!(names, vec!["FECHA_ACTUALIZACION", "ID_REGISTRO", "SEXO", "ENTIDAD_RES", "EDAD", "PAIS_NACIONALIDAD"]);
    assert_eq!(fields[2].1, SourceType::UInt64);
    assert_eq!(fields[3].1, SourceType::UInt64);
    assert_eq!(fields[4].1, SourceType::String);
    let bad = sheet(vec![vec![Some("NOMBRE DE VARIABLE")]]);
    assert!(matches!(get_schema_pl(&bad), Err(LoadError::SourceFormat(c)) if c == "FORMATO O FUENTE"));
    assert!(matches!(get_schema_sql(&bad), Err(LoadError::SourceFormat(_))));
}

#[test]
fn catalog_names_and_references() {
    assert_eq!(last_token("Catálogo de ENTIDADES"), "ENTIDADES");
    assert_eq!(last_token("  MUNICIPIOS \t"), "MUNICIPIOS");
    assert_eq!(last_token("   "), "");
    assert_eq!(catalog_ref("CATÁLOGO: SEXO "), "SEXO");
    assert_eq!(catalog_ref("CATÁLOGO: TIPO PACIENTE"), "TIPOPACIENTE");
    assert_eq!(catalog_ref("SIN CATALOGO"), "");
    assert_eq!(catalog_kind("Catálogo MUNICIPIOS"), CatalogKind::Municipalities);
    assert_eq!(catalog_kind("Catálogo SEXO"), CatalogKind::Generic);
}

#[test]
fn municipality_catalog_gets_a_joined_key() {
    let df = sheet(vec![
        vec![Some("CLAVE_ENTIDAD"), Some("CLAVE_MUNICIPIO"), Some("MUNICIPIO")],
        vec![Some("09"), Some("007"), Some("IZTAPALAPA")],
    ]);
    let (name, t) = catalog_table("Catálogo MUNICIPIOS", &df).unwrap();
    assert_eq!(name, "MUNICIPIOS");
    assert_eq!(t.columns, vec!["CLAVE", "CLAVE_ENTIDAD", "CLAVE_MUNICIPIO", "MUNICIPIO"]);
    assert_eq!(t.dtypes[0], SourceType::UInt64);
    assert!(is_uint(&t.rows[0][0], 9007));
    assert!(is_uint(&t.rows[0][1], 9));
    assert!(is_uint(&t.rows[0][2], 7));
    assert_eq!(dimension_keys(&t, "CLAVE").unwrap(), vec![9007]);
}

#[test]
fn region_and_lab_catalogs() {
    let regions = sheet(vec![
        vec![Some("CLAVE_ENTIDAD"), Some("ENTIDAD_FEDERATIVA"), Some("ABREVIATURA")],
        vec![Some("01"), Some("AGUASCALIENTES"), Some("AS")],
    ]);
    let labs = sheet(vec![
        vec![Some("CLAVE"), Some("DESCRIPCIÓN"), None],
        vec![Some("1"), Some("POSITIVO"), None],
    ]);
    let short = sheet(vec![vec![Some("CLAVE")]]);
    let tables = get_df_cat(&vec![
        ("Catálogo de ENTIDADES".to_string(), regions),
        ("Catálogo RESULTADO_LAB".to_string(), labs.clone()),
    ])
    .unwrap();
    assert_eq!(tables[0].0, "ENTIDADES");
    assert_eq!(tables[0].1.columns, vec!["CLAVE", "ENTIDAD_FEDERATIVA", "ABREVIATURA"]);
    assert!(is_uint(&tables[0].1.rows[0][0], 1));
    assert_eq!(tables[1].0, "RESULTADO_LAB");
    assert_eq!(tables[1].1.columns.len(), 2);
    assert_eq!(tables[1].1.rows[0].len(), 2);
    let err = get_df_cat(&vec![("Catálogo X".to_string(), labs), ("Catálogo Y".to_string(), short)]);
    assert!(matches!(err, Err(LoadError::SourceFormat(s)) if s == "Catálogo Y"));
}

#[test]
fn text_columns_are_trimmed() {
    assert_eq!(trim_text("  a b  "), "a b");
    assert_eq!(trim_text("   "), "");
    let df = Frame {
        columns: vec!["t".to_string(), "n".to_string()],
        dtypes: vec![SourceType::String, SourceType::Other],
        rows: vec![vec![text(" x "), text(" y ")]],
    };
    let t = trim_cols(&df);
    assert!(matches!(&t.rows[0][0], CellValue::Text(s) if s == "x"));
    assert!(matches!(&t.rows[0][1], CellValue::Text(s) if s == " y "));
}

#[test]
fn country_columns_reference_the_country_dimension() {
    let mut schema = get_schema_sql(&descriptor()).unwrap();
    with_country_keys(&mut schema);
    let sql = schema.finish("F");
    assert!(sql.contains("\n    PAIS_NACIONALIDAD INTEGER,\n"));
    assert!(sql.contains("\n    PAIS_ORIGEN INTEGER,\n"));
    assert!(sql.ends_with(",\n    FOREIGN KEY (PAIS_NACIONALIDAD) REFERENCES PAISES(CLAVE),\n    FOREIGN KEY (PAIS_ORIGEN) REFERENCES PAISES(CLAVE)\n);"));
    assert_eq!(
        catalog_key_schema().finish("SEXO"),
        "CREATE TABLE IF NOT EXISTS SEXO (\n    CLAVE INTEGER PRIMARY KEY NOT NULL\n);"
    );
}
