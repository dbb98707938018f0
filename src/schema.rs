//! Column and table schema model, and the `CREATE TABLE` statement it renders.
use crate::text::{join, push_joined, push_text, texts};
use crate::types::{sql_type_text, storage_type_of, SourceType, SqliteDataType};
use indexmap::IndexMap;
use vstd::prelude::*;

verus! {

// ---------------------------------------------------------------------------
// Ordered entries: spec-level operations shared by every keyed sequence here.
// ---------------------------------------------------------------------------

/// No key occurs twice.
pub open spec fn keys_unique<V>(s: Seq<(Seq<char>, V)>) -> bool {
    forall|i: int, j: int| 0 <= i < j < s.len() ==> s[i].0 != s[j].0
}

pub open spec fn has_key<V>(s: Seq<(Seq<char>, V)>, k: Seq<char>) -> bool {
    exists|i: int| 0 <= i < s.len() && s[i].0 == k
}

/// Insertion into an ordered map: an existing key keeps its place and takes
/// the new value, a new key goes last.
pub open spec fn insert_entry<V>(s: Seq<(Seq<char>, V)>, k: Seq<char>, v: V) -> Seq<(Seq<char>, V)> {
    if has_key(s, k) {
        let i = choose|i: int| 0 <= i < s.len() && s[i].0 == k;
        s.update(i, (k, v))
    } else {
        s.push((k, v))
    }
}

/// Inserts every entry of `t`, in order, into `s`.
pub open spec fn merge_entries<V>(s: Seq<(Seq<char>, V)>, t: Seq<(Seq<char>, V)>) -> Seq<(Seq<char>, V)>
    decreases t.len(),
{
    if t.len() == 0 {
        s
    } else {
        insert_entry(merge_entries(s, t.drop_last()), t.last().0, t.last().1)
    }
}

pub proof fn lemma_insert_entry_at<V>(s: Seq<(Seq<char>, V)>, k: Seq<char>, v: V, i: int)
    requires
        keys_unique(s),
        0 <= i < s.len(),
        s[i].0 == k,
    ensures
        insert_entry(s, k, v) == s.update(i, (k, v)),
        keys_unique(insert_entry(s, k, v)),
{
    assert(has_key(s, k));
}

pub proof fn lemma_insert_entry_new<V>(s: Seq<(Seq<char>, V)>, k: Seq<char>, v: V)
    requires
        keys_unique(s),
        !has_key(s, k),
    ensures
        insert_entry(s, k, v) == s.push((k, v)),
        keys_unique(insert_entry(s, k, v)),
{
}

// ---------------------------------------------------------------------------
// Foreign keys and column options.
// ---------------------------------------------------------------------------

/// Reference from a column to a column of another table.
#[derive(Debug)]
pub struct ForeinKey {
    pub table: String,
    pub column: String,
}

impl ForeinKey {
    pub fn new(table: &str, column: &str) -> (r: Self)
        ensures
            r.table@ == table@,
            r.column@ == column@,
    {
        ForeinKey { table: String::from_str(table), column: String::from_str(column) }
    }
}

impl Clone for ForeinKey {
    fn clone(&self) -> (r: Self)
        ensures
            r == *self,
    {
        ForeinKey { table: self.table.clone(), column: self.column.clone() }
    }
}

/// What a column option states, with texts as character sequences.
pub struct ColumnSpec {
    pub type_sql: SqliteDataType,
    pub nullable: bool,
    pub primary_key: bool,
    pub unique: bool,
    pub auto_increment: bool,
    pub default: Option<Seq<char>>,
    /// Referenced table and column.
    pub foreign_key: Option<(Seq<char>, Seq<char>)>,
}

impl ColumnSpec {
    /// A primary-key column is never nullable and never has a default.
    pub open spec fn wf(self) -> bool {
        self.primary_key ==> !self.nullable && self.default is None
    }

    pub open spec fn with_type_sql(self, t: SqliteDataType) -> ColumnSpec {
        ColumnSpec { type_sql: t, ..self }
    }

    pub open spec fn with_nullable(self, nullable: bool) -> ColumnSpec {
        ColumnSpec { nullable: if self.primary_key { false } else { nullable }, ..self }
    }

    pub open spec fn with_primary_key(self, primary_key: bool) -> ColumnSpec {
        ColumnSpec {
            primary_key,
            nullable: false,
            default: if primary_key { None } else { self.default },
            ..self
        }
    }

    pub open spec fn with_unique(self, unique: bool) -> ColumnSpec {
        ColumnSpec { unique, ..self }
    }

    pub open spec fn with_default(self, default: Option<Seq<char>>) -> ColumnSpec {
        ColumnSpec { default: if self.primary_key { None } else { default }, ..self }
    }

    pub open spec fn with_auto_increment(self, auto_increment: bool) -> ColumnSpec {
        ColumnSpec { auto_increment, ..self }
    }

    pub open spec fn with_foreign_key(self, table: Seq<char>, column: Seq<char>) -> ColumnSpec {
        ColumnSpec { foreign_key: Some((table, column)), ..self }
    }
}

/// Options of a fresh column: `TEXT`, nullable, no constraint.
pub open spec fn default_column_spec() -> ColumnSpec {
    ColumnSpec {
        type_sql: SqliteDataType::TEXT,
        nullable: true,
        primary_key: false,
        unique: false,
        auto_increment: false,
        default: None,
        foreign_key: None,
    }
}

/// The primary-key rule holds after any builder call on a primary-key column,
/// and `with_primary_key(true)` establishes it whatever came before.
pub proof fn lemma_primary_key_column_is_required(
    c: ColumnSpec,
    nullable: bool,
    default: Option<Seq<char>>,
)
    ensures
        c.with_primary_key(true).wf(),
        !c.with_primary_key(true).nullable,
        c.with_primary_key(true).default is None,
        c.wf() ==> c.with_nullable(nullable).wf(),
        c.wf() ==> c.with_default(default).wf(),
        c.primary_key ==> !c.with_nullable(nullable).nullable,
        c.primary_key ==> c.with_default(default).default is None,
        !c.with_primary_key(true).with_nullable(nullable).nullable,
        c.with_primary_key(true).with_default(default).default is None,
{
}

/// Type, nullability, key and default of one column.
#[derive(Debug)]
pub struct SqliteColOption {
    type_sql: SqliteDataType,
    nullable: bool,
    primary_key: bool,
    unique: bool,
    auto_increment: bool,
    default: Option<String>,
    foreing_key: Option<ForeinKey>,
}

impl View for SqliteColOption {
    type V = ColumnSpec;

    closed spec fn view(&self) -> ColumnSpec {
        ColumnSpec {
            type_sql: self.type_sql,
            nullable: self.nullable,
            primary_key: self.primary_key,
            unique: self.unique,
            auto_increment: self.auto_increment,
            default: match self.default {
                Some(d) => Some(d@),
                None => None,
            },
            foreign_key: match self.foreing_key {
                Some(fk) => Some((fk.table@, fk.column@)),
                None => None,
            },
        }
    }
}

impl Clone for SqliteColOption {
    fn clone(&self) -> (r: Self)
        ensures
            r@ == self@,
    {
        proof {
            use_type_invariant(self);
        }
        let default = match &self.default {
            Some(d) => Some(d.clone()),
            None => None,
        };
        let foreing_key = match &self.foreing_key {
            Some(fk) => Some(fk.clone()),
            None => None,
        };
        SqliteColOption {
            type_sql: self.type_sql,
            nullable: self.nullable,
            primary_key: self.primary_key,
            unique: self.unique,
            auto_increment: self.auto_increment,
            default,
            foreing_key,
        }
    }
}

impl Default for SqliteColOption {
    fn default() -> (r: Self)
        ensures
            r@ == default_column_spec(),
    {
        SqliteColOption {
            type_sql: SqliteDataType::TEXT,
            nullable: true,
            primary_key: false,
            unique: false,
            auto_increment: false,
            default: None,
            foreing_key: None,
        }
    }
}

impl SqliteColOption {
    #[verifier::type_invariant]
    spec fn inv(&self) -> bool {
        self.primary_key ==> !self.nullable && self.default is None
    }

    pub fn with_type_sql(self, type_sql: SqliteDataType) -> (r: Self)
        ensures
            r@ == self@.with_type_sql(type_sql),
    {
        proof {
            use_type_invariant(&self);
        }
        SqliteColOption { type_sql, ..self }
    }

    /// Nullability is ignored on a primary-key column, which stays required.
    pub fn with_nullable(self, nullable: bool) -> (r: Self)
        ensures
            r@ == self@.with_nullable(nullable),
    {
        proof {
            use_type_invariant(&self);
        }
        let nullable = if self.primary_key {
            false
        } else {
            nullable
        };
        SqliteColOption { nullable, ..self }
    }

    /// Marks the column as (not) the primary key; either way it becomes
    /// required, and a primary key loses its default.
    pub fn with_primary_key(self, primary_key: bool) -> (r: Self)
        ensures
            r@ == self@.with_primary_key(primary_key),
    {
        let default = if primary_key {
            None
        } else {
            self.default
        };
        SqliteColOption { primary_key, nullable: false, default, ..self }
    }

    pub fn with_unique(self, unique: bool) -> (r: Self)
        ensures
            r@ == self@.with_unique(unique),
    {
        proof {
            use_type_invariant(&self);
        }
        SqliteColOption { unique, ..self }
    }

    /// A default literal; ignored on a primary-key column.
    pub fn with_default(self, default: Option<String>) -> (r: Self)
        ensures
            r@ == self@.with_default(
                match default {
                    Some(d) => Some(d@),
                    None => None,
                },
            ),
    {
        proof {
            use_type_invariant(&self);
        }
        let default = if self.primary_key {
            None
        } else {
            default
        };
        SqliteColOption { default, ..self }
    }

    pub fn with_auto_increment(self, auto_increment: bool) -> (r: Self)
        ensures
            r@ == self@.with_auto_increment(auto_increment),
    {
        proof {
            use_type_invariant(&self);
        }
        SqliteColOption { auto_increment, ..self }
    }

    /// References `column` of `table`.
    pub fn foreign_key(self, table: &str, column: &str) -> (r: Self)
        ensures
            r@ == self@.with_foreign_key(table@, column@),
    {
        proof {
            use_type_invariant(&self);
        }
        SqliteColOption { foreing_key: Some(ForeinKey::new(table, column)), ..self }
    }
}

pub open spec fn text_if(b: bool, t: Seq<char>) -> Seq<char> {
    if b {
        t
    } else {
        Seq::empty()
    }
}

pub open spec fn default_text(d: Option<Seq<char>>) -> Seq<char> {
    match d {
        Some(d) => " DEFAULT "@ + d,
        None => Seq::empty(),
    }
}

/// Constraint words of a column definition, in their fixed order.
pub open spec fn constraint_text(c: ColumnSpec) -> Seq<char> {
    text_if(c.primary_key, " PRIMARY KEY"@) + text_if(c.unique, " UNIQUE"@) + text_if(
        c.auto_increment,
        " AUTOINCREMENT"@,
    ) + default_text(c.default) + text_if(!c.nullable, " NOT NULL"@)
}

/// Text of one column definition: name, type, then the constraints.
pub open spec fn column_def(name: Seq<char>, c: ColumnSpec) -> Seq<char> {
    name + " "@ + sql_type_text(c.type_sql) + constraint_text(c)
}

impl SqliteColOption {
    pub fn type_sql(&self) -> (r: SqliteDataType)
        ensures
            r == self@.type_sql,
    {
        self.type_sql
    }

    /// Never true on a primary-key column.
    pub fn nullable(&self) -> (r: bool)
        ensures
            r == self@.nullable,
            self@.wf(),
    {
        proof {
            use_type_invariant(self);
        }
        self.nullable
    }

    pub fn primary_key(&self) -> (r: bool)
        ensures
            r == self@.primary_key,
            self@.wf(),
    {
        proof {
            use_type_invariant(self);
        }
        self.primary_key
    }

    pub fn unique(&self) -> (r: bool)
        ensures
            r == self@.unique,
    {
        self.unique
    }

    pub fn auto_increment(&self) -> (r: bool)
        ensures
            r == self@.auto_increment,
    {
        self.auto_increment
    }

    /// Never set on a primary-key column.
    pub fn default_value(&self) -> (r: Option<&String>)
        ensures
            r is Some <==> self@.default is Some,
            r matches Some(d) ==> self@.default == Some(d@),
            self@.wf(),
    {
        proof {
            use_type_invariant(self);
        }
        self.default.as_ref()
    }

    pub fn get_foreign_key(&self) -> (r: Option<&ForeinKey>)
        ensures
            r is Some <==> self@.foreign_key is Some,
            r matches Some(fk) ==> self@.foreign_key == Some((fk.table@, fk.column@)),
    {
        self.foreing_key.as_ref()
    }

    #[verifier::spinoff_prover]
    fn push_constraints(&self, out: &mut String)
        ensures
            final(out)@ == old(out)@ + constraint_text(self@),
    {
        let ghost start = out@;
        let ghost c = self@;
        if self.primary_key {
            push_text(out, " PRIMARY KEY");
        }
        let ghost a1 = text_if(c.primary_key, " PRIMARY KEY"@);
        assert(out@ =~= start + a1);
        if self.unique {
            push_text(out, " UNIQUE");
        }
        let ghost a2 = a1 + text_if(c.unique, " UNIQUE"@);
        assert(out@ =~= start + a2);
        if self.auto_increment {
            push_text(out, " AUTOINCREMENT");
        }
        let ghost a3 = a2 + text_if(c.auto_increment, " AUTOINCREMENT"@);
        assert(out@ =~= start + a3);
        match &self.default {
            Some(d) => {
                push_text(out, " DEFAULT ");
                push_text(out, d.as_str());
            },
            None => {},
        }
        let ghost a4 = a3 + default_text(c.default);
        assert(out@ =~= start + a4);
        if !self.nullable {
            push_text(out, " NOT NULL");
        }
        let ghost a5 = a4 + text_if(!c.nullable, " NOT NULL"@);
        assert(out@ =~= start + a5);
    }

    /// Appends the column definition of `column_name` with these options.
    pub fn push_col_def(&self, out: &mut String, column_name: &str)
        ensures
            final(out)@ == old(out)@ + column_def(column_name@, self@),
    {
        let ghost start = out@;
        push_text(out, column_name);
        push_text(out, " ");
        self.type_sql.push_sql(out);
        self.push_constraints(out);
        assert(out@ =~= start + column_def(column_name@, self@));
    }

    /// The column definition of `column_name` with these options.
    pub fn build_col_def(&self, column_name: &str) -> (r: String)
        ensures
            r@ == column_def(column_name@, self@),
    {
        let mut out = String::new();
        self.push_col_def(&mut out, column_name);
        assert(out@ =~= column_def(column_name@, self@));
        out
    }
}

// ---------------------------------------------------------------------------
// The ordered map that holds a schema's columns.
// ---------------------------------------------------------------------------

#[verifier::external_type_specification]
#[verifier::external_body]
#[verifier::reject_recursive_types(K)]
#[verifier::reject_recursive_types(V)]
#[verifier::reject_recursive_types(S)]
pub struct ExIndexMap<K, V, S>(IndexMap<K, V, S>);

/// The entries of a column map, in their order.
pub uninterp spec fn column_entries(m: IndexMap<String, SqliteColOption>) -> Seq<(Seq<char>, SqliteColOption)>;

/// Relies on `IndexMap::new`: a new map has no entries.
#[verifier::external_body]
fn column_map_new() -> (r: IndexMap<String, SqliteColOption>)
    ensures
        column_entries(r) == Seq::<(Seq<char>, SqliteColOption)>::empty(),
{
    IndexMap::new()
}

/// Relies on `IndexMap::insert_full`: an equal key keeps its place and takes
/// the new value, otherwise the pair goes last; the key's index is returned.
#[verifier::external_body]
fn column_map_insert(m: &mut IndexMap<String, SqliteColOption>, k: String, v: SqliteColOption) -> (idx: usize)
    ensures
        idx <= column_entries(*old(m)).len(),
        idx < column_entries(*old(m)).len() ==> column_entries(*old(m))[idx as int].0 == k@
            && column_entries(*final(m)) == column_entries(*old(m)).update(idx as int, (k@, v)),
        idx == column_entries(*old(m)).len() ==> (forall|i: int|
            0 <= i < column_entries(*old(m)).len() ==> column_entries(*old(m))[i].0 != k@)
            && column_entries(*final(m)) == column_entries(*old(m)).push((k@, v)),
{
    m.insert_full(k, v).0
}

/// Relies on `IndexMap::len`: the number of entries.
#[verifier::external_body]
fn column_map_len(m: &IndexMap<String, SqliteColOption>) -> (r: usize)
    ensures
        r == column_entries(*m).len(),
{
    m.len()
}

/// Relies on `IndexMap::get_index`: the entry at a position, none past the end.
#[verifier::external_body]
fn column_map_get(m: &IndexMap<String, SqliteColOption>, i: usize) -> (r: Option<(&String, &SqliteColOption)>)
    ensures
        r is Some <==> i < column_entries(*m).len(),
        r matches Some(p) ==> p.0@ == column_entries(*m)[i as int].0 && *p.1
            == column_entries(*m)[i as int].1,
{
    m.get_index(i)
}

/// Relies on `IndexMap::get_index_of`: the position of an equal key, if any.
#[verifier::external_body]
fn column_map_position(m: &IndexMap<String, SqliteColOption>, k: &str) -> (r: Option<usize>)
    ensures
        r matches Some(i) ==> i < column_entries(*m).len() && column_entries(*m)[i as int].0 == k@,
        r is None ==> forall|i: int|
            0 <= i < column_entries(*m).len() ==> column_entries(*m)[i].0 != k@,
{
    m.get_index_of(k)
}

/// Entries with the options seen through their view.
pub open spec fn entries_view(e: Seq<(Seq<char>, SqliteColOption)>) -> Seq<(Seq<char>, ColumnSpec)> {
    Seq::new(e.len(), |i: int| (e[i].0, e[i].1@))
}

proof fn lemma_unique_view(e: Seq<(Seq<char>, SqliteColOption)>)
    ensures
        keys_unique(e) <==> keys_unique(entries_view(e)),
{
    if keys_unique(entries_view(e)) {
        assert forall|i: int, j: int| 0 <= i < j < e.len() implies e[i].0 != e[j].0 by {
            assert(entries_view(e)[i].0 == e[i].0);
            assert(entries_view(e)[j].0 == e[j].0);
        }
    }
}

proof fn lemma_insert_view(
    before: Seq<(Seq<char>, SqliteColOption)>,
    after: Seq<(Seq<char>, SqliteColOption)>,
    idx: usize,
    k: Seq<char>,
    v: SqliteColOption,
)
    requires
        keys_unique(before),
        idx <= before.len(),
        idx < before.len() ==> before[idx as int].0 == k && after == before.update(idx as int, (k, v)),
        idx == before.len() ==> (forall|i: int| 0 <= i < before.len() ==> before[i].0 != k) && after
            == before.push((k, v)),
    ensures
        keys_unique(after),
        entries_view(after) == insert_entry(entries_view(before), k, v@),
{
    lemma_unique_view(before);
    let bv = entries_view(before);
    if idx < before.len() {
        assert(entries_view(after) =~= bv.update(idx as int, (k, v@)));
        lemma_insert_entry_at(bv, k, v@, idx as int);
    } else {
        assert(!has_key(bv, k));
        assert(entries_view(after) =~= bv.push((k, v@)));
        lemma_insert_entry_new(bv, k, v@);
    }
    lemma_unique_view(after);
}

// ---------------------------------------------------------------------------
// Table schema.
// ---------------------------------------------------------------------------

/// Options of a column inferred from a logical type: the mapped storage type,
/// everything else as for a fresh column.
pub open spec fn inferred_spec(t: SourceType) -> ColumnSpec {
    default_column_spec().with_type_sql(storage_type_of(t))
}

/// Entries inferred from named logical types, in order.
pub open spec fn inferred_fields(f: Seq<(String, SourceType)>) -> Seq<(Seq<char>, ColumnSpec)> {
    Seq::new(f.len(), |i: int| (f[i].0@, inferred_spec(f[i].1)))
}

/// `FOREIGN KEY` clause of one column.
pub open spec fn fk_clause(name: Seq<char>, table: Seq<char>, column: Seq<char>) -> Seq<char> {
    "FOREIGN KEY ("@ + name + ") REFERENCES "@ + table + "("@ + column + ")"@
}

/// Column definitions, in schema order.
pub open spec fn column_defs(s: Seq<(Seq<char>, ColumnSpec)>) -> Seq<Seq<char>> {
    Seq::new(s.len(), |i: int| column_def(s[i].0, s[i].1))
}

/// Foreign-key clauses of the columns that have one, in schema order.
pub open spec fn fk_clauses(s: Seq<(Seq<char>, ColumnSpec)>) -> Seq<Seq<char>>
    decreases s.len(),
{
    if s.len() == 0 {
        Seq::empty()
    } else {
        fk_clauses(s.drop_last()) + match s.last().1.foreign_key {
            Some(fk) => seq![fk_clause(s.last().0, fk.0, fk.1)],
            None => Seq::empty(),
        }
    }
}

/// The `CREATE TABLE IF NOT EXISTS` statement of a schema: column
/// definitions in order, then all foreign-key clauses.
pub open spec fn create_table_sql(table: Seq<char>, s: Seq<(Seq<char>, ColumnSpec)>) -> Seq<char> {
    "CREATE TABLE IF NOT EXISTS "@ + table + " (\n    "@ + join(
        column_defs(s) + fk_clauses(s),
        ",\n    "@,
    ) + "\n);"@
}

/// Rendering follows insertion order: a new column's definition comes last,
/// and overwriting a column keeps its definition in place. Equal schemas
/// render equal text.
pub proof fn lemma_render_follows_insertion_order(
    s: Seq<(Seq<char>, ColumnSpec)>,
    k: Seq<char>,
    c: ColumnSpec,
    table: Seq<char>,
)
    requires
        keys_unique(s),
    ensures
        !has_key(s, k) ==> column_defs(insert_entry(s, k, c)) == column_defs(s).push(
            column_def(k, c),
        ),
        forall|i: int|
            0 <= i < s.len() && s[i].0 == k ==> column_defs(insert_entry(s, k, c)) == column_defs(
                s,
            ).update(i, column_def(k, c)),
        forall|t: Seq<(Seq<char>, ColumnSpec)>|
            t == s ==> create_table_sql(table, t) == create_table_sql(table, s),
{
    if !has_key(s, k) {
        lemma_insert_entry_new(s, k, c);
        assert(column_defs(insert_entry(s, k, c)) =~= column_defs(s).push(column_def(k, c)));
    }
    assert forall|i: int| 0 <= i < s.len() && s[i].0 == k implies column_defs(
        insert_entry(s, k, c),
    ) == column_defs(s).update(i, column_def(k, c)) by {
        lemma_insert_entry_at(s, k, c, i);
        assert(column_defs(insert_entry(s, k, c)) =~= column_defs(s).update(i, column_def(k, c)));
    }
}

/// Ordered mapping from column name to options; names are unique and keep
/// the order of their first insertion.
#[derive(Debug)]
pub struct SqliteSchema {
    columns: IndexMap<String, SqliteColOption>,
}

impl View for SqliteSchema {
    type V = Seq<(Seq<char>, ColumnSpec)>;

    closed spec fn view(&self) -> Seq<(Seq<char>, ColumnSpec)> {
        entries_view(column_entries(self.columns))
    }
}

impl SqliteSchema {
    #[verifier::type_invariant]
    spec fn inv(&self) -> bool {
        keys_unique(column_entries(self.columns))
    }

    fn empty() -> (r: Self)
        ensures
            r@ == Seq::<(Seq<char>, ColumnSpec)>::empty(),
    {
        let columns = column_map_new();
        assert(entries_view(column_entries(columns)) =~= Seq::<(Seq<char>, ColumnSpec)>::empty());
        SqliteSchema { columns }
    }

    fn insert(&mut self, k: String, v: SqliteColOption)
        ensures
            final(self)@ == insert_entry(old(self)@, k@, v@),
    {
        let mut taken = Self::empty();
        core::mem::swap(self, &mut taken);
        proof {
            use_type_invariant(&taken);
        }
        let SqliteSchema { mut columns } = taken;
        let ghost before = column_entries(columns);
        let ghost kv = k@;
        let ghost vv = v;
        let idx = column_map_insert(&mut columns, k, v);
        proof {
            lemma_insert_view(before, column_entries(columns), idx, kv, vv);
        }
        *self = SqliteSchema { columns };
    }

    /// A schema of one column.
    pub fn new(col_name: &str, col_type: SqliteColOption) -> (r: Self)
        ensures
            r@ == seq![(col_name@, col_type@)],
    {
        let mut r = Self::empty();
        r.insert(String::from_str(col_name), col_type);
        proof {
            lemma_insert_entry_new(Seq::<(Seq<char>, ColumnSpec)>::empty(), col_name@, col_type@);
            assert(r@ =~= seq![(col_name@, col_type@)]);
        }
        r
    }

    /// One column per named logical type, with the mapped storage type and
    /// default options; a repeated name keeps its first place and takes the
    /// last type.
    pub fn from_polars_schema(schema: &Vec<(String, SourceType)>) -> (r: Self)
        ensures
            r@ == merge_entries(Seq::<(Seq<char>, ColumnSpec)>::empty(), inferred_fields(schema@)),
    {
        let mut r = Self::empty();
        let ghost all = inferred_fields(schema@);
        let mut i: usize = 0;
        while i < schema.len()
            invariant
                all == inferred_fields(schema@),
                i <= schema.len(),
                r@ == merge_entries(Seq::<(Seq<char>, ColumnSpec)>::empty(), all.subrange(0, i as int)),
            decreases schema.len() - i,
        {
            let name = schema[i].0.clone();
            let opt = SqliteColOption::default().with_type_sql(
                SqliteDataType::from_polar_type(&schema[i].1),
            );
            r.insert(name, opt);
            proof {
                let sub = all.subrange(0, i + 1);
                assert(sub.drop_last() =~= all.subrange(0, i as int));
            }
            i = i + 1;
        }
        assert(all.subrange(0, schema.len() as int) =~= all);
        r
    }

    /// Number of columns; names are never repeated.
    pub fn len(&self) -> (r: usize)
        ensures
            r == self@.len(),
            keys_unique(self@),
    {
        proof {
            use_type_invariant(self);
            lemma_unique_view(column_entries(self.columns));
        }
        column_map_len(&self.columns)
    }

    /// Name and options of the column at position `i`.
    pub fn get_field(&self, i: usize) -> (r: Option<(&String, &SqliteColOption)>)
        ensures
            r is Some <==> i < self@.len(),
            r matches Some(p) ==> self@[i as int] == (p.0@, p.1@),
    {
        column_map_get(&self.columns, i)
    }

    /// Position of the column named `name`, if there is one.
    pub fn position(&self, name: &str) -> (r: Option<usize>)
        ensures
            r matches Some(i) ==> i < self@.len() && self@[i as int].0 == name@,
            r is None <==> !has_key(self@, name@),
    {
        let r = column_map_position(&self.columns, name);
        proof {
            if r is None {
                if has_key(self@, name@) {
                    let i = choose|i: int| 0 <= i < self@.len() && self@[i].0 == name@;
                    assert(column_entries(self.columns)[i].0 == name@);
                }
            } else {
                assert(self@[r.unwrap() as int].0 == name@);
            }
        }
        r
    }

    /// Inserts or overwrites the options of one column.
    pub fn with_column(&mut self, column: &str, type_of: SqliteColOption)
        ensures
            final(self)@ == insert_entry(old(self)@, column@, type_of@),
    {
        self.insert(String::from_str(column), type_of);
    }

    /// Column-wise union: columns of `other` overwrite equal names in place
    /// and append the new ones, in `other`'s order.
    pub fn add_schema(self, other: &SqliteSchema) -> (r: Self)
        ensures
            r@ == merge_entries(self@, other@),
    {
        let mut r = self;
        let ghost start = r@;
        let n = other.len();
        let mut i: usize = 0;
        while i < n
            invariant
                n == other@.len(),
                i <= n,
                r@ == merge_entries(start, other@.subrange(0, i as int)),
            decreases n - i,
        {
            match other.get_field(i) {
                Some((name, opt)) => {
                    r.insert(name.clone(), opt.clone());
                },
                None => {},
            }
            proof {
                let sub = other@.subrange(0, i + 1);
                assert(sub.drop_last() =~= other@.subrange(0, i as int));
            }
            i = i + 1;
        }
        assert(other@.subrange(0, n as int) =~= other@);
        r
    }

    /// Column names and options, in order.
    pub fn iter_fields(&self) -> (r: Vec<(String, SqliteColOption)>)
        ensures
            r@.len() == self@.len(),
            forall|i: int|
                0 <= i < r@.len() ==> self@[i] == (#[trigger] r@[i].0@, r@[i].1@),
    {
        let n = self.len();
        let mut r: Vec<(String, SqliteColOption)> = Vec::new();
        let mut i: usize = 0;
        while i < n
            invariant
                n == self@.len(),
                i <= n,
                r@.len() == i,
                forall|k: int| 0 <= k < i ==> self@[k] == (#[trigger] r@[k].0@, r@[k].1@),
            decreases n - i,
        {
            match self.get_field(i) {
                Some((name, opt)) => {
                    r.push((name.clone(), opt.clone()));
                },
                None => {},
            }
            i = i + 1;
        }
        r
    }

    /// Column names, in order.
    pub fn iter_columns(&self) -> (r: Vec<String>)
        ensures
            texts(r@) == self@.map_values(|e: (Seq<char>, ColumnSpec)| e.0),
    {
        let n = self.len();
        let mut r: Vec<String> = Vec::new();
        let mut i: usize = 0;
        while i < n
            invariant
                n == self@.len(),
                i <= n,
                texts(r@) == self@.subrange(0, i as int).map_values(
                    |e: (Seq<char>, ColumnSpec)| e.0,
                ),
            decreases n - i,
        {
            match self.get_field(i) {
                Some((name, _)) => {
                    let ghost before = texts(r@);
                    r.push(name.clone());
                    assert(texts(r@) =~= before.push(name@));
                },
                None => {},
            }
            assert(texts(r@) =~= self@.subrange(0, i + 1).map_values(
                |e: (Seq<char>, ColumnSpec)| e.0,
            ));
            i = i + 1;
        }
        assert(self@.subrange(0, n as int) =~= self@);
        r
    }

    /// Column options, in order.
    pub fn iter_types(&self) -> (r: Vec<SqliteColOption>)
        ensures
            r@.len() == self@.len(),
            forall|i: int| 0 <= i < r@.len() ==> (#[trigger] r@[i])@ == self@[i].1,
    {
        let n = self.len();
        let mut r: Vec<SqliteColOption> = Vec::new();
        let mut i: usize = 0;
        while i < n
            invariant
                n == self@.len(),
                i <= n,
                r@.len() == i,
                forall|k: int| 0 <= k < i ==> (#[trigger] r@[k])@ == self@[k].1,
            decreases n - i,
        {
            match self.get_field(i) {
                Some((_, opt)) => {
                    r.push(opt.clone());
                },
                None => {},
            }
            i = i + 1;
        }
        r
    }

    /// The `CREATE TABLE IF NOT EXISTS` statement for this schema under
    /// `table_name`; the same schema always gives the same text.
    pub fn finish(&self, table_name: &str) -> (r: String)
        ensures
            r@ == create_table_sql(table_name@, self@),
    {
        let n = self.len();
        let mut defs: Vec<String> = Vec::new();
        let mut fks: Vec<String> = Vec::new();
        let mut i: usize = 0;
        while i < n
            invariant
                n == self@.len(),
                i <= n,
                texts(defs@) == column_defs(self@.subrange(0, i as int)),
                texts(fks@) == fk_clauses(self@.subrange(0, i as int)),
            decreases n - i,
        {
            let ghost sub = self@.subrange(0, i + 1);
            proof {
                assert(sub.drop_last() =~= self@.subrange(0, i as int));
            }
            let ghost old_defs = texts(defs@);
            let ghost old_fks = texts(fks@);
            match self.get_field(i) {
                Some((name, opt)) => {
                    assert(sub.last() == (name@, opt@));
                    let def = opt.build_col_def(name.as_str());
                    defs.push(def);
                    assert(texts(defs@) =~= old_defs.push(def@));
                    assert(column_defs(sub) =~= column_defs(sub.drop_last()).push(
                        column_def(name@, opt@),
                    ));
                    match opt.get_foreign_key() {
                        Some(fk) => {
                            let mut clause = String::new();
                            push_text(&mut clause, "FOREIGN KEY (");
                            push_text(&mut clause, name.as_str());
                            push_text(&mut clause, ") REFERENCES ");
                            push_text(&mut clause, fk.table.as_str());
                            push_text(&mut clause, "(");
                            push_text(&mut clause, fk.column.as_str());
                            push_text(&mut clause, ")");
                            assert(clause@ =~= fk_clause(name@, fk.table@, fk.column@));
                            let ghost cv = clause@;
                            fks.push(clause);
                            assert(texts(fks@) =~= old_fks.push(cv));
                            assert(texts(fks@) =~= fk_clauses(sub));
                        },
                        None => {
                            assert(texts(fks@) =~= fk_clauses(sub));
                        },
                    }
                    assert(texts(defs@) =~= column_defs(sub));
                },
                None => {},
            }
            i = i + 1;
        }
        assert(self@.subrange(0, n as int) =~= self@);
        let ghost d = texts(defs@);
        let mut k: usize = 0;
        while k < fks.len()
            invariant
                texts(defs@) == d + texts(fks@).subrange(0, k as int),
                k <= fks.len(),
            decreases fks.len() - k,
        {
            let ghost before = texts(defs@);
            defs.push(fks[k].clone());
            assert(texts(defs@) =~= before.push(fks@[k as int]@));
            assert(texts(fks@).subrange(0, k + 1) =~= texts(fks@).subrange(0, k as int).push(
                fks@[k as int]@,
            ));
            assert(texts(defs@) =~= d + texts(fks@).subrange(0, k + 1));
            k = k + 1;
        }
        assert(texts(fks@).subrange(0, fks.len() as int) =~= texts(fks@));
        let mut out = String::new();
        push_text(&mut out, "CREATE TABLE IF NOT EXISTS ");
        push_text(&mut out, table_name);
        push_text(&mut out, " (\n    ");
        push_joined(&mut out, &defs, ",\n    ");
        push_text(&mut out, "\n);");
        assert(out@ =~= create_table_sql(table_name@, self@));
        out
    }
}

impl Clone for SqliteSchema {
    /// A copy with the same columns, options and order.
    fn clone(&self) -> (r: Self)
        ensures
            r@ == self@,
    {
        let n = self.len();
        let mut r = SqliteSchema::empty();
        let mut i: usize = 0;
        while i < n
            invariant
                n == self@.len(),
                keys_unique(self@),
                i <= n,
                r@ == self@.subrange(0, i as int),
            decreases n - i,
        {
            match self.get_field(i) {
                Some((name, opt)) => {
                    proof {
                        assert(!has_key(r@, name@)) by {
                            if has_key(r@, name@) {
                                let j = choose|j: int| 0 <= j < r@.len() && r@[j].0 == name@;
                                assert(self@[j].0 == self@[i as int].0);
                            }
                        }
                        lemma_insert_entry_new(r@, name@, opt@);
                    }
                    r.insert(name.clone(), opt.clone());
                    assert(r@ =~= self@.subrange(0, i + 1));
                },
                None => {},
            }
            i = i + 1;
        }
        assert(self@.subrange(0, n as int) =~= self@);
        r
    }
}

} // verus!
