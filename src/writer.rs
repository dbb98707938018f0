//! Bulk writer: from a table and a configuration to the statements that load
//! it, and the state machine that runs them against a store under a table
//! lifecycle policy.
use crate::error::LoadError;
use crate::frame::{cells, has_name, Frame};
use crate::insert::{batch_count, batch_range, insert_sql, insert_statement, partition_batches};
use crate::schema::{
    create_table_sql, default_column_spec, has_key, inferred_fields, insert_entry, keys_unique,
    lemma_insert_entry_at, merge_entries, ColumnSpec, SqliteColOption, SqliteSchema,
};
use crate::text::{push_text, texts};
use crate::types::SqliteDataType;
use vstd::prelude::*;
use vstd::string::*;

verus! {

/// What to do when the target table already exists.
#[derive(Debug, Clone, Copy, PartialEq, Eq, Structural)]
pub enum IfExistsOption {
    /// Refuse the load before any statement runs.
    Fail,
    /// Drop the table first.
    Replace,
    /// Load into the table as it is.
    Append,
}

impl Default for IfExistsOption {
    fn default() -> (r: Self)
        ensures
            r == IfExistsOption::Fail,
    {
        IfExistsOption::Fail
    }
}

/// What a writer configuration states.
pub struct WriterConfig {
    pub table_name: Option<Seq<char>>,
    pub if_exists: IfExistsOption,
    pub index: bool,
    pub parallel: bool,
    pub batch_size: nat,
    pub index_label: Option<Seq<char>>,
    pub schema: Option<Seq<(Seq<char>, ColumnSpec)>>,
    pub strict: bool,
}

/// Configuration of one load.
#[derive(Debug)]
pub struct SqlWriter {
    table_name: Option<String>,
    if_exists: IfExistsOption,
    index: bool,
    parallel: bool,
    batch_size: usize,
    index_label: Option<String>,
    schema: Option<SqliteSchema>,
    strict: bool,
}

pub open spec fn opt_text(o: Option<String>) -> Option<Seq<char>> {
    match o {
        Some(s) => Some(s@),
        None => None,
    }
}

impl View for SqlWriter {
    type V = WriterConfig;

    closed spec fn view(&self) -> WriterConfig {
        WriterConfig {
            table_name: opt_text(self.table_name),
            if_exists: self.if_exists,
            index: self.index,
            parallel: self.parallel,
            batch_size: self.batch_size as nat,
            index_label: opt_text(self.index_label),
            schema: match self.schema {
                Some(s) => Some(s@),
                None => None,
            },
            strict: self.strict,
        }
    }
}

// ---------------------------------------------------------------------------
// What a load does, as functions of the configuration and the data.
// ---------------------------------------------------------------------------

/// Name of the target table; `test` when none is set.
pub open spec fn target_table(c: WriterConfig) -> Seq<char> {
    match c.table_name {
        Some(t) => t,
        None => "test"@,
    }
}

/// Name of the synthetic index column, when indexing is on; `Id` by default.
pub open spec fn index_column(c: WriterConfig) -> Option<Seq<char>> {
    if c.index {
        match c.index_label {
            Some(l) => Some(l),
            None => Some("Id"@),
        }
    } else {
        None
    }
}

/// Options of the synthetic index column.
pub open spec fn index_spec() -> ColumnSpec {
    default_column_spec().with_type_sql(SqliteDataType::INTEGER).with_primary_key(
        true,
    ).with_auto_increment(true)
}

/// Keeps the columns of `s` and their order; a column that `t` also names
/// takes `t`'s options.
pub open spec fn reconcile(s: Seq<(Seq<char>, ColumnSpec)>, t: Seq<(Seq<char>, ColumnSpec)>) -> Seq<(Seq<char>, ColumnSpec)>
    decreases t.len(),
{
    if t.len() == 0 {
        s
    } else {
        let r = reconcile(s, t.drop_last());
        if has_key(r, t.last().0) {
            insert_entry(r, t.last().0, t.last().1)
        } else {
            r
        }
    }
}

/// Schema that a load creates: the data's own columns, after the index
/// column if any, with the explicit options where given.
pub open spec fn planned_schema(c: WriterConfig, df: Frame) -> Seq<(Seq<char>, ColumnSpec)> {
    let inferred = merge_entries(Seq::empty(), inferred_fields(df.fields()));
    let base = match index_column(c) {
        Some(l) => merge_entries(seq![(l, index_spec())], inferred),
        None => inferred,
    };
    match c.schema {
        Some(e) => reconcile(base, e),
        None => base,
    }
}

/// Rows per batch: the configured size, or the row count if smaller (at
/// least one).
pub open spec fn effective_batch(c: WriterConfig, n: nat) -> nat {
    if n < c.batch_size {
        if n == 0 {
            1
        } else {
            n
        }
    } else {
        c.batch_size
    }
}

/// Options that `t` gives the column `k`.
pub open spec fn options_in(t: Seq<(Seq<char>, ColumnSpec)>, k: Seq<char>) -> ColumnSpec {
    t[choose|i: int| 0 <= i < t.len() && t[i].0 == k].1
}

/// Reconciling keeps the columns of `s` and their order; a column takes the
/// options of `t` exactly when `t` names it.
pub proof fn lemma_reconcile_pointwise(s: Seq<(Seq<char>, ColumnSpec)>, t: Seq<(Seq<char>, ColumnSpec)>)
    requires
        keys_unique(s),
        keys_unique(t),
    ensures
        reconcile(s, t).len() == s.len(),
        forall|i: int|
            0 <= i < s.len() ==> (#[trigger] reconcile(s, t)[i]).0 == s[i].0 && reconcile(s, t)[i].1
                == if has_key(t, s[i].0) {
                options_in(t, s[i].0)
            } else {
                s[i].1
            },
    decreases t.len(),
{
    if t.len() > 0 {
        let p = t.drop_last();
        let last = t.last();
        lemma_reconcile_pointwise(s, p);
        let r = reconcile(s, p);
        assert(keys_unique(r)) by {
            assert forall|a: int, b: int| 0 <= a < b < r.len() implies r[a].0 != r[b].0 by {
                assert(r[a].0 == s[a].0);
                assert(r[b].0 == s[b].0);
            }
        }
        if has_key(r, last.0) {
            let j = choose|j: int| 0 <= j < r.len() && r[j].0 == last.0;
            lemma_insert_entry_at(r, last.0, last.1, j);
        }
        assert forall|i: int| 0 <= i < s.len() implies (#[trigger] reconcile(s, t)[i]).0 == s[i].0
            && reconcile(s, t)[i].1 == if has_key(t, s[i].0) {
            options_in(t, s[i].0)
        } else {
            s[i].1
        } by {
            let k = s[i].0;
            assert(r[i].0 == k);
            if k == last.0 {
                assert(has_key(t, k)) by {
                    assert(t[t.len() - 1].0 == k);
                }
                let c = choose|c: int| 0 <= c < t.len() && t[c].0 == k;
                assert(c == t.len() - 1);
                assert(has_key(r, last.0));
            } else {
                assert(has_key(t, k) == has_key(p, k)) by {
                    if has_key(t, k) {
                        let c = choose|c: int| 0 <= c < t.len() && t[c].0 == k;
                        assert(p[c].0 == k);
                    }
                    if has_key(p, k) {
                        let c = choose|c: int| 0 <= c < p.len() && p[c].0 == k;
                        assert(t[c].0 == k);
                    }
                }
                if has_key(t, k) {
                    let c = choose|c: int| 0 <= c < t.len() && t[c].0 == k;
                    let d = choose|d: int| 0 <= d < p.len() && p[d].0 == k;
                    assert(t[d].0 == k);
                    assert(c == d);
                    assert(options_in(t, k) == options_in(p, k));
                }
            }
        }
    }
}

// ---------------------------------------------------------------------------
// The session that runs a load.
// ---------------------------------------------------------------------------

/// Where a load stands.
#[derive(Debug)]
pub enum WriteStage {
    /// Ask the store whether the table exists.
    CheckExisting,
    /// Drop the table.
    DropExisting,
    /// Create the table if it does not exist.
    Create,
    /// Insert the batch with this index.
    Insert(usize),
    Done,
    Failed(LoadError),
}

/// A batch whose insert the store refused while the load went on.
#[derive(Debug)]
pub struct BatchFailure {
    pub batch: usize,
    /// First row of the batch.
    pub start: usize,
    /// Row after the last one of the batch.
    pub end: usize,
    pub message: String,
}

/// What the store is asked to do next.
#[derive(Debug)]
pub enum StoreAction {
    /// Answer whether a table of this name exists.
    CheckTableExists(String),
    /// Run this statement.
    Execute(String),
    Finished,
    Abort(LoadError),
}

/// What the store answered.
#[derive(Debug)]
pub enum StoreEvent {
    TableExists(bool),
    Executed,
    ExecutionFailed(String),
}

/// A planned load and how far it has gone.
#[derive(Debug)]
pub struct WriteSession {
    pub table: String,
    pub strict: bool,
    /// The `CREATE TABLE IF NOT EXISTS` statement.
    pub create_sql: String,
    /// One `INSERT` per batch, in row order.
    pub inserts: Vec<String>,
    /// Row bounds of each batch.
    pub batches: Vec<(usize, usize)>,
    pub stage: WriteStage,
    /// Batches refused while not strict.
    pub failures: Vec<BatchFailure>,
}

/// `DROP TABLE IF EXISTS` statement of a table.
pub open spec fn drop_sql(table: Seq<char>) -> Seq<char> {
    "DROP TABLE IF EXISTS "@ + table
}

pub open spec fn initial_stage(p: IfExistsOption) -> WriteStage {
    match p {
        IfExistsOption::Fail => WriteStage::CheckExisting,
        IfExistsOption::Replace => WriteStage::DropExisting,
        IfExistsOption::Append => WriteStage::Create,
    }
}

/// Stage after the last statement of the load has run: the first batch, or
/// the end when there is none.
pub open spec fn stage_from(i: nat, n: nat) -> WriteStage {
    if i < n {
        WriteStage::Insert(i as usize)
    } else {
        WriteStage::Done
    }
}

/// The next stage on an answer of the store. A refused insert ends a strict
/// load and is passed over otherwise; an answer that does not fit the stage
/// changes nothing.
pub open spec fn next_stage(s: WriteSession, ev: StoreEvent) -> WriteStage {
    let n = s.inserts@.len();
    match s.stage {
        WriteStage::CheckExisting => match ev {
            StoreEvent::TableExists(true) => WriteStage::Failed(LoadError::TableExists(s.table)),
            StoreEvent::TableExists(false) => WriteStage::Create,
            StoreEvent::ExecutionFailed(m) => WriteStage::Failed(LoadError::StoreIO(m)),
            StoreEvent::Executed => s.stage,
        },
        WriteStage::DropExisting => match ev {
            StoreEvent::Executed => WriteStage::Create,
            StoreEvent::ExecutionFailed(m) => WriteStage::Failed(LoadError::StoreIO(m)),
            StoreEvent::TableExists(_) => s.stage,
        },
        WriteStage::Create => match ev {
            StoreEvent::Executed => stage_from(0, n),
            StoreEvent::ExecutionFailed(m) => WriteStage::Failed(LoadError::StoreIO(m)),
            StoreEvent::TableExists(_) => s.stage,
        },
        WriteStage::Insert(i) => match ev {
            StoreEvent::Executed => stage_from((i + 1) as nat, n),
            StoreEvent::ExecutionFailed(m) => if s.strict {
                WriteStage::Failed(LoadError::StoreIO(m))
            } else {
                stage_from((i + 1) as nat, n)
            },
            StoreEvent::TableExists(_) => s.stage,
        },
        WriteStage::Done => s.stage,
        WriteStage::Failed(_) => s.stage,
    }
}

/// The failures after an answer: a refused insert of a load that is not
/// strict is recorded.
pub open spec fn next_failures(s: WriteSession, ev: StoreEvent) -> Seq<BatchFailure> {
    match (s.stage, ev) {
        (WriteStage::Insert(i), StoreEvent::ExecutionFailed(m)) => if !s.strict && i
            < s.batches@.len() {
            s.failures@.push(
                BatchFailure { batch: i, start: s.batches@[i as int].0, end: s.batches@[i as int].1, message: m },
            )
        } else {
            s.failures@
        },
        _ => s.failures@,
    }
}

/// The session after one answer.
pub open spec fn step(s: WriteSession, ev: StoreEvent) -> WriteSession {
    WriteSession { stage: next_stage(s, ev), ..s }
}

/// The stage after a sequence of answers.
pub open spec fn stage_after(s: WriteSession, evs: Seq<StoreEvent>) -> WriteStage
    decreases evs.len(),
{
    if evs.len() == 0 {
        s.stage
    } else {
        stage_after(step(s, evs[0]), evs.subrange(1, evs.len() as int))
    }
}

/// The request that stands for a stage.
pub open spec fn action_for(s: WriteSession, a: StoreAction) -> bool {
    match s.stage {
        WriteStage::CheckExisting => a matches StoreAction::CheckTableExists(t) && t@ == s.table@,
        WriteStage::DropExisting => a matches StoreAction::Execute(q) && q@ == drop_sql(s.table@),
        WriteStage::Create => a matches StoreAction::Execute(q) && q == s.create_sql,
        WriteStage::Insert(i) => a matches StoreAction::Execute(q) && q == s.inserts@[i as int],
        WriteStage::Done => a is Finished,
        WriteStage::Failed(e) => a == StoreAction::Abort(e),
    }
}

impl WriteSession {
    /// One insert per batch, and an insert stage names a batch.
    pub open spec fn wf(&self) -> bool {
        &&& self.inserts@.len() == self.batches@.len()
        &&& self.inserts@.len() <= usize::MAX
        &&& self.stage matches WriteStage::Insert(i) ==> i < self.inserts@.len()
    }

    /// The request for the store at this stage.
    pub fn next_action(&self) -> (r: StoreAction)
        requires
            self.wf(),
        ensures
            action_for(*self, r),
    {
        match &self.stage {
            WriteStage::CheckExisting => StoreAction::CheckTableExists(self.table.clone()),
            WriteStage::DropExisting => {
                let mut q = String::new();
                push_text(&mut q, "DROP TABLE IF EXISTS ");
                push_text(&mut q, self.table.as_str());
                assert(q@ =~= drop_sql(self.table@));
                StoreAction::Execute(q)
            },
            WriteStage::Create => StoreAction::Execute(self.create_sql.clone()),
            WriteStage::Insert(i) => StoreAction::Execute(self.inserts[*i].clone()),
            WriteStage::Done => StoreAction::Finished,
            WriteStage::Failed(e) => StoreAction::Abort(e.clone()),
        }
    }

    /// Takes the store's answer to the last request.
    pub fn on_event(&mut self, ev: StoreEvent)
        requires
            old(self).wf(),
        ensures
            final(self).wf(),
            final(self).stage == next_stage(*old(self), ev),
            final(self).failures@ == next_failures(*old(self), ev),
            final(self).table == old(self).table,
            final(self).strict == old(self).strict,
            final(self).create_sql == old(self).create_sql,
            final(self).inserts == old(self).inserts,
            final(self).batches == old(self).batches,
    {
        let ghost before = *self;
        let n = self.inserts.len();
        let next = match (&self.stage, ev) {
            (WriteStage::CheckExisting, StoreEvent::TableExists(exists)) => {
                if exists {
                    Some(WriteStage::Failed(LoadError::TableExists(self.table.clone())))
                } else {
                    Some(WriteStage::Create)
                }
            },
            (WriteStage::CheckExisting, StoreEvent::ExecutionFailed(m)) => Some(
                WriteStage::Failed(LoadError::StoreIO(m)),
            ),
            (WriteStage::DropExisting, StoreEvent::Executed) => Some(WriteStage::Create),
            (WriteStage::DropExisting, StoreEvent::ExecutionFailed(m)) => Some(
                WriteStage::Failed(LoadError::StoreIO(m)),
            ),
            (WriteStage::Create, StoreEvent::Executed) => {
                if 0 < n {
                    Some(WriteStage::Insert(0))
                } else {
                    Some(WriteStage::Done)
                }
            },
            (WriteStage::Create, StoreEvent::ExecutionFailed(m)) => Some(
                WriteStage::Failed(LoadError::StoreIO(m)),
            ),
            (WriteStage::Insert(i), StoreEvent::Executed) => {
                if *i + 1 < n {
                    Some(WriteStage::Insert(*i + 1))
                } else {
                    Some(WriteStage::Done)
                }
            },
            (WriteStage::Insert(i), StoreEvent::ExecutionFailed(m)) => {
                let i = *i;
                if self.strict {
                    Some(WriteStage::Failed(LoadError::StoreIO(m)))
                } else {
                    let (start, end) = self.batches[i];
                    self.failures.push(BatchFailure { batch: i, start, end, message: m });
                    if i + 1 < n {
                        Some(WriteStage::Insert(i + 1))
                    } else {
                        Some(WriteStage::Done)
                    }
                }
            },
            _ => None,
        };
        match next {
            Some(st) => {
                self.stage = st;
            },
            None => {},
        }
        assert(self.failures@ =~= next_failures(before, ev));
    }

    /// Whether the load has ended, done or failed.
    pub fn is_finished(&self) -> (r: bool)
        ensures
            r == (self.stage is Done || self.stage is Failed),
    {
        match self.stage {
            WriteStage::Done => true,
            WriteStage::Failed(_) => true,
            _ => false,
        }
    }
}

impl SqlWriter {
    #[verifier::type_invariant]
    spec fn inv(&self) -> bool {
        self.batch_size > 0
    }

    /// Defaults: no table name, `Fail`, an index column, batches of 1024
    /// rows, strict inserts.
    pub fn new() -> (r: Self)
        ensures
            r@ == (WriterConfig {
                table_name: None,
                if_exists: IfExistsOption::Fail,
                index: true,
                parallel: true,
                batch_size: 1024,
                index_label: None,
                schema: None,
                strict: true,
            }),
    {
        SqlWriter {
            table_name: None,
            if_exists: IfExistsOption::Fail,
            index: true,
            parallel: true,
            batch_size: 1024,
            index_label: None,
            schema: None,
            strict: true,
        }
    }

    pub fn with_table(self, table_name: Option<String>) -> (r: Self)
        ensures
            r@ == (WriterConfig { table_name: opt_text(table_name), ..self@ }),
    {
        proof {
            use_type_invariant(&self);
        }
        SqlWriter { table_name, ..self }
    }

    pub fn if_exists(self, if_exists: IfExistsOption) -> (r: Self)
        ensures
            r@ == (WriterConfig { if_exists, ..self@ }),
    {
        proof {
            use_type_invariant(&self);
        }
        SqlWriter { if_exists, ..self }
    }

    /// Turns the index column on (named `Id`) or off.
    pub fn with_index(self, index: bool) -> (r: Self)
        ensures
            r@ == (WriterConfig {
                index,
                index_label: if index {
                    Some("Id"@)
                } else {
                    self@.index_label
                },
                ..self@
            }),
    {
        proof {
            use_type_invariant(&self);
        }
        let index_label = if index {
            Some(String::from_str("Id"))
        } else {
            self.index_label
        };
        SqlWriter { index, index_label, ..self }
    }

    /// Explicit column options that override the inferred ones.
    pub fn with_schema(self, schema: Option<SqliteSchema>) -> (r: Self)
        ensures
            r@ == (WriterConfig {
                schema: match schema {
                    Some(s) => Some(s@),
                    None => None,
                },
                ..self@
            }),
    {
        proof {
            use_type_invariant(&self);
        }
        SqlWriter { schema, ..self }
    }

    /// Names the index column and turns indexing on.
    pub fn with_index_label(self, index_label: Option<String>) -> (r: Self)
        ensures
            r@ == (WriterConfig { index_label: opt_text(index_label), index: true, ..self@ }),
    {
        proof {
            use_type_invariant(&self);
        }
        SqlWriter { index_label, index: true, ..self }
    }

    pub fn with_batch_size(self, batch_size: usize) -> (r: Self)
        requires
            batch_size > 0,
        ensures
            r@ == (WriterConfig { batch_size: batch_size as nat, ..self@ }),
    {
        SqlWriter { batch_size, ..self }
    }

    pub fn with_parallel(self, parallel: bool) -> (r: Self)
        ensures
            r@ == (WriterConfig { parallel, ..self@ }),
    {
        proof {
            use_type_invariant(&self);
        }
        SqlWriter { parallel, ..self }
    }

    /// When off, a refused batch is recorded and the load goes on.
    pub fn with_strict_insert(self, strict: bool) -> (r: Self)
        ensures
            r@ == (WriterConfig { strict, ..self@ }),
    {
        proof {
            use_type_invariant(&self);
        }
        SqlWriter { strict, ..self }
    }

    /// Rows per batch; never zero.
    pub fn batch_size(&self) -> (r: usize)
        ensures
            r == self@.batch_size,
            r > 0,
    {
        proof {
            use_type_invariant(self);
        }
        self.batch_size
    }

    /// Plans the load of `df`: the table's schema and `CREATE` statement, the
    /// batches and their `INSERT`s, and the first stage under the policy.
    /// Fails, before anything runs, when the index column is named like a
    /// column of the data.
    pub fn finish(&self, df: &Frame) -> (r: Result<WriteSession, LoadError>)
        requires
            df.wf(),
        ensures
            r is Err <==> (index_column(self@) matches Some(l) && has_name(df.columns@, l)),
            r matches Err(e) ==> e matches LoadError::SchemaConflict(l) && index_column(self@)
                == Some(l@),
            r matches Ok(s) ==> {
                let n = df.rows@.len();
                let b = effective_batch(self@, n);
                &&& s.wf()
                &&& s.table@ == target_table(self@)
                &&& s.strict == self@.strict
                &&& s.create_sql@ == create_table_sql(target_table(self@), planned_schema(self@, *df))
                &&& s.batches@.len() == batch_count(n, b)
                &&& forall|i: int|
                    0 <= i < s.batches@.len() ==> (s.batches@[i].0 as nat, s.batches@[i].1 as nat)
                        == batch_range(n, b, i as nat) && s.inserts@[i]@ == insert_sql(
                        target_table(self@),
                        texts(df.columns@),
                        cells(df.rows@).subrange(s.batches@[i].0 as int, s.batches@[i].1 as int),
                    )
                &&& s.stage == initial_stage(self@.if_exists)
                &&& s.failures@.len() == 0
            },
    {
        proof {
            use_type_invariant(self);
        }
        let table: String = match &self.table_name {
            Some(t) => t.clone(),
            None => String::from_str("test"),
        };
        let fields = df.schema_fields();
        let mut schema = SqliteSchema::from_polars_schema(&fields);
        let label: Option<String> = if self.index {
            match &self.index_label {
                Some(l) => Some(l.clone()),
                None => Some(String::from_str("Id")),
            }
        } else {
            None
        };
        match label {
            Some(l) => {
                if df.column_index(l.as_str()).is_some() {
                    return Err(LoadError::SchemaConflict(l));
                }
                let opt = SqliteColOption::default().with_type_sql(
                    SqliteDataType::INTEGER,
                ).with_primary_key(true).with_auto_increment(true);
                schema = SqliteSchema::new(l.as_str(), opt).add_schema(&schema);
            },
            None => {},
        }
        let ghost base = schema@;
        match &self.schema {
            Some(explicit) => {
                let m = explicit.len();
                let mut j: usize = 0;
                while j < m
                    invariant
                        m == explicit@.len(),
                        j <= m,
                        schema@ == reconcile(base, explicit@.subrange(0, j as int)),
                    decreases m - j,
                {
                    proof {
                        let sub = explicit@.subrange(0, j + 1);
                        assert(sub.drop_last() =~= explicit@.subrange(0, j as int));
                    }
                    match explicit.get_field(j) {
                        Some((name, opt)) => {
                            if schema.position(name.as_str()).is_some() {
                                schema.with_column(name.as_str(), opt.clone());
                            }
                        },
                        None => {},
                    }
                    j = j + 1;
                }
                assert(explicit@.subrange(0, m as int) =~= explicit@);
            },
            None => {},
        }
        let create_sql = schema.finish(table.as_str());
        let n = df.rows.len();
        let b: usize = if n < self.batch_size {
            if n == 0 {
                1
            } else {
                n
            }
        } else {
            self.batch_size
        };
        let batches = partition_batches(n, b);
        let mut inserts: Vec<String> = Vec::new();
        let mut i: usize = 0;
        while i < batches.len()
            invariant
                i <= batches@.len(),
                inserts@.len() == i,
                b > 0,
                batches@.len() == batch_count(n as nat, b as nat),
                forall|k: int| 0 <= k < batches@.len() ==> #[trigger] batches@[k].0 <= batches@[k].1 <= n,
                forall|k: int|
                    0 <= k < batches@.len() ==> (batches@[k].0 as nat, batches@[k].1 as nat)
                        == batch_range(n as nat, b as nat, k as nat),
                n == df.rows@.len(),
                forall|k: int|
                    0 <= k < i ==> inserts@[k]@ == insert_sql(
                        table@,
                        texts(df.columns@),
                        cells(df.rows@).subrange(batches@[k].0 as int, batches@[k].1 as int),
                    ),
            decreases batches.len() - i,
        {
            let (start, end) = batches[i];
            proof {
                assert((batches@[i as int].0 as nat, batches@[i as int].1 as nat) == batch_range(
                    n as nat,
                    b as nat,
                    i as nat,
                ));
            }
            inserts.push(insert_statement(table.as_str(), &df.columns, &df.rows, start, end));
            i = i + 1;
        }
        let stage = match self.if_exists {
            IfExistsOption::Fail => WriteStage::CheckExisting,
            IfExistsOption::Replace => WriteStage::DropExisting,
            IfExistsOption::Append => WriteStage::Create,
        };
        Ok(
            WriteSession {
                table,
                strict: self.strict,
                create_sql,
                inserts,
                batches,
                stage,
                failures: Vec::new(),
            },
        )
    }
}

/// `n` answers that each report success.
pub open spec fn all_executed(n: nat) -> Seq<StoreEvent> {
    Seq::new(n, |i: int| StoreEvent::Executed)
}

proof fn lemma_failed_stays(s: WriteSession, evs: Seq<StoreEvent>)
    requires
        s.stage is Failed,
    ensures
        stage_after(s, evs) == s.stage,
    decreases evs.len(),
{
    if evs.len() > 0 {
        lemma_failed_stays(step(s, evs[0]), evs.subrange(1, evs.len() as int));
    }
}

/// Under `Fail`, a table that already exists ends the load at once: the
/// session fails with `TableExists`, stays failed whatever the store answers
/// afterwards, and so never requests a statement.
pub proof fn lemma_fail_policy_stops_before_any_statement(s: WriteSession, evs: Seq<StoreEvent>)
    requires
        s.stage == initial_stage(IfExistsOption::Fail),
    ensures
        stage_after(s, seq![StoreEvent::TableExists(true)] + evs) == WriteStage::Failed(
            LoadError::TableExists(s.table),
        ),
        forall|a: StoreAction|
            action_for(
                WriteSession { stage: stage_after(s, seq![StoreEvent::TableExists(true)] + evs), ..s },
                a,
            ) ==> a is Abort,
{
    let all = seq![StoreEvent::TableExists(true)] + evs;
    let s1 = step(s, all[0]);
    assert(all.subrange(1, all.len() as int) =~= evs);
    lemma_failed_stays(s1, evs);
}

proof fn lemma_inserts_run_in_order(s: WriteSession, i: nat, k: nat)
    requires
        s.inserts@.len() <= usize::MAX,
        s.stage == stage_from(i, s.inserts@.len()),
    ensures
        stage_after(s, all_executed(k)) == stage_from(i + k, s.inserts@.len()),
    decreases k,
{
    let n = s.inserts@.len();
    if k > 0 {
        let s1 = step(s, StoreEvent::Executed);
        assert(all_executed(k)[0] == StoreEvent::Executed);
        assert(all_executed(k).subrange(1, k as int) =~= all_executed((k - 1) as nat));
        if i < n {
            assert(s1.stage == stage_from(i + 1, n));
        } else {
            assert(s1.stage == stage_from(i + 1, n));
        }
        lemma_inserts_run_in_order(s1, i + 1, (k - 1) as nat);
    }
}

/// Under `Replace`, when the store runs every statement, the session first
/// drops the table, then creates it, then inserts each batch exactly once in
/// order, and then ends: the table holds exactly the rows of this load.
pub proof fn lemma_replace_loads_each_batch_once(s: WriteSession, k: nat)
    requires
        s.wf(),
        s.stage == initial_stage(IfExistsOption::Replace),
    ensures
        k == 0 ==> stage_after(s, all_executed(k)) == WriteStage::DropExisting,
        k == 1 ==> stage_after(s, all_executed(k)) == WriteStage::Create,
        k >= 2 ==> stage_after(s, all_executed(k)) == stage_from((k - 2) as nat, s.inserts@.len()),
        k >= 2 + s.inserts@.len() ==> stage_after(s, all_executed(k)) == WriteStage::Done,
{
    let n = s.inserts@.len();
    if k >= 1 {
        let s1 = step(s, StoreEvent::Executed);
        assert(all_executed(k)[0] == StoreEvent::Executed);
        assert(all_executed(k).subrange(1, k as int) =~= all_executed((k - 1) as nat));
        assert(stage_after(s, all_executed(k)) == stage_after(s1, all_executed((k - 1) as nat)));
        assert(s1.stage == WriteStage::Create);
        if k == 1 {
            assert(all_executed(0) =~= Seq::<StoreEvent>::empty());
            assert(stage_after(s1, all_executed(0)) == s1.stage);
        } else {
            let s2 = step(s1, StoreEvent::Executed);
            assert(all_executed((k - 1) as nat)[0] == StoreEvent::Executed);
            assert(all_executed((k - 1) as nat).subrange(1, k - 1) =~= all_executed((k - 2) as nat));
            assert(stage_after(s1, all_executed((k - 1) as nat)) == stage_after(
                s2,
                all_executed((k - 2) as nat),
            ));
            assert(s2.stage == stage_from(0, n));
            lemma_inserts_run_in_order(s2, 0, (k - 2) as nat);
        }
    } else {
        assert(all_executed(0) =~= Seq::<StoreEvent>::empty());
    }
}

} // verus!
