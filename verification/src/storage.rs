//! The frontend store: schemas holding tables holding rows of text
//! cells, with the typed constraints of [`crate::types`] enforced on
//! every insert.  The store is modelled as a sequence of schema
//! models; every operation's contract says exactly which model the
//! store moves to and which domain error comes back on which input.

use vstd::prelude::*;
use vstd::pervasive::unreached;
use crate::types::{
    ColumnDefinition, ColumnModel, ConstraintError, ConstraintErrorModel, spec_valid,
    spec_validate,
};
use crate::text::str_eq;

verus! {

/// An unexpected failure of the backing engine.  The in-memory store
/// never produces one; the variant keeps the two-level result shape
/// of the storage interface.
#[derive(Clone, Copy, PartialEq, Eq, Structural, Debug)]
pub struct SystemError;

/// Outer result of every storage operation: a system failure or the
/// operation's own verdict.
pub type SystemResult<T> = Result<T, SystemError>;

/// Refusal to create a schema that is already there.
#[derive(Clone, Copy, PartialEq, Eq, Structural, Debug)]
pub struct SchemaAlreadyExists;

/// Refusal to drop a schema that is not there.
#[derive(Clone, Copy, PartialEq, Eq, Structural, Debug)]
pub struct SchemaDoesNotExist;

/// Domain errors of the table-level operations.
#[derive(Clone, PartialEq, Debug)]
pub enum OperationOnTableError {
    SchemaDoesNotExist,
    TableAlreadyExists,
    TableDoesNotExist,
    /// The projection named columns the table does not have; carries
    /// every missing name, in projection order.
    ColumnDoesNotExist(Vec<String>),
    /// A row broke column constraints; carries each violation beside
    /// its column, left to right, and the index of the offending row.
    ConstraintViolations(Vec<(ConstraintError, ColumnDefinition)>, usize),
    /// The supplied expressions do not match the table's columns one
    /// for one.
    InsertTooManyExpressions,
}

/// Mathematical image of one table.
#[verifier::ext_equal]
pub struct TableModel {
    pub name: Seq<char>,
    pub columns: Seq<ColumnModel>,
    pub rows: Seq<Seq<Seq<char>>>,
}

/// Mathematical image of one schema.
#[verifier::ext_equal]
pub struct SchemaModel {
    pub name: Seq<char>,
    pub tables: Seq<TableModel>,
}

/// A named relation: ordered column definitions and an append-only
/// row collection.
pub struct Table {
    pub name: String,
    pub columns: Vec<ColumnDefinition>,
    pub rows: Vec<Vec<String>>,
}

/// A named namespace of tables.
pub struct Schema {
    pub name: String,
    pub tables: Vec<Table>,
}

/// One row as a sequence of text cells.
pub open spec fn row_model(r: Seq<String>) -> Seq<Seq<char>> {
    r.map_values(|s: String| s@)
}

/// All rows of a table as sequences of text cells.
pub open spec fn rows_model(rs: Seq<Vec<String>>) -> Seq<Seq<Seq<char>>> {
    rs.map_values(|r: Vec<String>| row_model(r@))
}

/// Column definitions as their models.
pub open spec fn cols_model(cs: Seq<ColumnDefinition>) -> Seq<ColumnModel> {
    cs.map_values(|c: ColumnDefinition| c@)
}

/// Projection names as character sequences.
pub open spec fn names_model(ns: Seq<String>) -> Seq<Seq<char>> {
    ns.map_values(|s: String| s@)
}

impl View for Table {
    type V = TableModel;

    open spec fn view(&self) -> TableModel {
        TableModel {
            name: self.name@,
            columns: cols_model(self.columns@),
            rows: rows_model(self.rows@),
        }
    }
}

impl View for Schema {
    type V = SchemaModel;

    open spec fn view(&self) -> SchemaModel {
        SchemaModel { name: self.name@, tables: self.tables@.map_values(|t: Table| t@) }
    }
}

/// The catalog and row store of one server process.
pub struct FrontendStorage {
    schemas: Vec<Schema>,
}

impl View for FrontendStorage {
    type V = Seq<SchemaModel>;

    closed spec fn view(&self) -> Seq<SchemaModel> {
        self.schemas@.map_values(|s: Schema| s@)
    }
}

/// Index of the first element from position `i` on that satisfies
/// `p`, or `-1` when none does.
pub open spec fn find_from<T>(s: Seq<T>, p: spec_fn(T) -> bool, i: int) -> int
    decreases s.len() - i,
{
    if i < 0 || i >= s.len() {
        -1
    } else if p(s[i]) {
        i
    } else {
        find_from(s, p, i + 1)
    }
}

/// What [`find_from`] returns: the first hit at or after `i`, with
/// everything before it a miss.
pub proof fn lemma_find_from<T>(s: Seq<T>, p: spec_fn(T) -> bool, i: int)
    requires
        0 <= i <= s.len(),
    ensures
        find_from(s, p, i) == -1 || i <= find_from(s, p, i) < s.len(),
        find_from(s, p, i) == -1 ==> forall|j: int| i <= j < s.len() ==> !p(s[j]),
        find_from(s, p, i) >= 0 ==> i <= find_from(s, p, i) < s.len() && p(s[find_from(s, p, i)])
            && forall|j: int| i <= j < find_from(s, p, i) ==> !p(s[j]),
    decreases s.len() - i,
{
    if i < s.len() {
        lemma_find_from(s, p, i + 1);
    }
}

/// Index of the schema of that name, or `-1`.
pub open spec fn find_schema(ss: Seq<SchemaModel>, name: Seq<char>) -> int {
    find_from(ss, |s: SchemaModel| s.name == name, 0)
}

/// The store holds a schema of that name.
pub open spec fn has_schema(ss: Seq<SchemaModel>, name: Seq<char>) -> bool {
    find_schema(ss, name) >= 0
}

/// Index of the table of that name, or `-1`.
pub open spec fn find_table(ts: Seq<TableModel>, name: Seq<char>) -> int {
    find_from(ts, |t: TableModel| t.name == name, 0)
}

/// Index of the column of that name, or `-1`.
pub open spec fn find_column(cs: Seq<ColumnModel>, name: Seq<char>) -> int {
    find_from(cs, |c: ColumnModel| c.name == name, 0)
}

/// The projection names the table does not have, from position `i`
/// on, in projection order.
pub open spec fn missing_from(
    cols: Seq<ColumnModel>,
    names: Seq<Seq<char>>,
    i: int,
) -> Seq<Seq<char>>
    decreases names.len() - i,
{
    if i < 0 || i >= names.len() {
        Seq::empty()
    } else {
        let rest = missing_from(cols, names, i + 1);
        if find_column(cols, names[i]) == -1 {
            seq![names[i]].add(rest)
        } else {
            rest
        }
    }
}

/// A projection with nothing missing resolves every name.
pub proof fn lemma_missing_none(cols: Seq<ColumnModel>, names: Seq<Seq<char>>, i: int)
    requires
        0 <= i <= names.len(),
        missing_from(cols, names, i).len() == 0,
    ensures
        forall|j: int| i <= j < names.len() ==> find_column(cols, #[trigger] names[j]) >= 0,
    decreases names.len() - i,
{
    if i < names.len() {
        if find_column(cols, names[i]) == -1 {
            assert(missing_from(cols, names, i) =~= seq![names[i]].add(
                missing_from(cols, names, i + 1),
            ));
            assert(missing_from(cols, names, i).len() >= 1);
        }
        assert(missing_from(cols, names, i + 1).len() == 0);
        lemma_missing_none(cols, names, i + 1);
        lemma_find_from(cols, |c: ColumnModel| c.name == names[i], 0);
        assert(find_column(cols, names[i]) >= 0);
    }
}

/// One row of a SELECT result: the row's cells picked out by the
/// projection, in projection order.
pub open spec fn project_row(
    cols: Seq<ColumnModel>,
    names: Seq<Seq<char>>,
    row: Seq<Seq<char>>,
) -> Seq<Seq<char>> {
    Seq::new(names.len(), |i: int| row[find_column(cols, names[i])])
}

/// All rows of a SELECT result, in stored (that is, insertion) order.
pub open spec fn project_rows(
    cols: Seq<ColumnModel>,
    names: Seq<Seq<char>>,
    rows: Seq<Seq<Seq<char>>>,
) -> Seq<Seq<Seq<char>>> {
    rows.map_values(|row: Seq<Seq<char>>| project_row(cols, names, row))
}

/// The column definitions a SELECT reply describes: one per
/// projection name, in projection order, duplicates kept.
pub open spec fn project_cols(cols: Seq<ColumnModel>, names: Seq<Seq<char>>) -> Seq<ColumnModel> {
    Seq::new(names.len(), |i: int| cols[find_column(cols, names[i])])
}


/// The projection an INSERT works through: the given column names,
/// or every column in declaration order when none were given.
pub open spec fn effective_names(cols: Seq<ColumnModel>, names: Seq<Seq<char>>) -> Seq<
    Seq<char>,
> {
    if names.len() == 0 {
        cols.map_values(|c: ColumnModel| c.name)
    } else {
        names
    }
}

/// First position at or after `i` where the projection holds that
/// name, or `-1`.
pub open spec fn source_from(names: Seq<Seq<char>>, colname: Seq<char>, i: int) -> int
    decreases names.len() - i,
{
    if i < 0 || i >= names.len() {
        -1
    } else if names[i] == colname {
        i
    } else {
        source_from(names, colname, i + 1)
    }
}

/// Position in the projection that feeds a column of that name, or
/// `-1` when the projection leaves the column out.
pub open spec fn source_of(names: Seq<Seq<char>>, colname: Seq<char>) -> int {
    source_from(names, colname, 0)
}

/// What [`source_of`] returns: the first position holding the name,
/// with everything before it a different name.
pub proof fn lemma_source_from(names: Seq<Seq<char>>, colname: Seq<char>, i: int)
    requires
        0 <= i <= names.len(),
    ensures
        source_from(names, colname, i) == -1 || i <= source_from(names, colname, i)
            < names.len(),
        source_from(names, colname, i) == -1 ==> forall|j: int|
            i <= j < names.len() ==> names[j] != colname,
        source_from(names, colname, i) >= 0 ==> names[source_from(names, colname, i)] == colname
            && forall|j: int| i <= j < source_from(names, colname, i) ==> names[j] != colname,
    decreases names.len() - i,
{
    if i < names.len() {
        lemma_source_from(names, colname, i + 1);
    }
}

/// Every column of the table is fed by the projection.
pub open spec fn covers(cols: Seq<ColumnModel>, names: Seq<Seq<char>>) -> bool {
    forall|j: int| 0 <= j < cols.len() ==> source_of(names, #[trigger] cols[j].name) >= 0
}

/// The row as stored: the supplied cells rearranged into declaration
/// order.
pub open spec fn stored_row(
    cols: Seq<ColumnModel>,
    names: Seq<Seq<char>>,
    row: Seq<Seq<char>>,
) -> Seq<Seq<char>> {
    Seq::new(cols.len(), |j: int| row[source_of(names, cols[j].name)])
}

/// All supplied rows as stored, in the order they were supplied.
pub open spec fn stored_rows(
    cols: Seq<ColumnModel>,
    names: Seq<Seq<char>>,
    rows: Seq<Seq<Seq<char>>>,
) -> Seq<Seq<Seq<char>>> {
    rows.map_values(|row: Seq<Seq<char>>| stored_row(cols, names, row))
}

/// Constraint verdicts over one supplied row from cell `i` on, left
/// to right: each refused cell beside the column that refused it.
pub open spec fn row_violations(
    cols: Seq<ColumnModel>,
    names: Seq<Seq<char>>,
    row: Seq<Seq<char>>,
    i: int,
) -> Seq<(ConstraintErrorModel, ColumnModel)>
    decreases row.len() - i,
{
    if i < 0 || i >= row.len() {
        Seq::empty()
    } else {
        let c = cols[find_column(cols, names[i])];
        let rest = row_violations(cols, names, row, i + 1);
        match spec_validate(c.sql_type, row[i]) {
            Result::Ok(()) => rest,
            Result::Err(e) => seq![(e, c)].add(rest),
        }
    }
}

/// A row without violations has every cell accepted by its column.
pub proof fn lemma_no_violations(
    cols: Seq<ColumnModel>,
    names: Seq<Seq<char>>,
    row: Seq<Seq<char>>,
    i: int,
)
    requires
        0 <= i <= row.len(),
        row_violations(cols, names, row, i).len() == 0,
    ensures
        forall|j: int|
            i <= j < row.len() ==> spec_valid(
                cols[find_column(cols, #[trigger] names[j])].sql_type,
                row[j],
            ),
    decreases row.len() - i,
{
    if i < row.len() {
        let c = cols[find_column(cols, names[i])];
        match spec_validate(c.sql_type, row[i]) {
            Result::Ok(()) => {
                lemma_no_violations(cols, names, row, i + 1);
            },
            Result::Err(e) => {
                assert(row_violations(cols, names, row, i) =~= seq![(e, c)].add(
                    row_violations(cols, names, row, i + 1),
                ));
                assert(false);
            },
        }
    }
}

/// What an INSERT does: the exact refusal, or the rows as they will
/// be stored.
pub enum InsertOutcome {
    SchemaMissing,
    TableMissing,
    ColumnsMissing(Seq<Seq<char>>),
    ShapeMismatch,
    Violations(Seq<(ConstraintErrorModel, ColumnModel)>, int),
    Success(Seq<Seq<Seq<char>>>),
}

/// Scan the supplied rows in order from row `r` on: the first row of
/// the wrong width or with violations decides the outcome.
pub open spec fn scan_rows(
    cols: Seq<ColumnModel>,
    names: Seq<Seq<char>>,
    rows: Seq<Seq<Seq<char>>>,
    r: int,
) -> InsertOutcome
    decreases rows.len() - r,
{
    if r < 0 || r >= rows.len() {
        InsertOutcome::Success(stored_rows(cols, names, rows))
    } else if rows[r].len() != names.len() {
        InsertOutcome::ShapeMismatch
    } else {
        let v = row_violations(cols, names, rows[r], 0);
        if v.len() > 0 {
            InsertOutcome::Violations(v, r)
        } else {
            scan_rows(cols, names, rows, r + 1)
        }
    }
}

/// Scanning rows never reports a name-resolution failure: those are
/// decided before the scan.
pub proof fn lemma_scan_rows_shape_kinds(
    cols: Seq<ColumnModel>,
    names: Seq<Seq<char>>,
    rows: Seq<Seq<Seq<char>>>,
    r: int,
)
    ensures
        !(scan_rows(cols, names, rows, r) is ColumnsMissing),
        !(scan_rows(cols, names, rows, r) is SchemaMissing),
        !(scan_rows(cols, names, rows, r) is TableMissing),
    decreases rows.len() - r,
{
    if 0 <= r < rows.len() {
        lemma_scan_rows_shape_kinds(cols, names, rows, r + 1);
    }
}

/// A violations verdict always carries at least one violation.
pub proof fn lemma_scan_rows_step_violations(
    cols: Seq<ColumnModel>,
    names: Seq<Seq<char>>,
    rows: Seq<Seq<Seq<char>>>,
    r: int,
)
    ensures
        scan_rows(cols, names, rows, r) matches InsertOutcome::Violations(vs, idx) ==> vs.len()
            > 0,
    decreases rows.len() - r,
{
    if 0 <= r < rows.len() {
        lemma_scan_rows_step_violations(cols, names, rows, r + 1);
    }
}

/// An insert refused for constraint violations carries at least one.
pub proof fn lemma_scan_rows_violations(
    ss: Seq<SchemaModel>,
    schema: Seq<char>,
    table: Seq<char>,
    names: Seq<Seq<char>>,
    rows: Seq<Seq<Seq<char>>>,
)
    ensures
        insert_outcome(ss, schema, table, names, rows) matches InsertOutcome::Violations(
            vs,
            idx,
        ) ==> vs.len() > 0,
{
    lemma_find_from(ss, |s: SchemaModel| s.name == schema, 0);
    let si = find_schema(ss, schema);
    if si >= 0 {
        lemma_find_from(ss[si].tables, |t: TableModel| t.name == table, 0);
        let ti = find_table(ss[si].tables, table);
        if ti >= 0 {
            let cols = ss[si].tables[ti].columns;
            let eff = effective_names(cols, names);
            lemma_scan_rows_step_violations(cols, eff, rows, 0);
        }
    }
}

/// Verdict of [`FrontendStorage::insert_into`] on the store's model
/// and the supplied projection and rows.
pub open spec fn insert_outcome(
    ss: Seq<SchemaModel>,
    schema: Seq<char>,
    table: Seq<char>,
    names: Seq<Seq<char>>,
    rows: Seq<Seq<Seq<char>>>,
) -> InsertOutcome {
    let si = find_schema(ss, schema);
    if si == -1 {
        InsertOutcome::SchemaMissing
    } else {
        let ti = find_table(ss[si].tables, table);
        if ti == -1 {
            InsertOutcome::TableMissing
        } else {
            let cols = ss[si].tables[ti].columns;
            let eff = effective_names(cols, names);
            let miss = missing_from(cols, eff, 0);
            if miss.len() > 0 {
                InsertOutcome::ColumnsMissing(miss)
            } else if eff.len() != cols.len() || !covers(cols, eff) {
                InsertOutcome::ShapeMismatch
            } else {
                scan_rows(cols, eff, rows, 0)
            }
        }
    }
}

/// A row fits its table: one cell per column, each accepted by its
/// column's type.
pub open spec fn wf_row(cols: Seq<ColumnModel>, row: Seq<Seq<char>>) -> bool {
    &&& row.len() == cols.len()
    &&& forall|i: int| 0 <= i < row.len() ==> spec_valid(cols[i].sql_type, row[i])
}

/// Column names unique, every row fitting the columns.
pub open spec fn wf_table(t: TableModel) -> bool {
    &&& forall|i: int, j: int|
        0 <= i < j < t.columns.len() ==> t.columns[i].name != t.columns[j].name
    &&& forall|r: int| 0 <= r < t.rows.len() ==> wf_row(t.columns, #[trigger] t.rows[r])
}

/// Table names unique within the schema, every table well formed.
pub open spec fn wf_schema(s: SchemaModel) -> bool {
    &&& forall|i: int, j: int| 0 <= i < j < s.tables.len() ==> s.tables[i].name != s.tables[j].name
    &&& forall|t: int| 0 <= t < s.tables.len() ==> wf_table(#[trigger] s.tables[t])
}

/// Schema names unique process-wide, every schema well formed.
pub open spec fn wf_schemas(ss: Seq<SchemaModel>) -> bool {
    &&& forall|i: int, j: int| 0 <= i < j < ss.len() ==> ss[i].name != ss[j].name
    &&& forall|s: int| 0 <= s < ss.len() ==> wf_schema(#[trigger] ss[s])
}

fn find_schema_index(schemas: &Vec<Schema>, name: &str) -> (r: Option<usize>)
    ensures
        r matches Some(i) ==> i < schemas@.len() && find_schema(
            schemas@.map_values(|s: Schema| s@),
            name@,
        ) == i,
        r is None ==> find_schema(schemas@.map_values(|s: Schema| s@), name@) == -1,
{
    let ghost model = schemas@.map_values(|s: Schema| s@);
    let ghost p = |s: SchemaModel| s.name == name@;
    let mut i: usize = 0;
    while i < schemas.len()
        invariant
            0 <= i <= schemas@.len(),
            model == schemas@.map_values(|s: Schema| s@),
            p == (|s: SchemaModel| s.name == name@),
            find_from(model, p, 0) == find_from(model, p, i as int),
        decreases schemas@.len() - i,
    {
        if str_eq(schemas[i].name.as_str(), name) {
            proof {
                assert(p(model[i as int]));
            }
            return Some(i);
        }
        proof {
            assert(!p(model[i as int]));
            assert(find_from(model, p, i as int) == find_from(model, p, i + 1));
        }
        i = i + 1;
    }
    proof {
        assert(find_from(model, p, i as int) == -1);
    }
    None
}

fn find_table_index(tables: &Vec<Table>, name: &str) -> (r: Option<usize>)
    ensures
        r matches Some(i) ==> i < tables@.len() && find_table(
            tables@.map_values(|t: Table| t@),
            name@,
        ) == i,
        r is None ==> find_table(tables@.map_values(|t: Table| t@), name@) == -1,
{
    let ghost model = tables@.map_values(|t: Table| t@);
    let ghost p = |t: TableModel| t.name == name@;
    let mut i: usize = 0;
    while i < tables.len()
        invariant
            0 <= i <= tables@.len(),
            model == tables@.map_values(|t: Table| t@),
            p == (|t: TableModel| t.name == name@),
            find_from(model, p, 0) == find_from(model, p, i as int),
        decreases tables@.len() - i,
    {
        if str_eq(tables[i].name.as_str(), name) {
            proof {
                assert(p(model[i as int]));
            }
            return Some(i);
        }
        proof {
            assert(!p(model[i as int]));
            assert(find_from(model, p, i as int) == find_from(model, p, i + 1));
        }
        i = i + 1;
    }
    proof {
        assert(find_from(model, p, i as int) == -1);
    }
    None
}

fn find_column_index(columns: &Vec<ColumnDefinition>, name: &str) -> (r: Option<usize>)
    ensures
        r matches Some(i) ==> i < columns@.len() && find_column(cols_model(columns@), name@) == i,
        r is None ==> find_column(cols_model(columns@), name@) == -1,
{
    let ghost model = cols_model(columns@);
    let ghost p = |c: ColumnModel| c.name == name@;
    let mut i: usize = 0;
    while i < columns.len()
        invariant
            0 <= i <= columns@.len(),
            model == cols_model(columns@),
            p == (|c: ColumnModel| c.name == name@),
            find_from(model, p, 0) == find_from(model, p, i as int),
        decreases columns@.len() - i,
    {
        if str_eq(columns[i].name.as_str(), name) {
            proof {
                assert(p(model[i as int]));
            }
            return Some(i);
        }
        proof {
            assert(!p(model[i as int]));
            assert(find_from(model, p, i as int) == find_from(model, p, i + 1));
        }
        i = i + 1;
    }
    proof {
        assert(find_from(model, p, i as int) == -1);
    }
    None
}


fn find_name_index(names: &Vec<String>, target: &str) -> (r: Option<usize>)
    ensures
        r matches Some(i) ==> i < names@.len() && source_of(names_model(names@), target@) == i,
        r is None ==> source_of(names_model(names@), target@) == -1,
{
    let ghost model = names_model(names@);
    let mut i: usize = 0;
    while i < names.len()
        invariant
            0 <= i <= names@.len(),
            model == names_model(names@),
            source_from(model, target@, 0) == source_from(model, target@, i as int),
        decreases names@.len() - i,
    {
        if str_eq(names[i].as_str(), target) {
            proof {
                assert(model[i as int] == target@);
            }
            return Some(i);
        }
        proof {
            assert(model[i as int] != target@);
            assert(source_from(model, target@, i as int) == source_from(
                model,
                target@,
                i + 1,
            ));
        }
        i = i + 1;
    }
    proof {
        assert(source_from(model, target@, i as int) == -1);
    }
    None
}

/// A column found by [`find_column`] carries the name it was sought
/// under, and within a table of unique column names each column is
/// found under its own name at its own index.
pub proof fn lemma_find_column_unique(cols: Seq<ColumnModel>, j: int)
    requires
        forall|a: int, b: int| 0 <= a < b < cols.len() ==> cols[a].name != cols[b].name,
        0 <= j < cols.len(),
    ensures
        find_column(cols, cols[j].name) == j,
{
    let p = |c: ColumnModel| c.name == cols[j].name;
    lemma_find_from(cols, p, 0);
    assert(p(cols[j]));
    let r = find_from(cols, p, 0);
    assert(r >= 0);
    if r != j {
        assert(cols[r].name == cols[j].name);
    }
}


impl FrontendStorage {
    /// The store is well formed: unique names at every level, every
    /// stored row accepted by its table's columns.
    pub open spec fn wf(&self) -> bool {
        wf_schemas(self@)
    }

    /// A fresh store with no schemas.
    pub fn new() -> (r: Self)
        ensures
            r@ =~= Seq::<SchemaModel>::empty(),
            r.wf(),
    {
        FrontendStorage { schemas: Vec::new() }
    }

    /// A fresh store, in the two-level result shape of the storage
    /// interface.
    pub fn default() -> (r: SystemResult<Self>)
        ensures
            r matches Ok(s) && s@ =~= Seq::<SchemaModel>::empty() && s.wf(),
    {
        Ok(FrontendStorage::new())
    }

    /// Create a schema.  Succeeds exactly when no schema of that name
    /// is there yet; then the store gains an empty schema of that
    /// name and nothing else changes.
    pub fn create_schema(&mut self, schema_name: &str) -> (r: SystemResult<
        Result<(), SchemaAlreadyExists>,
    >)
        requires
            old(self).wf(),
        ensures
            final(self).wf(),
            r matches Ok(inner) ==> {
                &&& (inner is Ok <==> !has_schema(old(self)@, schema_name@))
                &&& (inner is Ok ==> final(self)@ =~= old(self)@.push(
                    SchemaModel { name: schema_name@, tables: Seq::empty() },
                ))
                &&& (inner is Err ==> final(self)@ == old(self)@)
            },
            r is Ok,
    {
        match find_schema_index(&self.schemas, schema_name) {
            Some(_) => Ok(Err(SchemaAlreadyExists)),
            None => {
                proof {
                    lemma_find_from(old(self)@, |s: SchemaModel| s.name == schema_name@, 0);
                }
                self.schemas.push(
                    Schema { name: schema_name.to_owned(), tables: Vec::new() },
                );
                proof {
                    let ns = self@;
                    assert(ns =~~= old(self)@.push(
                        SchemaModel { name: schema_name@, tables: Seq::empty() },
                    ));
                    assert forall|i: int, j: int| 0 <= i < j < ns.len() implies ns[i].name
                        != ns[j].name by {
                        if j == ns.len() - 1 {
                            lemma_find_from(
                                old(self)@,
                                |s: SchemaModel| s.name == schema_name@,
                                0,
                            );
                        }
                    }
                    assert(self.wf());
                }
                Ok(Ok(()))
            },
        }
    }

    /// Create a table under a schema.  Succeeds exactly when the
    /// schema is there and no table of that name is in it yet; then
    /// the schema gains an empty table with the given columns and
    /// nothing else changes.
    pub fn create_table(
        &mut self,
        schema_name: &str,
        table_name: &str,
        column_definitions: &[ColumnDefinition],
    ) -> (r: SystemResult<Result<(), OperationOnTableError>>)
        requires
            old(self).wf(),
            forall|i: int, j: int|
                0 <= i < j < column_definitions@.len() ==> column_definitions@[i].name@
                    != column_definitions@[j].name@,
        ensures
            final(self).wf(),
            r is Ok,
            r matches Ok(inner) ==> {
                let si = find_schema(old(self)@, schema_name@);
                &&& (inner matches Err(OperationOnTableError::SchemaDoesNotExist) <==> si == -1)
                &&& (inner matches Err(OperationOnTableError::TableAlreadyExists) <==> si >= 0
                    && find_table(old(self)@[si].tables, table_name@) >= 0)
                &&& (inner is Ok <==> si >= 0 && find_table(old(self)@[si].tables, table_name@)
                    == -1)
                &&& (inner is Ok ==> final(self)@ =~~= old(self)@.update(
                    si,
                    SchemaModel {
                        name: old(self)@[si].name,
                        tables: old(self)@[si].tables.push(
                            TableModel {
                                name: table_name@,
                                columns: cols_model(column_definitions@),
                                rows: Seq::empty(),
                            },
                        ),
                    },
                ))
                &&& (inner is Err ==> final(self)@ == old(self)@)
            },
    {
        let si = match find_schema_index(&self.schemas, schema_name) {
            None => {
                return Ok(Err(OperationOnTableError::SchemaDoesNotExist));
            },
            Some(si) => si,
        };
        if let Some(_) = find_table_index(&self.schemas[si].tables, table_name) {
            return Ok(Err(OperationOnTableError::TableAlreadyExists));
        }
        let mut columns: Vec<ColumnDefinition> = Vec::new();
        let mut k: usize = 0;
        while k < column_definitions.len()
            invariant
                0 <= k <= column_definitions@.len(),
                columns@.len() == k as int,
                cols_model(columns@) =~= cols_model(column_definitions@.take(k as int)),
            decreases column_definitions@.len() - k,
        {
            let c = &column_definitions[k];
            let copied = ColumnDefinition { name: c.name.clone(), sql_type: c.sql_type };
            proof {
                assert(copied@ == column_definitions@[k as int]@);
            }
            let ghost pre = columns@;
            columns.push(copied);
            proof {
                assert(pre.len() == k as int);
                assert forall|i: int| 0 <= i < columns@.len() implies cols_model(columns@)[i]
                    == cols_model(column_definitions@.take(k as int + 1))[i] by {
                    if i < k as int {
                        assert(cols_model(pre)[i] == cols_model(
                            column_definitions@.take(k as int),
                        )[i]);
                        assert(columns@[i] == pre[i]);
                    } else {
                        assert(columns@[i] == copied);
                    }
                }
                assert(cols_model(columns@) =~= cols_model(
                    column_definitions@.take(k as int + 1),
                ));
            }
            k = k + 1;
        }
        proof {
            assert(column_definitions@.take(column_definitions@.len() as int)
                =~= column_definitions@);
        }
        let schema = &mut self.schemas[si];
        schema.tables.push(Table { name: table_name.to_owned(), columns, rows: Vec::new() });
        proof {
            let ns = self@;
            let os = old(self)@;
            let tm = TableModel {
                name: table_name@,
                columns: cols_model(column_definitions@),
                rows: Seq::empty(),
            };
            assert(ns =~~= os.update(
                si as int,
                SchemaModel { name: os[si as int].name, tables: os[si as int].tables.push(tm) },
            ));
            assert(wf_table(tm));
            lemma_find_from(os[si as int].tables, |t: TableModel| t.name == table_name@, 0);
            assert(wf_schema(ns[si as int]));
            assert(self.wf());
        }
        Ok(Ok(()))
    }

    /// Drop a table.  Succeeds exactly when the schema is there and
    /// holds a table of that name; then the table is removed, rows
    /// and all, and nothing else changes.
    pub fn drop_table(&mut self, schema_name: &str, table_name: &str) -> (r: SystemResult<
        Result<(), OperationOnTableError>,
    >)
        requires
            old(self).wf(),
        ensures
            final(self).wf(),
            r is Ok,
            r matches Ok(inner) ==> {
                let si = find_schema(old(self)@, schema_name@);
                &&& (inner matches Err(OperationOnTableError::SchemaDoesNotExist) <==> si == -1)
                &&& (inner matches Err(OperationOnTableError::TableDoesNotExist) <==> si >= 0
                    && find_table(old(self)@[si].tables, table_name@) == -1)
                &&& (inner is Ok <==> si >= 0 && find_table(old(self)@[si].tables, table_name@)
                    >= 0)
                &&& (inner is Ok ==> final(self)@ =~~= old(self)@.update(
                    si,
                    SchemaModel {
                        name: old(self)@[si].name,
                        tables: old(self)@[si].tables.remove(
                            find_table(old(self)@[si].tables, table_name@),
                        ),
                    },
                ))
                &&& (inner is Err ==> final(self)@ == old(self)@)
            },
    {
        let si = match find_schema_index(&self.schemas, schema_name) {
            None => {
                return Ok(Err(OperationOnTableError::SchemaDoesNotExist));
            },
            Some(si) => si,
        };
        let ti = match find_table_index(&self.schemas[si].tables, table_name) {
            None => {
                return Ok(Err(OperationOnTableError::TableDoesNotExist));
            },
            Some(ti) => ti,
        };
        let schema = &mut self.schemas[si];
        schema.tables.remove(ti);
        proof {
            let ns = self@;
            let os = old(self)@;
            assert(ns =~~= os.update(
                si as int,
                SchemaModel {
                    name: os[si as int].name,
                    tables: os[si as int].tables.remove(ti as int),
                },
            ));
            assert(forall|k: int|
                0 <= k < ns[si as int].tables.len() ==> #[trigger] ns[si as int].tables[k] == if k
                    < ti {
                    os[si as int].tables[k]
                } else {
                    os[si as int].tables[k + 1]
                });
            assert(wf_schema(ns[si as int]));
            assert(self.wf());
        }
        Ok(Ok(()))
    }

    /// The column definitions of a table, in declaration order; an
    /// empty list when the schema or table is not there.
    pub fn table_columns(&self, schema_name: &str, table_name: &str) -> (r: SystemResult<
        Vec<ColumnDefinition>,
    >)
        ensures
            r matches Ok(cols) ==> {
                let si = find_schema(self@, schema_name@);
                if si >= 0 && find_table(self@[si].tables, table_name@) >= 0 {
                    cols_model(cols@) =~= self@[si].tables[find_table(
                        self@[si].tables,
                        table_name@,
                    )].columns
                } else {
                    cols@.len() == 0
                }
            },
            r is Ok,
    {
        let si = match find_schema_index(&self.schemas, schema_name) {
            None => {
                return Ok(Vec::new());
            },
            Some(si) => si,
        };
        let ti = match find_table_index(&self.schemas[si].tables, table_name) {
            None => {
                return Ok(Vec::new());
            },
            Some(ti) => ti,
        };
        let src = &self.schemas[si].tables[ti].columns;
        let mut columns: Vec<ColumnDefinition> = Vec::new();
        let mut k: usize = 0;
        while k < src.len()
            invariant
                0 <= k <= src@.len(),
                columns@.len() == k as int,
                cols_model(columns@) =~= cols_model(src@.take(k as int)),
            decreases src@.len() - k,
        {
            let c = &src[k];
            let copied = ColumnDefinition { name: c.name.clone(), sql_type: c.sql_type };
            proof {
                assert(copied@ == src@[k as int]@);
            }
            let ghost pre = columns@;
            columns.push(copied);
            proof {
                assert(pre.len() == k as int);
                assert forall|i: int| 0 <= i < columns@.len() implies cols_model(columns@)[i]
                    == cols_model(src@.take(k as int + 1))[i] by {
                    if i < k as int {
                        assert(cols_model(pre)[i] == cols_model(src@.take(k as int))[i]);
                        assert(columns@[i] == pre[i]);
                    } else {
                        assert(columns@[i] == copied);
                    }
                }
                assert(cols_model(columns@) =~= cols_model(src@.take(k as int + 1)));
            }
            k = k + 1;
        }
        proof {
            assert(src@.take(src@.len() as int) =~= src@);
        }
        Ok(columns)
    }

    /// Drop a schema.  Succeeds exactly when a schema of that name is
    /// there; then it is removed, tables and all, and nothing else
    /// changes.
    pub fn drop_schema(&mut self, schema_name: &str) -> (r: SystemResult<
        Result<(), SchemaDoesNotExist>,
    >)
        requires
            old(self).wf(),
        ensures
            final(self).wf(),
            r matches Ok(inner) ==> {
                &&& (inner is Ok <==> has_schema(old(self)@, schema_name@))
                &&& (inner is Ok ==> final(self)@ =~= old(self)@.remove(
                    find_schema(old(self)@, schema_name@),
                ))
                &&& (inner is Err ==> final(self)@ == old(self)@)
            },
            r is Ok,
    {
        match find_schema_index(&self.schemas, schema_name) {
            None => Ok(Err(SchemaDoesNotExist)),
            Some(i) => {
                self.schemas.remove(i);
                proof {
                    let ns = self@;
                    assert(ns =~= old(self)@.remove(i as int));
                    assert(forall|k: int|
                        0 <= k < ns.len() ==> #[trigger] ns[k] == if k < i {
                            old(self)@[k]
                        } else {
                            old(self)@[k + 1]
                        });
                    assert(self.wf());
                }
                Ok(Ok(()))
            },
        }
    }
}


impl FrontendStorage {
    /// Read a table through a projection.  The reply's columns are
    /// exactly the projection, name for name in order, duplicates
    /// kept; the rows come in insertion order, each projected the
    /// same way; and every returned cell is valid for its column's
    /// declared type.  An empty projection yields zero columns and
    /// one empty row per stored row.
    pub fn select_all_from(
        &self,
        schema_name: &str,
        table_name: &str,
        columns: Vec<String>,
    ) -> (r: SystemResult<
        Result<(Vec<ColumnDefinition>, Vec<Vec<String>>), OperationOnTableError>,
    >)
        requires
            self.wf(),
        ensures
            r is Ok,
            r matches Ok(inner) ==> {
                let si = find_schema(self@, schema_name@);
                let names = names_model(columns@);
                &&& (inner matches Err(OperationOnTableError::SchemaDoesNotExist) <==> si == -1)
                &&& (inner matches Err(OperationOnTableError::TableDoesNotExist) <==> si >= 0
                    && find_table(self@[si].tables, table_name@) == -1)
                &&& (si >= 0 && find_table(self@[si].tables, table_name@) >= 0 ==> {
                    let t = self@[si].tables[find_table(self@[si].tables, table_name@)];
                    let miss = missing_from(t.columns, names, 0);
                    &&& (inner matches Err(OperationOnTableError::ColumnDoesNotExist(m)) <==>
                        miss.len() > 0)
                    &&& (inner matches Err(OperationOnTableError::ColumnDoesNotExist(m)) ==>
                        names_model(m@) =~= miss)
                    &&& (inner is Ok <==> miss.len() == 0)
                    &&& (inner matches Ok(sel) ==> {
                        let (defs, rows) = sel;
                        &&& cols_model(defs@) =~= project_cols(t.columns, names)
                        &&& defs@.len() == names.len()
                        &&& (forall|i: int|
                            0 <= i < names.len() ==> #[trigger] cols_model(defs@)[i].name
                                == names[i])
                        &&& rows_model(rows@) =~= project_rows(t.columns, names, t.rows)
                        &&& rows@.len() == t.rows.len()
                        &&& (forall|k: int, i: int|
                            0 <= k < rows@.len() && 0 <= i < names.len() ==> spec_valid(
                                cols_model(defs@)[i].sql_type,
                                #[trigger] rows_model(rows@)[k][i],
                            ))
                    })
                })
            },
    {
        let si = match find_schema_index(&self.schemas, schema_name) {
            None => {
                return Ok(Err(OperationOnTableError::SchemaDoesNotExist));
            },
            Some(si) => si,
        };
        let ti = match find_table_index(&self.schemas[si].tables, table_name) {
            None => {
                return Ok(Err(OperationOnTableError::TableDoesNotExist));
            },
            Some(ti) => ti,
        };
        let table = &self.schemas[si].tables[ti];
        let ghost t = self@[si as int].tables[ti as int];
        let ghost names = names_model(columns@);
        proof {
            assert(t == table@);
        }

        // first pass over the projection: collect the missing names
        let mut missing: Vec<String> = Vec::new();
        let mut i: usize = 0;
        while i < columns.len()
            invariant
                0 <= i <= columns@.len(),
                t == table@,
                t.columns == cols_model(table.columns@),
                names == names_model(columns@),
                missing_from(t.columns, names, 0) =~= names_model(missing@).add(
                    missing_from(t.columns, names, i as int),
                ),
            decreases columns@.len() - i,
        {
            match find_column_index(&table.columns, columns[i].as_str()) {
                Some(_) => {
                    proof {
                        assert(missing_from(t.columns, names, i as int) == missing_from(
                            t.columns,
                            names,
                            i as int + 1,
                        ));
                    }
                },
                None => {
                    missing.push(columns[i].clone());
                    proof {
                        assert(missing_from(t.columns, names, i as int) =~= seq![
                            names[i as int],
                        ].add(missing_from(t.columns, names, i as int + 1)));
                        assert(missing_from(t.columns, names, 0) =~= names_model(missing@).add(
                            missing_from(t.columns, names, i as int + 1),
                        ));
                    }
                },
            }
            i = i + 1;
        }
        proof {
            assert(missing_from(t.columns, names, columns@.len() as int) =~= Seq::empty());
            assert(missing_from(t.columns, names, 0) =~= names_model(missing@));
        }
        if missing.len() > 0 {
            return Ok(Err(OperationOnTableError::ColumnDoesNotExist(missing)));
        }
        proof {
            assert(missing_from(t.columns, names, 0).len() == 0);
            lemma_missing_none(t.columns, names, 0);
        }

        // second pass: resolve each name to its column index
        let mut proj: Vec<usize> = Vec::new();
        let mut i: usize = 0;
        while i < columns.len()
            invariant
                0 <= i <= columns@.len(),
                t == table@,
                t.columns == cols_model(table.columns@),
                names == names_model(columns@),
                proj@.len() == i as int,
                forall|j: int| 0 <= j < names.len() ==> find_column(t.columns, #[trigger] names[j]) >= 0,
                forall|j: int|
                    0 <= j < i as int ==> #[trigger] proj@[j] == find_column(t.columns, names[j])
                        && proj@[j] < t.columns.len(),
            decreases columns@.len() - i,
        {
            match find_column_index(&table.columns, columns[i].as_str()) {
                Some(ci) => {
                    proj.push(ci);
                },
                None => {
                    proof {
                        assert(find_column(t.columns, names[i as int]) == -1);
                        assert(false);
                    }
                    return unreached();
                },
            }
            i = i + 1;
        }

        // the reply's column definitions, one per projection name
        let mut defs: Vec<ColumnDefinition> = Vec::new();
        let mut i: usize = 0;
        while i < proj.len()
            invariant
                0 <= i <= proj@.len(),
                proj@.len() == names.len(),
                t == table@,
                t.columns == cols_model(table.columns@),
                names == names_model(columns@),
                forall|j: int|
                    0 <= j < names.len() ==> #[trigger] proj@[j] == find_column(t.columns, names[j])
                        && proj@[j] < t.columns.len(),
                defs@.len() == i as int,
                forall|j: int|
                    0 <= j < i as int ==> #[trigger] cols_model(defs@)[j] == project_cols(
                        t.columns,
                        names,
                    )[j],
            decreases proj@.len() - i,
        {
            let c = &table.columns[proj[i]];
            let copied = ColumnDefinition { name: c.name.clone(), sql_type: c.sql_type };
            proof {
                assert(copied@ == t.columns[proj@[i as int] as int]);
            }
            let ghost pre = defs@;
            defs.push(copied);
            proof {
                assert(defs@ == pre.push(copied));
                assert(cols_model(defs@)[i as int] == copied@);
                assert(project_cols(t.columns, names)[i as int] == t.columns[find_column(
                    t.columns,
                    names[i as int],
                )]);
                assert(forall|j: int|
                    0 <= j < i as int ==> #[trigger] cols_model(defs@)[j] == cols_model(pre)[j]);
            }
            i = i + 1;
        }
        proof {
            assert(cols_model(defs@) =~= project_cols(t.columns, names));
        }

        // the reply's rows: each stored row projected, in stored order
        let mut out_rows: Vec<Vec<String>> = Vec::new();
        let mut k: usize = 0;
        while k < table.rows.len()
            invariant
                0 <= k <= table.rows@.len(),
                t == table@,
                t.columns == cols_model(table.columns@),
                t.rows == rows_model(table.rows@),
                names == names_model(columns@),
                proj@.len() == names.len(),
                forall|j: int|
                    0 <= j < names.len() ==> #[trigger] proj@[j] == find_column(t.columns, names[j])
                        && proj@[j] < t.columns.len(),
                self.wf(),
                wf_table(t),
                out_rows@.len() == k as int,
                forall|q: int|
                    0 <= q < k as int ==> #[trigger] rows_model(out_rows@)[q] == project_rows(
                        t.columns,
                        names,
                        t.rows,
                    )[q],
            decreases table.rows@.len() - k,
        {
            let src_row = &table.rows[k];
            proof {
                assert(row_model(src_row@) == t.rows[k as int]);
                assert(wf_row(t.columns, t.rows[k as int]));
            }
            let mut out_row: Vec<String> = Vec::new();
            let mut i: usize = 0;
            while i < proj.len()
                invariant
                    0 <= i <= proj@.len(),
                    t == table@,
                    t.columns == cols_model(table.columns@),
                    names == names_model(columns@),
                    proj@.len() == names.len(),
                    forall|j: int|
                        0 <= j < names.len() ==> #[trigger] proj@[j] == find_column(
                            t.columns,
                            names[j],
                        ) && proj@[j] < t.columns.len(),
                    row_model(src_row@) == t.rows[k as int],
                    k < t.rows.len(),
                    wf_row(t.columns, t.rows[k as int]),
                    out_row@.len() == i as int,
                    forall|j: int|
                        0 <= j < i as int ==> #[trigger] row_model(out_row@)[j] == project_row(
                            t.columns,
                            names,
                            t.rows[k as int],
                        )[j],
                decreases proj@.len() - i,
            {
                let cell = src_row[proj[i]].clone();
                proof {
                    assert(t.rows[k as int].len() == t.columns.len());
                    assert(cell@ == row_model(src_row@)[proj@[i as int] as int]);
                }
                let ghost pre = out_row@;
                out_row.push(cell);
                proof {
                    assert(out_row@ == pre.push(cell));
                    assert(row_model(out_row@)[i as int] == cell@);
                    assert(project_row(t.columns, names, t.rows[k as int])[i as int] == t.rows[
                        k as int
                    ][find_column(t.columns, names[i as int])]);
                    assert(forall|j: int|
                        0 <= j < i as int ==> #[trigger] row_model(out_row@)[j] == row_model(
                            pre,
                        )[j]);
                }
                i = i + 1;
            }
            proof {
                assert(row_model(out_row@) =~= project_row(t.columns, names, t.rows[k as int]));
            }
            let ghost pre = out_rows@;
            out_rows.push(out_row);
            proof {
                assert(out_rows@ == pre.push(out_row));
                assert(rows_model(out_rows@)[k as int] == row_model(out_row@));
                assert(project_rows(t.columns, names, t.rows)[k as int] == project_row(
                    t.columns,
                    names,
                    t.rows[k as int],
                ));
                assert(forall|q: int|
                    0 <= q < k as int ==> #[trigger] rows_model(out_rows@)[q] == rows_model(
                        pre,
                    )[q]);
            }
            k = k + 1;
        }
        proof {
            assert(rows_model(out_rows@) =~= project_rows(t.columns, names, t.rows));
            assert forall|ii: int| 0 <= ii < names.len() implies #[trigger] project_cols(
                t.columns,
                names,
            )[ii].name == names[ii] by {
                lemma_find_from(t.columns, |c: ColumnModel| c.name == names[ii], 0);
            }
            assert forall|q: int, ii: int|
                0 <= q < out_rows@.len() && 0 <= ii < names.len() implies spec_valid(
                project_cols(t.columns, names)[ii].sql_type,
                #[trigger] rows_model(out_rows@)[q][ii],
            ) by {
                assert(wf_row(t.columns, t.rows[q]));
                assert(rows_model(out_rows@)[q][ii] == t.rows[q][find_column(
                    t.columns,
                    names[ii],
                )]);
                lemma_find_from(t.columns, |c: ColumnModel| c.name == names[ii], 0);
            }
        }
        Ok(Ok((defs, out_rows)))
    }
}

/// Violation pairs as their models.
pub open spec fn violations_model(vs: Seq<(ConstraintError, ColumnDefinition)>) -> Seq<
    (ConstraintErrorModel, ColumnModel),
> {
    vs.map_values(|p: (ConstraintError, ColumnDefinition)| (p.0@, p.1@))
}

/// A clean row stored through a covering projection over unique
/// column names is a well-formed row of the table.
pub proof fn lemma_stored_row_wf(
    cols: Seq<ColumnModel>,
    names: Seq<Seq<char>>,
    row: Seq<Seq<char>>,
)
    requires
        forall|a: int, b: int| 0 <= a < b < cols.len() ==> cols[a].name != cols[b].name,
        covers(cols, names),
        row.len() == names.len(),
        row_violations(cols, names, row, 0).len() == 0,
    ensures
        wf_row(cols, stored_row(cols, names, row)),
{
    lemma_no_violations(cols, names, row, 0);
    assert forall|j: int| 0 <= j < cols.len() implies spec_valid(
        cols[j].sql_type,
        stored_row(cols, names, row)[j],
    ) by {
        let i = source_of(names, cols[j].name);
        lemma_source_from(names, cols[j].name, 0);
        assert(source_of(names, cols[j].name) >= 0);
        assert(0 <= i < names.len());
        assert(names[i] == cols[j].name);
        lemma_find_column_unique(cols, j);
        assert(find_column(cols, names[i]) == j);
        assert(spec_valid(cols[find_column(cols, names[i])].sql_type, row[i]));
        assert(stored_row(cols, names, row)[j] == row[i]);
    }
}

impl FrontendStorage {
    /// Insert rows through an optional column projection.  The
    /// contract follows [`insert_outcome`]: the named schema and
    /// table must be there; the projection (all columns when empty)
    /// must resolve and feed every column exactly; the first row of
    /// the wrong width, or the first row any of whose cells a column
    /// type refuses, aborts the whole insert with nothing stored;
    /// otherwise every supplied row, rearranged into declaration
    /// order, is appended in the order supplied.
    pub fn insert_into(
        &mut self,
        schema_name: &str,
        table_name: &str,
        columns: Vec<String>,
        rows: Vec<Vec<String>>,
    ) -> (r: SystemResult<Result<(), OperationOnTableError>>)
        requires
            old(self).wf(),
        ensures
            final(self).wf(),
            r is Ok,
            r matches Ok(inner) ==> {
                let outcome = insert_outcome(
                    old(self)@,
                    schema_name@,
                    table_name@,
                    names_model(columns@),
                    rows_model(rows@),
                );
                let si = find_schema(old(self)@, schema_name@);
                &&& (outcome is SchemaMissing <==> inner matches Err(
                    OperationOnTableError::SchemaDoesNotExist,
                ))
                &&& (outcome is TableMissing <==> inner matches Err(
                    OperationOnTableError::TableDoesNotExist,
                ))
                &&& (outcome matches InsertOutcome::ColumnsMissing(m) ==> inner matches Err(
                    OperationOnTableError::ColumnDoesNotExist(v),
                ) && names_model(v@) =~= m)
                &&& (inner matches Err(OperationOnTableError::ColumnDoesNotExist(v)) ==> outcome
                    is ColumnsMissing)
                &&& (outcome is ShapeMismatch <==> inner matches Err(
                    OperationOnTableError::InsertTooManyExpressions,
                ))
                &&& (outcome matches InsertOutcome::Violations(vs, idx) ==> inner matches Err(
                    OperationOnTableError::ConstraintViolations(v, ri),
                ) && ri as int == idx && violations_model(v@) =~= vs)
                &&& (inner matches Err(OperationOnTableError::ConstraintViolations(v, ri)) ==>
                    outcome is Violations)
                &&& (inner is Ok <==> outcome is Success)
                &&& (outcome matches InsertOutcome::Success(stored) ==> {
                    let ti = find_table(old(self)@[si].tables, table_name@);
                    let ot = old(self)@[si].tables[ti];
                    final(self)@ =~~= old(self)@.update(
                        si,
                        SchemaModel {
                            name: old(self)@[si].name,
                            tables: old(self)@[si].tables.update(
                                ti,
                                TableModel {
                                    name: ot.name,
                                    columns: ot.columns,
                                    rows: ot.rows.add(stored),
                                },
                            ),
                        },
                    )
                })
                &&& (inner is Err ==> final(self)@ == old(self)@)
            },
    {
        let ghost names0 = names_model(columns@);
        let ghost rows0 = rows_model(rows@);
        let si = match find_schema_index(&self.schemas, schema_name) {
            None => {
                return Ok(Err(OperationOnTableError::SchemaDoesNotExist));
            },
            Some(si) => si,
        };
        let ti = match find_table_index(&self.schemas[si].tables, table_name) {
            None => {
                return Ok(Err(OperationOnTableError::TableDoesNotExist));
            },
            Some(ti) => ti,
        };
        let table = &self.schemas[si].tables[ti];
        let ghost t = self@[si as int].tables[ti as int];
        let ghost cols = t.columns;
        proof {
            assert(t == table@);
            assert(wf_table(t));
        }

        // the projection the insert works through
        let eff: Vec<String> = if columns.len() == 0 {
            let mut eff: Vec<String> = Vec::new();
            let mut j: usize = 0;
            while j < table.columns.len()
                invariant
                    0 <= j <= table.columns@.len(),
                    t == table@,
                    cols == cols_model(table.columns@),
                    eff@.len() == j as int,
                    forall|q: int|
                        0 <= q < j as int ==> #[trigger] names_model(eff@)[q] == cols[q].name,
                decreases table.columns@.len() - j,
            {
                let ghost pre = eff@;
                eff.push(table.columns[j].name.clone());
                proof {
                    assert(names_model(eff@)[j as int] == cols[j as int].name);
                    assert(forall|q: int|
                        0 <= q < j as int ==> #[trigger] names_model(eff@)[q] == names_model(
                            pre,
                        )[q]);
                }
                j = j + 1;
            }
            proof {
                assert(names_model(eff@) =~= effective_names(cols, names0));
            }
            eff
        } else {
            proof {
                assert(names_model(columns@) =~= effective_names(cols, names0));
            }
            columns
        };
        let ghost effm = effective_names(cols, names0);
        proof {
            assert(names_model(eff@) == effm);
        }

        // first pass over the projection: collect the missing names
        let mut missing: Vec<String> = Vec::new();
        let mut i: usize = 0;
        while i < eff.len()
            invariant
                0 <= i <= eff@.len(),
                t == table@,
                cols == cols_model(table.columns@),
                effm == names_model(eff@),
                missing_from(cols, effm, 0) =~= names_model(missing@).add(
                    missing_from(cols, effm, i as int),
                ),
            decreases eff@.len() - i,
        {
            match find_column_index(&table.columns, eff[i].as_str()) {
                Some(_) => {
                    proof {
                        assert(missing_from(cols, effm, i as int) == missing_from(
                            cols,
                            effm,
                            i as int + 1,
                        ));
                    }
                },
                None => {
                    missing.push(eff[i].clone());
                    proof {
                        assert(missing_from(cols, effm, i as int) =~= seq![effm[i as int]].add(
                            missing_from(cols, effm, i as int + 1),
                        ));
                        assert(missing_from(cols, effm, 0) =~= names_model(missing@).add(
                            missing_from(cols, effm, i as int + 1),
                        ));
                    }
                },
            }
            i = i + 1;
        }
        proof {
            assert(missing_from(cols, effm, eff@.len() as int) =~= Seq::empty());
            assert(missing_from(cols, effm, 0) =~= names_model(missing@));
        }
        if missing.len() > 0 {
            return Ok(Err(OperationOnTableError::ColumnDoesNotExist(missing)));
        }
        proof {
            assert(missing_from(cols, effm, 0).len() == 0);
            lemma_missing_none(cols, effm, 0);
        }

        // the projection must feed every column exactly once
        if eff.len() != table.columns.len() {
            proof {
                assert(effm.len() == eff@.len());
                assert(cols.len() == table.columns@.len());
                assert(effm.len() != cols.len());
            }
            return Ok(Err(OperationOnTableError::InsertTooManyExpressions));
        }
        proof {
            assert(effm.len() == cols.len());
        }
        let mut srcs: Vec<usize> = Vec::new();
        let mut j: usize = 0;
        while j < table.columns.len()
            invariant
                *self == *old(self),
                old(self).wf(),
                si as int == find_schema(old(self)@, schema_name@),
                ti as int == find_table(old(self)@[si as int].tables, table_name@),
                (si as int) < old(self)@.len(),
                (ti as int) < old(self)@[si as int].tables.len(),
                t == old(self)@[si as int].tables[ti as int],
                names0 == names_model(columns@),
                rows0 == rows_model(rows@),
                effm == effective_names(cols, names0),
                missing_from(cols, effm, 0).len() == 0,
                0 <= j <= table.columns@.len(),
                t == table@,
                cols == cols_model(table.columns@),
                effm == names_model(eff@),
                effm.len() == cols.len(),
                srcs@.len() == j as int,
                forall|q: int|
                    0 <= q < j as int ==> #[trigger] srcs@[q] == source_of(effm, cols[q].name)
                        && srcs@[q] < effm.len(),
            decreases table.columns@.len() - j,
        {
            match find_name_index(&eff, table.columns[j].name.as_str()) {
                Some(p) => {
                    srcs.push(p);
                },
                None => {
                    proof {
                        assert(source_of(effm, cols[j as int].name) == -1);
                        assert(!covers(cols, effm));
                    }
                    return Ok(Err(OperationOnTableError::InsertTooManyExpressions));
                },
            }
            j = j + 1;
        }
        proof {
            assert forall|q: int| 0 <= q < cols.len() implies source_of(
                effm,
                #[trigger] cols[q].name,
            ) >= 0 by {
                assert(srcs@[q] == source_of(effm, cols[q].name));
            }
            assert(covers(cols, effm));
        }

        // second pass: resolve each projection name to its column
        let mut proj: Vec<usize> = Vec::new();
        let mut i: usize = 0;
        while i < eff.len()
            invariant
                0 <= i <= eff@.len(),
                t == table@,
                cols == cols_model(table.columns@),
                effm == names_model(eff@),
                proj@.len() == i as int,
                forall|q: int| 0 <= q < effm.len() ==> find_column(cols, #[trigger] effm[q]) >= 0,
                forall|q: int|
                    0 <= q < i as int ==> #[trigger] proj@[q] == find_column(cols, effm[q])
                        && proj@[q] < cols.len(),
            decreases eff@.len() - i,
        {
            match find_column_index(&table.columns, eff[i].as_str()) {
                Some(ci) => {
                    proj.push(ci);
                },
                None => {
                    proof {
                        assert(find_column(cols, effm[i as int]) == -1);
                        assert(false);
                    }
                    return unreached();
                },
            }
            i = i + 1;
        }

        // scan the rows in order; the first bad row decides
        let mut ridx: usize = 0;
        while ridx < rows.len()
            invariant
                *self == *old(self),
                old(self).wf(),
                si as int == find_schema(old(self)@, schema_name@),
                ti as int == find_table(old(self)@[si as int].tables, table_name@),
                (si as int) < old(self)@.len(),
                (ti as int) < old(self)@[si as int].tables.len(),
                t == old(self)@[si as int].tables[ti as int],
                names0 == names_model(columns@),
                rows0 == rows_model(rows@),
                effm == effective_names(cols, names0),
                missing_from(cols, effm, 0).len() == 0,
                0 <= ridx <= rows@.len(),
                t == table@,
                cols == cols_model(table.columns@),
                effm == names_model(eff@),
                effm.len() == cols.len(),
                covers(cols, effm),
                proj@.len() == effm.len(),
                forall|q: int|
                    0 <= q < effm.len() ==> #[trigger] proj@[q] == find_column(cols, effm[q])
                        && proj@[q] < cols.len(),
                scan_rows(cols, effm, rows0, 0) == scan_rows(cols, effm, rows0, ridx as int),
                forall|q: int|
                    0 <= q < ridx as int ==> #[trigger] rows0[q].len() == effm.len()
                        && row_violations(cols, effm, rows0[q], 0).len() == 0,
            decreases rows@.len() - ridx,
        {
            let row = &rows[ridx];
            proof {
                assert(row_model(row@) == rows0[ridx as int]);
            }
            if row.len() != eff.len() {
                proof {
                    assert(scan_rows(cols, effm, rows0, ridx as int)
                        == InsertOutcome::ShapeMismatch);
                }
                return Ok(Err(OperationOnTableError::InsertTooManyExpressions));
            }
            let mut viol: Vec<(ConstraintError, ColumnDefinition)> = Vec::new();
            let mut i: usize = 0;
            while i < row.len()
                invariant
                    0 <= i <= row@.len(),
                    t == table@,
                    cols == cols_model(table.columns@),
                    effm == names_model(eff@),
                    row_model(row@) == rows0[ridx as int],
                    ridx < rows0.len(),
                    rows0[ridx as int].len() == effm.len(),
                    row@.len() == effm.len(),
                    proj@.len() == effm.len(),
                    forall|q: int|
                        0 <= q < effm.len() ==> #[trigger] proj@[q] == find_column(cols, effm[q])
                            && proj@[q] < cols.len(),
                    row_violations(cols, effm, rows0[ridx as int], 0) =~= violations_model(
                        viol@,
                    ).add(row_violations(cols, effm, rows0[ridx as int], i as int)),
                decreases row@.len() - i,
            {
                let ghost rm = rows0[ridx as int];
                let c = &table.columns[proj[i]];
                proof {
                    assert(c@ == cols[proj@[i as int] as int]);
                    assert(cols[find_column(cols, effm[i as int])] == c@);
                    assert(rm[i as int] == row@[i as int]@);
                }
                match c.sql_type.validate(row[i].as_str()) {
                    Ok(_) => {
                        proof {
                            assert(spec_validate(c@.sql_type, rm[i as int]) is Ok);
                            assert(row_violations(cols, effm, rm, i as int) == row_violations(
                                cols,
                                effm,
                                rm,
                                i as int + 1,
                            ));
                        }
                    },
                    Err(e) => {
                        let copied = ColumnDefinition {
                            name: c.name.clone(),
                            sql_type: c.sql_type,
                        };
                        proof {
                            assert(copied@ == c@);
                        }
                        let ghost pre = viol@;
                        let ghost em = e@;
                        viol.push((e, copied));
                        proof {
                            assert(viol@ == pre.push((viol@[pre.len() as int].0, copied)));
                            assert(Result::<(), ConstraintErrorModel>::Err(em) == spec_validate(
                                c@.sql_type,
                                rm[i as int],
                            ));
                            assert(row_violations(cols, effm, rm, i as int) =~= seq![
                                (em, c@),
                            ].add(row_violations(cols, effm, rm, i as int + 1)));
                            assert(violations_model(viol@)[pre.len() as int] == (em, c@));
                            assert(forall|q: int|
                                0 <= q < pre.len() ==> #[trigger] violations_model(viol@)[q]
                                    == violations_model(pre)[q]);
                            assert(violations_model(viol@) =~= violations_model(pre).push(
                                (em, c@),
                            ));
                            assert(row_violations(cols, effm, rm, 0) =~= violations_model(
                                viol@,
                            ).add(row_violations(cols, effm, rm, i as int + 1)));
                        }
                    },
                }
                i = i + 1;
            }
            proof {
                assert(row_violations(cols, effm, rows0[ridx as int], row@.len() as int)
                    =~= Seq::empty());
                assert(row_violations(cols, effm, rows0[ridx as int], 0) =~= violations_model(
                    viol@,
                ));
            }
            if viol.len() > 0 {
                proof {
                    assert(scan_rows(cols, effm, rows0, ridx as int)
                        == InsertOutcome::Violations(
                        row_violations(cols, effm, rows0[ridx as int], 0),
                        ridx as int,
                    ));
                }
                return Ok(Err(OperationOnTableError::ConstraintViolations(viol, ridx)));
            }
            proof {
                assert(row_violations(cols, effm, rows0[ridx as int], 0).len() == 0);
                assert(rows0[ridx as int].len() == row@.len());
                assert(rows0[ridx as int].len() == effm.len());
                assert(scan_rows(cols, effm, rows0, ridx as int) == scan_rows(
                    cols,
                    effm,
                    rows0,
                    ridx as int + 1,
                ));
            }
            ridx = ridx + 1;
        }
        proof {
            assert(rows0.len() == rows@.len());
            assert(scan_rows(cols, effm, rows0, 0) == InsertOutcome::Success(
                stored_rows(cols, effm, rows0),
            ));
        }

        // every row is clean: build the stored form of each
        let mut new_rows: Vec<Vec<String>> = Vec::new();
        let mut ridx: usize = 0;
        while ridx < rows.len()
            invariant
                0 <= ridx <= rows@.len(),
                t == table@,
                cols == cols_model(table.columns@),
                effm == names_model(eff@),
                effm.len() == cols.len(),
                rows0 == rows_model(rows@),
                srcs@.len() == cols.len(),
                forall|q: int|
                    0 <= q < cols.len() ==> #[trigger] srcs@[q] == source_of(effm, cols[q].name)
                        && srcs@[q] < effm.len(),
                forall|q: int|
                    0 <= q < rows0.len() ==> #[trigger] rows0[q].len() == effm.len()
                        && row_violations(cols, effm, rows0[q], 0).len() == 0,
                new_rows@.len() == ridx as int,
                forall|q: int|
                    0 <= q < ridx as int ==> #[trigger] rows_model(new_rows@)[q] == stored_rows(
                        cols,
                        effm,
                        rows0,
                    )[q],
            decreases rows@.len() - ridx,
        {
            let row = &rows[ridx];
            proof {
                assert(row_model(row@) == rows0[ridx as int]);
                assert(rows0[ridx as int].len() == effm.len());
                assert(row@.len() == row_model(row@).len());
                assert(row@.len() == effm.len());
            }
            let mut out_row: Vec<String> = Vec::new();
            let mut j: usize = 0;
            while j < srcs.len()
                invariant
                    0 <= j <= srcs@.len(),
                    t == table@,
                    cols == cols_model(table.columns@),
                    effm == names_model(eff@),
                    effm.len() == cols.len(),
                    srcs@.len() == cols.len(),
                    forall|q: int|
                        0 <= q < cols.len() ==> #[trigger] srcs@[q] == source_of(
                            effm,
                            cols[q].name,
                        ) && srcs@[q] < effm.len(),
                    row_model(row@) == rows0[ridx as int],
                    ridx < rows0.len(),
                    row@.len() == effm.len(),
                    out_row@.len() == j as int,
                    forall|q: int|
                        0 <= q < j as int ==> #[trigger] row_model(out_row@)[q] == stored_row(
                            cols,
                            effm,
                            rows0[ridx as int],
                        )[q],
                decreases srcs@.len() - j,
            {
                let cell = row[srcs[j]].clone();
                proof {
                    assert(cell@ == rows0[ridx as int][srcs@[j as int] as int]);
                }
                let ghost pre = out_row@;
                out_row.push(cell);
                proof {
                    assert(row_model(out_row@)[j as int] == cell@);
                    assert(stored_row(cols, effm, rows0[ridx as int])[j as int] == rows0[
                        ridx as int
                    ][source_of(effm, cols[j as int].name)]);
                    assert(forall|q: int|
                        0 <= q < j as int ==> #[trigger] row_model(out_row@)[q] == row_model(
                            pre,
                        )[q]);
                }
                j = j + 1;
            }
            proof {
                assert(row_model(out_row@) =~= stored_row(cols, effm, rows0[ridx as int]));
            }
            let ghost pre = new_rows@;
            new_rows.push(out_row);
            proof {
                assert(rows_model(new_rows@)[ridx as int] == row_model(out_row@));
                assert(stored_rows(cols, effm, rows0)[ridx as int] == stored_row(
                    cols,
                    effm,
                    rows0[ridx as int],
                ));
                assert(forall|q: int|
                    0 <= q < ridx as int ==> #[trigger] rows_model(new_rows@)[q] == rows_model(
                        pre,
                    )[q]);
            }
            ridx = ridx + 1;
        }
        proof {
            assert(rows_model(new_rows@) =~= stored_rows(cols, effm, rows0));
        }

        // append, in the order supplied
        let ghost stored = stored_rows(cols, effm, rows0);
        let schema = &mut self.schemas[si];
        let table_mut = &mut schema.tables[ti];
        let ghost old_rows_vec = table_mut.rows@;
        table_mut.rows.append(&mut new_rows);
        proof {
            let os = old(self)@;
            let ot = os[si as int].tables[ti as int];
            let nt = TableModel { name: ot.name, columns: ot.columns, rows: ot.rows.add(stored) };
            assert(rows_model(table_mut.rows@) =~= ot.rows.add(stored));
            assert(table_mut@ =~~= nt);
            assert(self@ =~~= os.update(
                si as int,
                SchemaModel { name: os[si as int].name, tables: os[si as int].tables.update(
                    ti as int,
                    nt,
                ) },
            ));
            assert(wf_table(nt)) by {
                assert forall|q: int| 0 <= q < nt.rows.len() implies wf_row(
                    nt.columns,
                    #[trigger] nt.rows[q],
                ) by {
                    if q < ot.rows.len() {
                        assert(wf_table(ot));
                        assert(wf_row(ot.columns, ot.rows[q]));
                    } else {
                        let k = q - ot.rows.len();
                        assert(nt.rows[q] == stored[k]);
                        assert(stored[k] == stored_row(cols, effm, rows0[k]));
                        lemma_stored_row_wf(cols, effm, rows0[k]);
                    }
                }
            }
            assert(wf_schema(self@[si as int]));
            assert(self.wf());
        }
        Ok(Ok(()))
    }
}


/// Law of schema lifecycle: after a successful drop of `name` (which
/// leaves the store as `ss.remove(find_schema(ss, name))`, per
/// [`FrontendStorage::drop_schema`]), a create of `name` succeeds
/// again, because no schema of that name remains.
pub proof fn lemma_create_succeeds_after_drop(ss: Seq<SchemaModel>, name: Seq<char>)
    requires
        wf_schemas(ss),
        has_schema(ss, name),
    ensures
        !has_schema(ss.remove(find_schema(ss, name)), name),
{
    let p = |s: SchemaModel| s.name == name;
    lemma_find_from(ss, p, 0);
    let i = find_schema(ss, name);
    let removed = ss.remove(i);
    lemma_find_from(removed, p, 0);
    let j = find_from(removed, p, 0);
    if j >= 0 {
        assert(removed[j] == if j < i {
            ss[j]
        } else {
            ss[j + 1]
        });
        if j < i {
            assert(ss[j].name == name && ss[i].name == name);
        } else {
            assert(ss[j + 1].name == name && ss[i].name == name);
        }
        assert(false);
    }
}

/// Law of schema lifecycle, second half: after a successful create
/// of `name` (which leaves the store as `ss.push(...)`, per
/// [`FrontendStorage::create_schema`]), another create of `name`
/// fails, because the schema is now there.
pub proof fn lemma_create_fails_after_create(ss: Seq<SchemaModel>, name: Seq<char>)
    ensures
        has_schema(ss.push(SchemaModel { name: name, tables: Seq::empty() }), name),
{
    let p = |s: SchemaModel| s.name == name;
    let pushed = ss.push(SchemaModel { name: name, tables: Seq::empty() });
    lemma_find_from(pushed, p, 0);
    assert(p(pushed[pushed.len() - 1]));
    if find_from(pushed, p, 0) == -1 {
        assert(!p(pushed[pushed.len() - 1]));
    }
}

/// Law of insertion order: a SELECT projects row by row, so over the
/// store an insert leaves (`rows.add(stored)`, per
/// [`FrontendStorage::insert_into`]) it returns the projections of
/// the old rows first and of the newly stored rows after them, each
/// group in its own order.
pub proof fn lemma_select_preserves_insertion_order(
    cols: Seq<ColumnModel>,
    names: Seq<Seq<char>>,
    rows: Seq<Seq<Seq<char>>>,
    stored: Seq<Seq<Seq<char>>>,
)
    ensures
        project_rows(cols, names, rows.add(stored)) =~= project_rows(cols, names, rows).add(
            project_rows(cols, names, stored),
        ),
        forall|k: int|
            0 <= k < stored.len() ==> project_rows(cols, names, rows.add(stored))[rows.len() + k]
                == project_row(cols, names, #[trigger] stored[k]),
{
    assert(project_rows(cols, names, rows.add(stored)) =~= project_rows(cols, names, rows).add(
        project_rows(cols, names, stored),
    ));
}

} // verus!
