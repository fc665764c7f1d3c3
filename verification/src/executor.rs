//! The command executor: a parsed statement is dispatched against
//! the store, its domain errors translated to wire errors, and its
//! result returned as the event or error the session sends back.

use vstd::prelude::*;
use crate::drop_schema::DropSchemaCommand;
use crate::insert::{InsertCommand, InsertSource};
use crate::results::{
    msg_column_does_not_exist, msg_duplicate_column, msg_schema_already_exists,
    msg_schema_does_not_exist, msg_table_already_exists, msg_table_does_not_exist, QueryError,
    QueryEvent,
};
use crate::storage::{
    cols_model, find_schema, find_table, has_schema, missing_from, names_model, project_cols,
    project_rows, rows_model, FrontendStorage, OperationOnTableError, SchemaModel, SystemResult,
    TableModel,
};
use crate::types::{ColumnDefinition, PostgreSqlType};

verus! {

/// Name of a schema, as a statement carries it.
#[derive(Clone, PartialEq, Eq, Debug)]
pub struct SchemaId {
    pub name: String,
}

impl SchemaId {
    /// Wrap a schema name.
    pub fn from(name: String) -> (r: SchemaId)
        ensures
            r.name == name,
    {
        SchemaId { name }
    }

    /// The wrapped name.
    pub fn name(&self) -> (r: String)
        ensures
            r@ == self.name@,
    {
        self.name.clone()
    }
}

/// A parsed statement, in the shapes the core runs.
pub enum Statement {
    CreateSchema(SchemaId),
    DropSchema(SchemaId),
    CreateTable { schema: String, table: String, columns: Vec<ColumnDefinition> },
    DropTable { schema: String, table: String },
    Insert(InsertCommand),
    Select { schema: String, table: String, projection: Vec<String> },
    /// Any other statement, carried as its raw SQL text.
    Unsupported(String),
}

/// Index of the first column before `i` that reuses the name of
/// column `i`, scanning pairs in declaration order; `-1` when the
/// names are unique.
pub open spec fn first_duplicate(cols: Seq<crate::types::ColumnModel>, i: int) -> int
    decreases cols.len() - i,
{
    if i < 0 || i >= cols.len() {
        -1
    } else if exists|j: int| 0 <= j < i && (#[trigger] cols[j].name) == cols[i].name {
        i
    } else {
        first_duplicate(cols, i + 1)
    }
}

fn find_duplicate_column(columns: &Vec<ColumnDefinition>) -> (r: Option<usize>)
    ensures
        r matches Some(i) ==> i < columns@.len() && first_duplicate(cols_model(columns@), 0)
            == i,
        r is None ==> first_duplicate(cols_model(columns@), 0) == -1 && forall|a: int, b: int|
            0 <= a < b < columns@.len() ==> cols_model(columns@)[a].name != cols_model(
                columns@,
            )[b].name,
{
    let ghost model = cols_model(columns@);
    let mut i: usize = 0;
    while i < columns.len()
        invariant
            0 <= i <= columns@.len(),
            model == cols_model(columns@),
            first_duplicate(model, 0) == first_duplicate(model, i as int),
            forall|a: int, b: int| 0 <= a < b < i as int ==> model[a].name != model[b].name,
        decreases columns@.len() - i,
    {
        let mut j: usize = 0;
        while j < i
            invariant
                0 <= j <= i < columns@.len(),
                model == cols_model(columns@),
                first_duplicate(model, 0) == first_duplicate(model, i as int),
                forall|a: int| 0 <= a < j as int ==> model[a].name != model[i as int].name,
            decreases i - j,
        {
            if crate::text::str_eq(columns[j].name.as_str(), columns[i].name.as_str()) {
                proof {
                    assert(model[j as int].name == model[i as int].name);
                    assert((j as int) < i as int);
                    assert(exists|a: int|
                        0 <= a < i as int && (#[trigger] model[a].name) == model[
                            i as int
                        ].name);
                    assert(first_duplicate(model, i as int) == i as int);
                }
                return Some(i);
            }
            j = j + 1;
        }
        proof {
            assert(forall|a: int| 0 <= a < i as int ==> model[a].name != model[i as int].name);
            assert(first_duplicate(model, i as int) == first_duplicate(model, i as int + 1));
        }
        i = i + 1;
    }
    proof {
        assert(first_duplicate(model, i as int) == -1);
    }
    None
}

/// Run one statement against the store and hand back what the
/// session should send: the success event, or the wire error, each
/// pinned to the store's model by the clauses below.  An INSERT is
/// forwarded whole; its contract stands on
/// [`InsertCommand::execute`].
pub fn execute_statement(stmt: Statement, storage: &mut FrontendStorage) -> (r: SystemResult<
    Result<QueryEvent, QueryError>,
>)
    requires
        old(storage).wf(),
    ensures
        final(storage).wf(),
        r is Ok,
        r matches Ok(inner) ==> match stmt {
            Statement::CreateSchema(id) => {
                &&& (!has_schema(old(storage)@, id.name@) ==> inner == Ok::<
                    QueryEvent,
                    QueryError,
                >(QueryEvent::SchemaCreated) && final(storage)@ =~= old(storage)@.push(
                    SchemaModel { name: id.name@, tables: Seq::empty() },
                ))
                &&& (has_schema(old(storage)@, id.name@) ==> {
                    &&& final(storage)@ == old(storage)@
                    &&& inner matches Err(qe) && qe.code@ == "42P06"@ && qe.message@
                        == msg_schema_already_exists(id.name@)
                })
            },
            Statement::DropSchema(id) => {
                &&& (has_schema(old(storage)@, id.name@) ==> inner == Ok::<
                    QueryEvent,
                    QueryError,
                >(QueryEvent::SchemaDropped) && final(storage)@ =~= old(storage)@.remove(
                    find_schema(old(storage)@, id.name@),
                ))
                &&& (!has_schema(old(storage)@, id.name@) ==> {
                    &&& final(storage)@ == old(storage)@
                    &&& inner matches Err(qe) && qe.code@ == "3F000"@ && qe.message@
                        == msg_schema_does_not_exist(id.name@)
                })
            },
            Statement::CreateTable { schema, table, columns } => {
                let si = find_schema(old(storage)@, schema@);
                let dup = first_duplicate(cols_model(columns@), 0);
                &&& (dup >= 0 ==> {
                    &&& final(storage)@ == old(storage)@
                    &&& inner matches Err(qe) && qe.code@ == "42701"@ && qe.message@
                        == msg_duplicate_column(cols_model(columns@)[dup].name)
                })
                &&& (dup == -1 && si == -1 ==> {
                    &&& final(storage)@ == old(storage)@
                    &&& inner matches Err(qe) && qe.code@ == "3F000"@ && qe.message@
                        == msg_schema_does_not_exist(schema@)
                })
                &&& (dup == -1 && si >= 0 && find_table(old(storage)@[si].tables, table@) >= 0
                    ==> {
                    &&& final(storage)@ == old(storage)@
                    &&& inner matches Err(qe) && qe.code@ == "42P07"@ && qe.message@
                        == msg_table_already_exists(schema@ + "."@ + table@)
                })
                &&& (dup == -1 && si >= 0 && find_table(old(storage)@[si].tables, table@) == -1
                    ==> inner == Ok::<QueryEvent, QueryError>(QueryEvent::TableCreated)
                    && final(storage)@ =~~= old(storage)@.update(
                    si,
                    SchemaModel {
                        name: old(storage)@[si].name,
                        tables: old(storage)@[si].tables.push(
                            TableModel {
                                name: table@,
                                columns: cols_model(columns@),
                                rows: Seq::empty(),
                            },
                        ),
                    },
                ))
            },
            Statement::DropTable { schema, table } => {
                let si = find_schema(old(storage)@, schema@);
                &&& (si == -1 ==> {
                    &&& final(storage)@ == old(storage)@
                    &&& inner matches Err(qe) && qe.code@ == "3F000"@ && qe.message@
                        == msg_schema_does_not_exist(schema@)
                })
                &&& (si >= 0 && find_table(old(storage)@[si].tables, table@) == -1 ==> {
                    &&& final(storage)@ == old(storage)@
                    &&& inner matches Err(qe) && qe.code@ == "42P01"@ && qe.message@
                        == msg_table_does_not_exist(schema@ + "."@ + table@)
                })
                &&& (si >= 0 && find_table(old(storage)@[si].tables, table@) >= 0 ==> inner
                    == Ok::<QueryEvent, QueryError>(QueryEvent::TableDropped) && final(storage)@
                    =~~= old(storage)@.update(
                    si,
                    SchemaModel {
                        name: old(storage)@[si].name,
                        tables: old(storage)@[si].tables.remove(
                            find_table(old(storage)@[si].tables, table@),
                        ),
                    },
                ))
            },
            Statement::Select { schema, table, projection } => {
                let si = find_schema(old(storage)@, schema@);
                let names = names_model(projection@);
                &&& final(storage)@ == old(storage)@
                &&& (si == -1 ==> {
                    &&& inner matches Err(qe) && qe.code@ == "3F000"@ && qe.message@
                        == msg_schema_does_not_exist(schema@)
                })
                &&& (si >= 0 && find_table(old(storage)@[si].tables, table@) == -1 ==> {
                    &&& inner matches Err(qe) && qe.code@ == "42P01"@ && qe.message@
                        == msg_table_does_not_exist(schema@ + "."@ + table@)
                })
                &&& (si >= 0 && find_table(old(storage)@[si].tables, table@) >= 0 ==> {
                    let t = old(storage)@[si].tables[find_table(
                        old(storage)@[si].tables,
                        table@,
                    )];
                    let miss = missing_from(t.columns, names, 0);
                    &&& (miss.len() > 0 ==> {
                        &&& inner matches Err(qe) && qe.code@ == "42703"@ && qe.message@
                            == msg_column_does_not_exist(miss)
                    })
                    &&& (miss.len() == 0 ==> {
                        &&& inner matches Ok(ev) && ev matches QueryEvent::RecordsSelected(
                            desc,
                            rows,
                        ) && {
                            &&& desc@.len() == names.len()
                            &&& (forall|i: int|
                                0 <= i < names.len() ==> (#[trigger] desc@[i]).0@ == names[i]
                                    && desc@[i].1 == project_cols(t.columns, names)[i]
                                    .sql_type.spec_pg_type())
                            &&& rows_model(rows@) =~= project_rows(t.columns, names, t.rows)
                        }
                    })
                })
            },
            Statement::Insert(_) => true,
            Statement::Unsupported(raw) => {
                &&& final(storage)@ == old(storage)@
                &&& inner matches Err(qe) && qe.code@ == "0A000"@ && qe.message@
                    == crate::results::msg_feature_not_supported(raw@)
            },
        },
{
    match stmt {
        Statement::CreateSchema(id) => {
            let name = id.name();
            match storage.create_schema(name.as_str())? {
                Ok(()) => Ok(Ok(QueryEvent::SchemaCreated)),
                Err(_) => Ok(Err(QueryError::schema_already_exists(name.as_str()))),
            }
        },
        Statement::DropSchema(id) => {
            let mut command = DropSchemaCommand::new(id);
            command.execute(storage)
        },
        Statement::CreateTable { schema, table, columns } => {
            if let Some(d) = find_duplicate_column(&columns) {
                return Ok(Err(QueryError::duplicate_column(columns[d].name.as_str())));
            }
            proof {
                assert forall|a: int, b: int|
                    0 <= a < b < columns@.len() implies columns@[a].name@ != columns@[b].name@ by {
                    assert(cols_model(columns@)[a].name == columns@[a].name@);
                    assert(cols_model(columns@)[b].name == columns@[b].name@);
                }
            }
            match storage.create_table(schema.as_str(), table.as_str(), columns.as_slice())? {
                Ok(()) => Ok(Ok(QueryEvent::TableCreated)),
                Err(OperationOnTableError::SchemaDoesNotExist) => Ok(
                    Err(QueryError::schema_does_not_exist(schema.as_str())),
                ),
                Err(_) => {
                    let qualified = qualified_name(&schema, &table);
                    Ok(Err(QueryError::table_already_exists(qualified.as_str())))
                },
            }
        },
        Statement::DropTable { schema, table } => {
            match storage.drop_table(schema.as_str(), table.as_str())? {
                Ok(()) => Ok(Ok(QueryEvent::TableDropped)),
                Err(OperationOnTableError::SchemaDoesNotExist) => Ok(
                    Err(QueryError::schema_does_not_exist(schema.as_str())),
                ),
                Err(_) => {
                    let qualified = qualified_name(&schema, &table);
                    Ok(Err(QueryError::table_does_not_exist(qualified.as_str())))
                },
            }
        },
        Statement::Insert(command) => {
            let mut command = command;
            command.execute(storage)
        },
        Statement::Select { schema, table, projection } => {
            match storage.select_all_from(schema.as_str(), table.as_str(), projection)? {
                Ok((defs, rows)) => {
                    let ghost names = names_model(projection@);
                    let mut desc: Vec<(String, PostgreSqlType)> = Vec::new();
                    let mut i: usize = 0;
                    while i < defs.len()
                        invariant
                            0 <= i <= defs@.len(),
                            desc@.len() == i as int,
                            forall|q: int|
                                0 <= q < i as int ==> (#[trigger] desc@[q]).0@ == defs@[q]@.name
                                    && desc@[q].1 == defs@[q]@.sql_type.spec_pg_type(),
                        decreases defs@.len() - i,
                    {
                        let d = &defs[i];
                        desc.push((d.name(), d.sql_type().to_pg_types()));
                        i = i + 1;
                    }
                    Ok(Ok(QueryEvent::RecordsSelected(desc, rows)))
                },
                Err(OperationOnTableError::SchemaDoesNotExist) => Ok(
                    Err(QueryError::schema_does_not_exist(schema.as_str())),
                ),
                Err(OperationOnTableError::TableDoesNotExist) => Ok(
                    Err(QueryError::table_does_not_exist(
                        qualified_name(&schema, &table).as_str(),
                    )),
                ),
                Err(OperationOnTableError::ColumnDoesNotExist(names)) => {
                    proof {
                        crate::storage::lemma_find_from(
                            old(storage)@,
                            |s: SchemaModel| s.name == schema@,
                            0,
                        );
                        let si = find_schema(old(storage)@, schema@);
                        assert(si >= 0);
                        crate::storage::lemma_find_from(
                            old(storage)@[si].tables,
                            |t: TableModel| t.name == table@,
                            0,
                        );
                        assert(names_model(names@).len() == names@.len());
                    }
                    Ok(Err(QueryError::column_does_not_exist(&names)))
                },
                Err(_) => {
                    proof {
                        crate::storage::lemma_find_from(
                            old(storage)@,
                            |s: SchemaModel| s.name == schema@,
                            0,
                        );
                        let si = find_schema(old(storage)@, schema@);
                        assert(si >= 0);
                        crate::storage::lemma_find_from(
                            old(storage)@[si].tables,
                            |t: TableModel| t.name == table@,
                            0,
                        );
                        assert(false);
                    }
                    vstd::pervasive::unreached()
                },
            }
        },
        Statement::Unsupported(raw) => Ok(Err(QueryError::feature_not_supported(raw.as_str()))),
    }
}

/// The `schema.table` form a wire error names a relation by.
pub fn qualified_name(schema: &String, table: &String) -> (r: String)
    ensures
        r@ == schema@ + "."@ + table@,
{
    let mut out = schema.clone();
    out.append(".");
    out.append(table.as_str());
    proof {
        assert(out@ =~= schema@ + "."@ + table@);
    }
    out
}

} // verus!
