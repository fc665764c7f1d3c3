//! The INSERT command: evaluate the VALUES expressions to their text
//! form, hand them to the store, and translate every refusal to its
//! wire error.

use vstd::prelude::*;
use vstd::pervasive::unreached;
use crate::expr::{spec_eval, EvalError, EvalOutcome, Expr, ExpressionEvaluation};
use crate::results::{
    msg_column_does_not_exist, msg_feature_not_supported, msg_schema_does_not_exist,
    msg_syntax_error, msg_table_does_not_exist, violation_code, violations_message, QueryError,
    QueryEvent,
};
use crate::storage::{
    find_schema, find_table, insert_outcome, names_model, rows_model, FrontendStorage,
    InsertOutcome, OperationOnTableError, SchemaModel, SystemResult, TableModel,
};

verus! {

/// What follows VALUES in the statement: rows of expressions, or a
/// source shape the core does not run.
pub enum InsertSource {
    Values(Vec<Vec<Expr>>),
    Other,
}

/// A parsed INSERT statement, ready to run.
pub struct InsertCommand {
    pub raw_sql_query: String,
    pub name: Vec<String>,
    pub columns: Vec<String>,
    pub source: InsertSource,
}

/// Evaluation of one VALUES row from position `i` on: the cells'
/// text, or the first failure, left to right.
pub open spec fn eval_row_from(row: Seq<Expr>, i: int) -> Result<Seq<Seq<char>>, EvalOutcome>
    decreases row.len() - i,
{
    if i < 0 || i >= row.len() {
        Result::Ok(Seq::empty())
    } else {
        match spec_eval(row[i]) {
            EvalOutcome::Value(v) => match eval_row_from(row, i + 1) {
                Result::Ok(rest) => Result::Ok(seq![v].add(rest)),
                Result::Err(e) => Result::Err(e),
            },
            other => Result::Err(other),
        }
    }
}

/// Evaluation of all VALUES rows from row `r` on: every cell's text,
/// or the first failure in row-major order.
pub open spec fn eval_rows_from(values: Seq<Seq<Expr>>, r: int) -> Result<
    Seq<Seq<Seq<char>>>,
    EvalOutcome,
>
    decreases values.len() - r,
{
    if r < 0 || r >= values.len() {
        Result::Ok(Seq::empty())
    } else {
        match eval_row_from(values[r], 0) {
            Result::Ok(row) => match eval_rows_from(values, r + 1) {
                Result::Ok(rest) => Result::Ok(seq![row].add(rest)),
                Result::Err(e) => Result::Err(e),
            },
            Result::Err(e) => Result::Err(e),
        }
    }
}


/// Evaluate one VALUES row, left to right: the cells' text, or the
/// first failure, as [`eval_row_from`] prescribes.
fn eval_one_row(line: &Vec<Expr>) -> (r: Result<Vec<String>, EvalError>)
    ensures
        match eval_row_from(line@, 0) {
            Result::Ok(cells) => r matches Ok(v) && crate::storage::row_model(v@) =~= cells,
            Result::Err(out) => r matches Err(e) && match out {
                EvalOutcome::Value(_) => false,
                EvalOutcome::Syntax(t) => e matches EvalError::SyntaxError(s) && s@ == t,
                EvalOutcome::OutOfRange => e == EvalError::OutOfRange,
                EvalOutcome::DivisionByZero => e == EvalError::DivisionByZero,
            },
        },
{
    let evaluator = ExpressionEvaluation::new();
    let mut row: Vec<String> = Vec::new();
    let mut i: usize = 0;
    while i < line.len()
        invariant
            0 <= i <= line@.len(),
            row@.len() == i as int,
            eval_row_from(line@, 0) matches Ok(rr) ==> {
                &&& eval_row_from(line@, i as int) is Ok
                &&& crate::storage::row_model(row@) =~= rr.take(i as int)
            },
            forall|q: int|
                0 <= q < i as int ==> (spec_eval(#[trigger] line@[q]) matches
                    EvalOutcome::Value(v) && crate::storage::row_model(row@)[q] == v),
            eval_row_from(line@, 0) is Err ==> eval_row_from(line@, i as int) == eval_row_from(
                line@,
                0,
            ),
        decreases line@.len() - i,
    {
        match evaluator.eval(&line[i]) {
            Ok(v) => {
                let ghost pre = row@;
                row.push(v);
                proof {
                    assert(crate::storage::row_model(row@)[i as int] == v@);
                    assert(forall|q: int|
                        0 <= q < i as int ==> #[trigger] crate::storage::row_model(row@)[q]
                            == crate::storage::row_model(pre)[q]);
                    if eval_row_from(line@, 0) is Ok {
                        let rr = eval_row_from(line@, 0)->Ok_0;
                        lemma_eval_row_split(line@, i as int);
                        assert(crate::storage::row_model(row@) =~= rr.take(i as int + 1));
                    } else {
                        assert(eval_row_from(line@, i as int) is Err);
                        assert(eval_row_from(line@, i as int + 1) == eval_row_from(
                            line@,
                            i as int,
                        ));
                    }
                }
            },
            Err(e) => {
                proof {
                    assert(!(spec_eval(line@[i as int]) is Value));
                    assert(eval_row_from(line@, i as int) == Result::<
                        Seq<Seq<char>>,
                        EvalOutcome,
                    >::Err(spec_eval(line@[i as int])));
                    if eval_row_from(line@, 0) is Ok {
                        lemma_eval_row_shape(line@, 0);
                        assert(false);
                    }
                    assert(eval_row_from(line@, 0) == eval_row_from(line@, i as int));
                }
                return Err(e);
            },
        }
        i = i + 1;
    }
    proof {
        lemma_eval_row_complete(line@, row@);
    }
    Ok(row)
}

impl InsertCommand {
    /// Wrap a parsed INSERT: the raw text for error messages, the
    /// qualified table name, the optional column projection, and the
    /// VALUES source.
    pub fn new(
        raw_sql_query: String,
        name: Vec<String>,
        columns: Vec<String>,
        source: InsertSource,
    ) -> (r: InsertCommand)
        ensures
            r.raw_sql_query == raw_sql_query,
            r.name == name,
            r.columns == columns,
            r.source == source,
    {
        InsertCommand { raw_sql_query, name, columns, source }
    }

    /// Run the INSERT: evaluate each expression to its text, insert
    /// through the store, and report `RecordsInserted` with the
    /// supplied row count, or the exact wire error the first failure
    /// prescribes.
    #[verifier::rlimit(100)]
    pub fn execute(&mut self, storage: &mut FrontendStorage) -> (r: SystemResult<
        Result<QueryEvent, QueryError>,
    >)
        requires
            old(storage).wf(),
        ensures
            final(storage).wf(),
            r is Ok,
            r matches Ok(inner) ==> {
                &&& (old(self).name@.len() != 2 ==> {
                    &&& final(storage)@ == old(storage)@
                    &&& inner matches Err(qe) && qe.code@ == "42601"@ && qe.message@
                        == msg_syntax_error(old(self).raw_sql_query@)
                })
                &&& (old(self).name@.len() == 2 && old(self).source is Other ==> {
                    &&& final(storage)@ == old(storage)@
                    &&& inner matches Err(qe) && qe.code@ == "0A000"@ && qe.message@
                        == msg_feature_not_supported(old(self).raw_sql_query@)
                })
                &&& (old(self).source matches InsertSource::Values(values) ==> (old(
                    self,
                ).name@.len() == 2 ==> {
                    let schema = old(self).name@[0]@;
                    let table = old(self).name@[1]@;
                    let vm = values@.map_values(|row: Vec<Expr>| row@);
                    &&& (eval_rows_from(vm, 0) matches Err(EvalOutcome::Syntax(t)) ==> {
                        &&& final(storage)@ == old(storage)@
                        &&& inner matches Err(qe) && qe.code@ == "42601"@ && qe.message@
                            == msg_syntax_error(t)
                    })
                    &&& (eval_rows_from(vm, 0) matches Err(EvalOutcome::OutOfRange) ==> {
                        &&& final(storage)@ == old(storage)@
                        &&& inner matches Err(qe) && qe.code@ == "22003"@ && qe.message@
                            == "bigint out of range"@
                    })
                    &&& (eval_rows_from(vm, 0) matches Err(EvalOutcome::DivisionByZero) ==> {
                        &&& final(storage)@ == old(storage)@
                        &&& inner matches Err(qe) && qe.code@ == "22012"@ && qe.message@
                            == "division by zero"@
                    })
                    &&& (eval_rows_from(vm, 0) matches Ok(rows) ==> {
                        let outcome = insert_outcome(
                            old(storage)@,
                            schema,
                            table,
                            names_model(old(self).columns@),
                            rows,
                        );
                        let si = find_schema(old(storage)@, schema);
                        &&& (outcome is SchemaMissing ==> {
                            &&& final(storage)@ == old(storage)@
                            &&& inner matches Err(qe) && qe.code@ == "3F000"@ && qe.message@
                                == msg_schema_does_not_exist(schema)
                        })
                        &&& (outcome is TableMissing ==> {
                            &&& final(storage)@ == old(storage)@
                            &&& inner matches Err(qe) && qe.code@ == "42P01"@ && qe.message@
                                == msg_table_does_not_exist(schema + "."@ + table)
                        })
                        &&& (outcome matches InsertOutcome::ColumnsMissing(m) ==> {
                            &&& final(storage)@ == old(storage)@
                            &&& inner matches Err(qe) && qe.code@ == "42703"@ && qe.message@
                                == msg_column_does_not_exist(m)
                        })
                        &&& (outcome is ShapeMismatch ==> {
                            &&& final(storage)@ == old(storage)@
                            &&& inner matches Err(qe) && qe.code@ == "42601"@ && qe.message@
                                == "INSERT has more expressions than target columns"@
                        })
                        &&& (outcome matches InsertOutcome::Violations(vs, idx) ==> {
                            &&& final(storage)@ == old(storage)@
                            &&& inner matches Err(qe) && qe.code@ == violation_code(vs[0].0)
                                && qe.message@ == violations_message(vs, idx, 0)
                        })
                        &&& (outcome matches InsertOutcome::Success(stored) ==> {
                            let ti = find_table(old(storage)@[si].tables, table);
                            let ot = old(storage)@[si].tables[ti];
                            &&& inner == Ok::<QueryEvent, QueryError>(
                                QueryEvent::RecordsInserted(values@.len() as usize),
                            )
                            &&& final(storage)@ =~~= old(storage)@.update(
                                si,
                                SchemaModel {
                                    name: old(storage)@[si].name,
                                    tables: old(storage)@[si].tables.update(
                                        ti,
                                        TableModel {
                                            name: ot.name,
                                            columns: ot.columns,
                                            rows: ot.rows.add(stored),
                                        },
                                    ),
                                },
                            )
                        })
                    })
                }))
            },
    {
        if self.name.len() != 2 {
            return Ok(Err(QueryError::syntax_error(self.raw_sql_query.as_str())));
        }
        let schema_name = self.name[0].clone();
        let table_name = self.name[1].clone();
        let values = match &self.source {
            InsertSource::Other => {
                return Ok(Err(QueryError::feature_not_supported(self.raw_sql_query.as_str())));
            },
            InsertSource::Values(values) => values,
        };
        let ghost vm = values@.map_values(|row: Vec<Expr>| row@);

        // evaluate every expression to its text, row-major
        let mut rows: Vec<Vec<String>> = Vec::new();
        let mut failure: Option<EvalError> = None;
        let mut r: usize = 0;
        while r < values.len() && failure.is_none()
            invariant
                0 <= r <= values@.len(),
                vm == values@.map_values(|row: Vec<Expr>| row@),
                failure is None ==> {
                    &&& rows@.len() == r as int
                    &&& (eval_rows_from(vm, 0) matches Ok(all) ==> {
                        &&& eval_rows_from(vm, r as int) is Ok
                        &&& rows_model(rows@) =~= all.take(r as int)
                    })
                    &&& (forall|q: int|
                        0 <= q < r as int ==> (eval_row_from(#[trigger] vm[q], 0) matches Ok(
                            rq,
                        ) && rows_model(rows@)[q] == rq))
                    &&& (eval_rows_from(vm, 0) is Err ==> eval_rows_from(vm, r as int)
                        == eval_rows_from(vm, 0))
                },
                failure matches Some(e) ==> (eval_rows_from(vm, 0) matches Err(out) && match out {
                    EvalOutcome::Value(_) => false,
                    EvalOutcome::Syntax(t) => e matches EvalError::SyntaxError(s) && s@ == t,
                    EvalOutcome::OutOfRange => e == EvalError::OutOfRange,
                    EvalOutcome::DivisionByZero => e == EvalError::DivisionByZero,
                }),
            decreases values@.len() - r,
        {
            let line = &values[r];
            proof {
                assert(line@ == vm[r as int]);
            }
            match eval_one_row(line) {
                Ok(row) => {
                    let ghost pre = rows@;
                    rows.push(row);
                    proof {
                        assert(eval_row_from(vm[r as int], 0) is Ok);
                        assert(rows_model(rows@)[r as int] == crate::storage::row_model(
                            rows@[r as int]@,
                        ));
                        assert(forall|q: int|
                            0 <= q < r as int ==> #[trigger] rows_model(rows@)[q] == rows_model(
                                pre,
                            )[q]);
                        if eval_rows_from(vm, 0) is Ok {
                            let all = eval_rows_from(vm, 0)->Ok_0;
                            lemma_eval_rows_split(vm, r as int);
                            assert(rows_model(rows@) =~= all.take(r as int + 1));
                        } else {
                            assert(eval_rows_from(vm, r as int) is Err);
                            assert(eval_rows_from(vm, r as int + 1) == eval_rows_from(
                                vm,
                                r as int,
                            ));
                        }
                    }
                },
                Err(e) => {
                    proof {
                        assert(eval_row_from(vm[r as int], 0) is Err);
                        assert(eval_rows_from(vm, r as int) == Result::<
                            Seq<Seq<Seq<char>>>,
                            EvalOutcome,
                        >::Err(eval_row_from(vm[r as int], 0)->Err_0));
                        if eval_rows_from(vm, 0) is Ok {
                            lemma_eval_rows_shape(vm, 0);
                            assert(false);
                        }
                        assert(eval_rows_from(vm, 0) == eval_rows_from(vm, r as int));
                    }
                    failure = Some(e);
                },
            }
            r = r + 1;
        }
        match failure {
            Some(EvalError::SyntaxError(t)) => {
                return Ok(Err(QueryError::syntax_error(t.as_str())));
            },
            Some(EvalError::OutOfRange) => {
                return Ok(Err(QueryError::numeric_out_of_range()));
            },
            Some(EvalError::DivisionByZero) => {
                return Ok(Err(QueryError::division_by_zero()));
            },
            None => {},
        }
        proof {
            lemma_eval_rows_complete(vm, rows_model(rows@));
        }
        let row_count = rows.len();

        // the store enforces the shape and the column constraints
        let mut columns: Vec<String> = Vec::new();
        let mut i: usize = 0;
        while i < self.columns.len()
            invariant
                0 <= i <= self.columns@.len(),
                columns@.len() == i as int,
                forall|q: int|
                    0 <= q < i as int ==> #[trigger] names_model(columns@)[q] == names_model(
                        self.columns@,
                    )[q],
            decreases self.columns@.len() - i,
        {
            let ghost pre = columns@;
            columns.push(self.columns[i].clone());
            proof {
                assert(names_model(columns@)[i as int] == self.columns@[i as int]@);
                assert(forall|q: int|
                    0 <= q < i as int ==> #[trigger] names_model(columns@)[q] == names_model(
                        pre,
                    )[q]);
            }
            i = i + 1;
        }
        proof {
            assert(names_model(columns@) =~= names_model(self.columns@));
        }

        let ghost rows_m = rows_model(rows@);
        let ghost names_m = names_model(columns@);
        let ghost oc = insert_outcome(
            old(storage)@,
            schema_name@,
            table_name@,
            names_m,
            rows_m,
        );
        match storage.insert_into(schema_name.as_str(), table_name.as_str(), columns, rows)? {
            Ok(()) => Ok(Ok(QueryEvent::RecordsInserted(row_count))),
            Err(OperationOnTableError::SchemaDoesNotExist) => Ok(
                Err(QueryError::schema_does_not_exist(schema_name.as_str())),
            ),
            Err(OperationOnTableError::TableDoesNotExist) => {
                let qualified = crate::executor::qualified_name(&schema_name, &table_name);
                Ok(Err(QueryError::table_does_not_exist(qualified.as_str())))
            },
            Err(OperationOnTableError::ColumnDoesNotExist(missing)) => {
                proof {
                    match oc {
                        InsertOutcome::ColumnsMissing(m) => {
                            assert(names_model(missing@) =~= m);
                            let ssq = old(storage)@;
                            crate::storage::lemma_find_from(
                                ssq,
                                |s: SchemaModel| s.name == schema_name@,
                                0,
                            );
                            let si2 = find_schema(ssq, schema_name@);
                            assert(si2 != -1);
                            crate::storage::lemma_find_from(
                                ssq[si2].tables,
                                |t: TableModel| t.name == table_name@,
                                0,
                            );
                            let ti2 = find_table(ssq[si2].tables, table_name@);
                            assert(ti2 != -1);
                            let cols = ssq[si2].tables[ti2].columns;
                            let eff = crate::storage::effective_names(cols, names_m);
                            let miss = crate::storage::missing_from(cols, eff, 0);
                            crate::storage::lemma_scan_rows_shape_kinds(cols, eff, rows_m, 0);
                            assert(m == miss && miss.len() > 0);
                            assert(names_model(missing@).len() == missing@.len());
                        },
                        _ => {
                            assert(false);
                        },
                    }
                }
                Ok(Err(QueryError::column_does_not_exist(&missing)))
            },
            Err(OperationOnTableError::InsertTooManyExpressions) => Ok(
                Err(QueryError::too_many_insert_expressions()),
            ),
            Err(OperationOnTableError::ConstraintViolations(violations, row_index)) => {
                proof {
                    match oc {
                        InsertOutcome::Violations(vs, idx) => {
                            assert(crate::storage::violations_model(violations@) =~= vs);
                            assert(vs.len() > 0) by {
                                crate::storage::lemma_scan_rows_violations(
                                    old(storage)@,
                                    schema_name@,
                                    table_name@,
                                    names_m,
                                    rows_m,
                                );
                            }
                            assert(crate::storage::violations_model(violations@).len()
                                == violations@.len());
                        },
                        _ => {
                            assert(false);
                        },
                    }
                }
                Ok(Err(QueryError::constraint_violations(&violations, row_index)))
            },
            Err(OperationOnTableError::TableAlreadyExists) => {
                proof {
                    assert(false);
                }
                unreached()
            },
        }
    }
}

/// A cell evaluated at position `i` extends a clean prefix by one.
proof fn lemma_eval_row_split(row: Seq<Expr>, i: int)
    requires
        0 <= i < row.len(),
        eval_row_from(row, 0) is Ok,
        eval_row_from(row, i) is Ok,
    ensures
        spec_eval(row[i]) is Value,
        eval_row_from(row, i + 1) is Ok,
        eval_row_from(row, 0)->Ok_0.take(i + 1) =~= eval_row_from(row, 0)->Ok_0.take(i).push(
            spec_eval(row[i])->Value_0,
        ),
        eval_row_from(row, 0)->Ok_0.len() == row.len(),
    decreases row.len(),
{
    lemma_eval_row_shape(row, 0);
    assert(spec_eval(row[i]) is Value && eval_row_from(row, i + 1) is Ok) by {
        lemma_eval_row_shape(row, i);
    }
    lemma_eval_row_index(row, 0, i);
    assert(eval_row_from(row, 0)->Ok_0[i] == spec_eval(row[i])->Value_0);
}

/// A clean row evaluation has one output cell per expression, each
/// the value of its expression.
proof fn lemma_eval_row_shape(row: Seq<Expr>, i: int)
    requires
        0 <= i <= row.len(),
        eval_row_from(row, i) is Ok,
    ensures
        eval_row_from(row, i)->Ok_0.len() == row.len() - i,
        forall|j: int|
            i <= j < row.len() ==> spec_eval(#[trigger] row[j]) is Value && eval_row_from(
                row,
                j,
            ) is Ok,
    decreases row.len() - i,
{
    if i < row.len() {
        match spec_eval(row[i]) {
            EvalOutcome::Value(_) => {
                lemma_eval_row_shape(row, i + 1);
            },
            _ => {},
        }
    }
}

/// The cells a clean evaluation yields, by index.
proof fn lemma_eval_row_index(row: Seq<Expr>, i: int, j: int)
    requires
        0 <= i <= j < row.len(),
        eval_row_from(row, i) is Ok,
    ensures
        eval_row_from(row, i)->Ok_0[j - i] == spec_eval(row[j])->Value_0,
    decreases j - i,
{
    lemma_eval_row_shape(row, i);
    if i < j {
        lemma_eval_row_index(row, i + 1, j);
        lemma_eval_row_shape(row, i + 1);
    }
}




/// A row whose every cell evaluated cleanly evaluates cleanly as a
/// whole, to exactly those cells.
proof fn lemma_eval_row_complete(row: Seq<Expr>, cells: Seq<String>)
    requires
        crate::storage::row_model(cells).len() == row.len(),
        forall|q: int|
            0 <= q < row.len() ==> spec_eval(#[trigger] row[q]) is Value
                && crate::storage::row_model(cells)[q] == spec_eval(row[q])->Value_0,
    ensures
        eval_row_from(row, 0) is Ok,
        eval_row_from(row, 0)->Ok_0 =~= crate::storage::row_model(cells),
{
    lemma_eval_row_all_values(row, 0);
    lemma_eval_row_shape(row, 0);
    assert forall|q: int|
        0 <= q < row.len() implies eval_row_from(row, 0)->Ok_0[q] == crate::storage::row_model(
        cells,
    )[q] by {
        lemma_eval_row_index(row, 0, q);
    }
}

/// Every cell a value: the row evaluation from any position is Ok.
proof fn lemma_eval_row_all_values(row: Seq<Expr>, i: int)
    requires
        0 <= i <= row.len(),
        forall|q: int| 0 <= q < row.len() ==> spec_eval(#[trigger] row[q]) is Value,
    ensures
        eval_row_from(row, i) is Ok,
    decreases row.len() - i,
{
    if i < row.len() {
        lemma_eval_row_all_values(row, i + 1);
    }
}

/// Every row clean: the whole evaluation is Ok, to exactly the rows
/// built.
proof fn lemma_eval_rows_complete(values: Seq<Seq<Expr>>, built: Seq<Seq<Seq<char>>>)
    requires
        built.len() == values.len(),
        forall|q: int|
            0 <= q < values.len() ==> (eval_row_from(#[trigger] values[q], 0) matches Ok(rq)
                && built[q] == rq),
    ensures
        eval_rows_from(values, 0) is Ok,
        eval_rows_from(values, 0)->Ok_0 =~= built,
{
    lemma_eval_rows_all_ok(values, 0);
    assert forall|q: int|
        0 <= q < values.len() implies eval_rows_from(values, 0)->Ok_0[q] == built[q] by {
        lemma_eval_rows_index(values, 0, q);
    }
    lemma_eval_rows_shape(values, 0);
}

/// Every row clean: the evaluation from any position is Ok.
proof fn lemma_eval_rows_all_ok(values: Seq<Seq<Expr>>, r: int)
    requires
        0 <= r <= values.len(),
        forall|q: int| 0 <= q < values.len() ==> eval_row_from(#[trigger] values[q], 0) is Ok,
    ensures
        eval_rows_from(values, r) is Ok,
    decreases values.len() - r,
{
    if r < values.len() {
        lemma_eval_rows_all_ok(values, r + 1);
    }
}

/// A clean whole evaluation has one output row per supplied row.
proof fn lemma_eval_rows_shape(values: Seq<Seq<Expr>>, r: int)
    requires
        0 <= r <= values.len(),
        eval_rows_from(values, r) is Ok,
    ensures
        eval_rows_from(values, r)->Ok_0.len() == values.len() - r,
        forall|j: int| r <= j < values.len() ==> eval_rows_from(values, j) is Ok,
    decreases values.len() - r,
{
    if r < values.len() {
        match eval_row_from(values[r], 0) {
            Result::Ok(_) => {
                lemma_eval_rows_shape(values, r + 1);
            },
            Result::Err(_) => {},
        }
    }
}

/// The rows a clean whole evaluation yields, by index.
proof fn lemma_eval_rows_index(values: Seq<Seq<Expr>>, r: int, j: int)
    requires
        0 <= r <= j < values.len(),
        eval_rows_from(values, r) is Ok,
    ensures
        eval_row_from(values[j], 0) is Ok,
        eval_rows_from(values, r)->Ok_0[j - r] == eval_row_from(values[j], 0)->Ok_0,
    decreases j - r,
{
    lemma_eval_rows_shape(values, r);
    if r < j {
        lemma_eval_rows_index(values, r + 1, j);
        lemma_eval_rows_shape(values, r + 1);
    }
}

/// A clean prefix step: the whole result's prefix grows by the row.
proof fn lemma_eval_rows_split(values: Seq<Seq<Expr>>, r: int)
    requires
        0 <= r < values.len(),
        eval_rows_from(values, 0) is Ok,
    ensures
        eval_row_from(values[r], 0) is Ok,
        eval_rows_from(values, 0)->Ok_0.take(r + 1) =~= eval_rows_from(values, 0)->Ok_0.take(
            r,
        ).push(eval_row_from(values[r], 0)->Ok_0),
        eval_rows_from(values, 0)->Ok_0.len() == values.len(),
{
    lemma_eval_rows_shape(values, 0);
    lemma_eval_rows_index(values, 0, r);
}

} // verus!
