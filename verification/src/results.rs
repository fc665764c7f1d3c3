//! What a statement sends back to the client: a success event, or a
//! query error carrying a severity, a SQLSTATE code, and a message
//! built to a fixed template.

use vstd::prelude::*;
use crate::types::{ColumnDefinition, ColumnModel, ConstraintError, ConstraintErrorModel,
    PostgreSqlType, SqlType};
use crate::storage::violations_model;
use crate::text::{dec_text, format_usize, format_u64};

verus! {

/// A statement that went through, with what it did.
#[derive(Clone, PartialEq, Debug)]
pub enum QueryEvent {
    SchemaCreated,
    SchemaDropped,
    TableCreated,
    TableDropped,
    /// How many rows an INSERT stored.
    RecordsInserted(usize),
    /// A SELECT reply: each projected column's name and wire type,
    /// and the projected rows in insertion order.
    RecordsSelected(Vec<(String, PostgreSqlType)>, Vec<Vec<String>>),
}

/// A client-visible failure: severity, SQLSTATE code, message.
#[derive(Clone, PartialEq, Eq, Debug)]
pub struct QueryError {
    pub severity: String,
    pub code: String,
    pub message: String,
}

/// Template: schema "<name>" does not exist.
pub open spec fn msg_schema_does_not_exist(name: Seq<char>) -> Seq<char> {
    "schema \""@ + name + "\" does not exist"@
}

/// Template: schema "<name>" already exists.
pub open spec fn msg_schema_already_exists(name: Seq<char>) -> Seq<char> {
    "schema \""@ + name + "\" already exists"@
}

/// Template: relation "<qualified>" does not exist.
pub open spec fn msg_table_does_not_exist(name: Seq<char>) -> Seq<char> {
    "relation \""@ + name + "\" does not exist"@
}

/// Template: relation "<qualified>" already exists.
pub open spec fn msg_table_already_exists(name: Seq<char>) -> Seq<char> {
    "relation \""@ + name + "\" already exists"@
}

/// The projection names that were not found, joined by a comma and a
/// space, from position `i` on.
pub open spec fn joined_names(names: Seq<Seq<char>>, i: int) -> Seq<char>
    decreases names.len() - i,
{
    if i < 0 || i >= names.len() {
        Seq::empty()
    } else if i == names.len() - 1 {
        names[i]
    } else {
        names[i] + ", "@ + joined_names(names, i + 1)
    }
}

/// Template: column <name> does not exist, over every missing name.
pub open spec fn msg_column_does_not_exist(names: Seq<Seq<char>>) -> Seq<char> {
    if names.len() == 1 {
        "column "@ + names[0] + " does not exist"@
    } else {
        "columns "@ + joined_names(names, 0) + " do not exist"@
    }
}

/// Template: column "<name>" specified more than once.
pub open spec fn msg_duplicate_column(name: Seq<char>) -> Seq<char> {
    "column \""@ + name + "\" specified more than once"@
}

/// Template: syntax error at or near "<token>".
pub open spec fn msg_syntax_error(token: Seq<char>) -> Seq<char> {
    "syntax error at or near \""@ + token + "\""@
}

/// Template: feature not supported: <raw_sql>.
pub open spec fn msg_feature_not_supported(raw: Seq<char>) -> Seq<char> {
    "feature not supported: "@ + raw
}

/// Template: <type> out of range at column <name> row <idx>.
pub open spec fn msg_out_of_range(t: PostgreSqlType, column: Seq<char>, row: int) -> Seq<char> {
    t.spec_name() + " out of range at column "@ + column + " row "@ + dec_text(row)
}

/// Template: invalid input syntax for type <type>: "<value>".
pub open spec fn msg_type_mismatch(t: PostgreSqlType, value: Seq<char>) -> Seq<char> {
    "invalid input syntax for type "@ + t.spec_name() + ": \""@ + value + "\""@
}

/// Template: value too long for type <type>(<n>).
pub open spec fn msg_value_too_long(t: PostgreSqlType, len: int) -> Seq<char> {
    "value too long for type "@ + t.spec_name() + "("@ + dec_text(len) + ")"@
}

/// The declared character bound of a column type, or the fallback
/// for types that have none.
pub open spec fn declared_length(t: SqlType, fallback: int) -> int {
    match t {
        SqlType::Char(n) => n as int,
        SqlType::VarChar(n) => n as int,
        _ => fallback,
    }
}

/// The message one constraint violation contributes, beside the
/// column that refused the cell and the index of the offending row.
pub open spec fn violation_message(
    e: ConstraintErrorModel,
    c: ColumnModel,
    row: int,
) -> Seq<char> {
    match e {
        ConstraintErrorModel::OutOfRange => msg_out_of_range(
            c.sql_type.spec_pg_type(),
            c.name,
            row,
        ),
        ConstraintErrorModel::TypeMismatch(v) => msg_type_mismatch(
            c.sql_type.spec_pg_type(),
            v,
        ),
        ConstraintErrorModel::ValueTooLong(n) => msg_value_too_long(
            c.sql_type.spec_pg_type(),
            declared_length(c.sql_type, n),
        ),
    }
}

/// SQLSTATE of one constraint violation kind.
pub open spec fn violation_code(e: ConstraintErrorModel) -> Seq<char> {
    match e {
        ConstraintErrorModel::OutOfRange => "22003"@,
        ConstraintErrorModel::TypeMismatch(_) => "2200F"@,
        ConstraintErrorModel::ValueTooLong(_) => "22026"@,
    }
}

/// All violation messages of one row, joined by a line break, from
/// position `i` on.
pub open spec fn violations_message(
    vs: Seq<(ConstraintErrorModel, ColumnModel)>,
    row: int,
    i: int,
) -> Seq<char>
    decreases vs.len() - i,
{
    if i < 0 || i >= vs.len() {
        Seq::empty()
    } else if i == vs.len() - 1 {
        violation_message(vs[i].0, vs[i].1, row)
    } else {
        violation_message(vs[i].0, vs[i].1, row) + "\n"@ + violations_message(vs, row, i + 1)
    }
}

impl QueryError {
    fn with_message(code: &str, message: String) -> (r: QueryError)
        ensures
            r.severity@ == "ERROR"@,
            r.code@ == code@,
            r.message@ == message@,
    {
        QueryError {
            severity: String::from_str("ERROR"),
            code: String::from_str(code),
            message,
        }
    }

    /// The named schema is not there.  SQLSTATE 3F000.
    pub fn schema_does_not_exist(name: &str) -> (r: QueryError)
        ensures
            r.severity@ == "ERROR"@,
            r.code@ == "3F000"@,
            r.message@ == msg_schema_does_not_exist(name@),
    {
        let mut m = String::from_str("schema \"");
        m.append(name);
        m.append("\" does not exist");
        proof {
            assert(m@ =~= msg_schema_does_not_exist(name@));
        }
        QueryError::with_message("3F000", m)
    }

    /// The named schema is already there.  SQLSTATE 42P06.
    pub fn schema_already_exists(name: &str) -> (r: QueryError)
        ensures
            r.severity@ == "ERROR"@,
            r.code@ == "42P06"@,
            r.message@ == msg_schema_already_exists(name@),
    {
        let mut m = String::from_str("schema \"");
        m.append(name);
        m.append("\" already exists");
        proof {
            assert(m@ =~= msg_schema_already_exists(name@));
        }
        QueryError::with_message("42P06", m)
    }

    /// The named relation is not there.  SQLSTATE 42P01.
    pub fn table_does_not_exist(name: &str) -> (r: QueryError)
        ensures
            r.severity@ == "ERROR"@,
            r.code@ == "42P01"@,
            r.message@ == msg_table_does_not_exist(name@),
    {
        let mut m = String::from_str("relation \"");
        m.append(name);
        m.append("\" does not exist");
        proof {
            assert(m@ =~= msg_table_does_not_exist(name@));
        }
        QueryError::with_message("42P01", m)
    }

    /// The named relation is already there.  SQLSTATE 42P07.
    pub fn table_already_exists(name: &str) -> (r: QueryError)
        ensures
            r.severity@ == "ERROR"@,
            r.code@ == "42P07"@,
            r.message@ == msg_table_already_exists(name@),
    {
        let mut m = String::from_str("relation \"");
        m.append(name);
        m.append("\" already exists");
        proof {
            assert(m@ =~= msg_table_already_exists(name@));
        }
        QueryError::with_message("42P07", m)
    }

    /// The projection named columns the table does not have.
    /// SQLSTATE 42703.
    pub fn column_does_not_exist(names: &Vec<String>) -> (r: QueryError)
        requires
            names@.len() >= 1,
        ensures
            r.severity@ == "ERROR"@,
            r.code@ == "42703"@,
            r.message@ == msg_column_does_not_exist(names@.map_values(|s: String| s@)),
    {
        let ghost nm = names@.map_values(|s: String| s@);
        if names.len() == 1 {
            let mut m = String::from_str("column ");
            m.append(names[0].as_str());
            m.append(" does not exist");
            proof {
                assert(m@ =~= msg_column_does_not_exist(nm));
            }
            QueryError::with_message("42703", m)
        } else {
            let mut m = String::from_str("columns ");
            let mut i: usize = 0;
            let mut joined = String::new();
            while i < names.len()
                invariant
                    0 <= i <= names@.len(),
                    names@.len() >= 2,
                    nm == names@.map_values(|s: String| s@),
                    i < names@.len() ==> joined_names(nm, 0) =~= joined@ + joined_names(
                        nm,
                        i as int,
                    ),
                    i == names@.len() ==> joined_names(nm, 0) =~= joined@,
                decreases names@.len() - i,
            {
                joined.append(names[i].as_str());
                if i + 1 < names.len() {
                    joined.append(", ");
                    proof {
                        assert(joined_names(nm, i as int) =~= nm[i as int] + ", "@
                            + joined_names(nm, i as int + 1));
                        assert(joined_names(nm, 0) =~= joined@ + joined_names(
                            nm,
                            i as int + 1,
                        ));
                    }
                } else {
                    proof {
                        assert(joined_names(nm, i as int) == nm[i as int]);
                        assert(joined_names(nm, 0) =~= joined@);
                    }
                }
                i = i + 1;
            }
            m.append(joined.as_str());
            m.append(" do not exist");
            proof {
                assert(m@ =~= msg_column_does_not_exist(nm));
            }
            QueryError::with_message("42703", m)
        }
    }

    /// A CREATE TABLE that names one column twice.  SQLSTATE 42701.
    pub fn duplicate_column(name: &str) -> (r: QueryError)
        ensures
            r.severity@ == "ERROR"@,
            r.code@ == "42701"@,
            r.message@ == msg_duplicate_column(name@),
    {
        let mut m = String::from_str("column \"");
        m.append(name);
        m.append("\" specified more than once");
        proof {
            assert(m@ =~= msg_duplicate_column(name@));
        }
        QueryError::with_message("42701", m)
    }

    /// A token the statement reader cannot take.  SQLSTATE 42601.
    pub fn syntax_error(token: &str) -> (r: QueryError)
        ensures
            r.severity@ == "ERROR"@,
            r.code@ == "42601"@,
            r.message@ == msg_syntax_error(token@),
    {
        let mut m = String::from_str("syntax error at or near \"");
        m.append(token);
        m.append("\"");
        proof {
            assert(m@ =~= msg_syntax_error(token@));
        }
        QueryError::with_message("42601", m)
    }

    /// A statement kind the core does not run.  SQLSTATE 0A000.
    pub fn feature_not_supported(raw_sql: &str) -> (r: QueryError)
        ensures
            r.severity@ == "ERROR"@,
            r.code@ == "0A000"@,
            r.message@ == msg_feature_not_supported(raw_sql@),
    {
        let mut m = String::from_str("feature not supported: ");
        m.append(raw_sql);
        proof {
            assert(m@ =~= msg_feature_not_supported(raw_sql@));
        }
        QueryError::with_message("0A000", m)
    }

    /// An INSERT whose expressions do not match the table's columns
    /// one for one.  SQLSTATE 42601.
    pub fn too_many_insert_expressions() -> (r: QueryError)
        ensures
            r.severity@ == "ERROR"@,
            r.code@ == "42601"@,
            r.message@ == "INSERT has more expressions than target columns"@,
    {
        QueryError::with_message(
            "42601",
            String::from_str("INSERT has more expressions than target columns"),
        )
    }

    /// Division or remainder by zero in an expression.  SQLSTATE
    /// 22012.
    pub fn division_by_zero() -> (r: QueryError)
        ensures
            r.severity@ == "ERROR"@,
            r.code@ == "22012"@,
            r.message@ == "division by zero"@,
    {
        QueryError::with_message("22012", String::from_str("division by zero"))
    }

    /// Arithmetic in an expression left the integer range.  SQLSTATE
    /// 22003.
    pub fn numeric_out_of_range() -> (r: QueryError)
        ensures
            r.severity@ == "ERROR"@,
            r.code@ == "22003"@,
            r.message@ == "bigint out of range"@,
    {
        QueryError::with_message("22003", String::from_str("bigint out of range"))
    }

    /// An unexpected failure of the store or the connection.
    /// SQLSTATE XX000.
    pub fn system_error() -> (r: QueryError)
        ensures
            r.severity@ == "ERROR"@,
            r.code@ == "XX000"@,
            r.message@ == "internal error"@,
    {
        QueryError::with_message("XX000", String::from_str("internal error"))
    }

    /// Every constraint violation of one row, in one response: the
    /// code of the first violation, the messages of all of them
    /// joined by line breaks.  SQLSTATE per violation kind.
    pub fn constraint_violations(
        violations: &Vec<(ConstraintError, ColumnDefinition)>,
        row_index: usize,
    ) -> (r: QueryError)
        requires
            violations@.len() >= 1,
        ensures
            r.severity@ == "ERROR"@,
            r.code@ == violation_code(violations@[0].0@),
            r.message@ == violations_message(violations_model(violations@), row_index as int, 0),
    {
        let ghost vs = violations_model(violations@);
        let mut m = String::new();
        let mut i: usize = 0;
        while i < violations.len()
            invariant
                0 <= i <= vs.len(),
                vs.len() >= 1,
                vs.len() == violations@.len(),
                vs == violations_model(violations@),
                i < vs.len() ==> violations_message(vs, row_index as int, 0) =~= m@
                    + violations_message(vs, row_index as int, i as int),
                i == vs.len() ==> violations_message(vs, row_index as int, 0) =~= m@,
            decreases vs.len() - i,
        {
            let (e, c) = &violations[i];
            let t = c.sql_type.to_pg_types();
            let piece: String = match e {
                ConstraintError::OutOfRange => {
                    let mut p = t.name();
                    p.append(" out of range at column ");
                    p.append(c.name.as_str());
                    p.append(" row ");
                    let idx = format_usize(row_index);
                    p.append(idx.as_str());
                    proof {
                        assert(p@ =~= msg_out_of_range(
                            c.sql_type.spec_pg_type(),
                            c.name@,
                            row_index as int,
                        ));
                        assert(vs[i as int] == (e@, c@));
                    }
                    p
                },
                ConstraintError::TypeMismatch(v) => {
                    let mut p = String::from_str("invalid input syntax for type ");
                    let tn = t.name();
                    p.append(tn.as_str());
                    p.append(": \"");
                    p.append(v.as_str());
                    p.append("\"");
                    proof {
                        assert(p@ =~= msg_type_mismatch(c.sql_type.spec_pg_type(), v@));
                    }
                    p
                },
                ConstraintError::ValueTooLong(n) => {
                    let mut p = String::from_str("value too long for type ");
                    let tn = t.name();
                    p.append(tn.as_str());
                    p.append("(");
                    let bound: u64 = match c.sql_type {
                        SqlType::Char(b) => b,
                        SqlType::VarChar(b) => b,
                        _ => *n,
                    };
                    let ln = format_u64(bound);
                    p.append(ln.as_str());
                    p.append(")");
                    proof {
                        assert(bound as int == declared_length(c.sql_type, *n as int));
                        assert(p@ =~= msg_value_too_long(
                            c.sql_type.spec_pg_type(),
                            declared_length(c.sql_type, *n as int),
                        ));
                    }
                    p
                },
            };
            proof {
                assert(vs[i as int] == (e@, c@));
                assert(piece@ == violation_message(vs[i as int].0, vs[i as int].1, row_index as int));
            }
            m.append(piece.as_str());
            if i + 1 < violations.len() {
                m.append("\n");
                proof {
                    reveal_strlit("\n");
                    assert(violations_message(vs, row_index as int, i as int) =~= piece@ + "\n"@
                        + violations_message(vs, row_index as int, i as int + 1));
                    assert(violations_message(vs, row_index as int, 0) =~= m@
                        + violations_message(vs, row_index as int, i as int + 1));
                }
            } else {
                proof {
                    assert(violations_message(vs, row_index as int, i as int) == piece@);
                    assert(violations_message(vs, row_index as int, 0) =~= m@);
                }
            }
            i = i + 1;
        }
        let code: &str = match &violations[0].0 {
            ConstraintError::OutOfRange => "22003",
            ConstraintError::TypeMismatch(_) => "2200F",
            ConstraintError::ValueTooLong(_) => "22026",
        };
        QueryError::with_message(code, m)
    }
}

} // verus!
