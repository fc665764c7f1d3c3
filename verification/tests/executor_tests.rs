use smalldb::executor::{execute_statement, SchemaId, Statement};
use smalldb::expr::{ArithOp, Expr};
use smalldb::insert::{InsertCommand, InsertSource};
use smalldb::results::QueryEvent;
use smalldb::storage::FrontendStorage;
use smalldb::types::{ColumnDefinition, PostgreSqlType, SqlType};

fn column(name: &str, sql_type: SqlType) -> ColumnDefinition {
    ColumnDefinition {
        name: name.to_owned(),
        sql_type,
    }
}

fn create_schema(storage: &mut FrontendStorage, name: &str) {
    let r = execute_statement(
        Statement::CreateSchema(SchemaId::from(name.to_owned())),
        storage,
    )
    .expect("no system errors");
    assert_eq!(r, Ok(QueryEvent::SchemaCreated));
}

fn create_small_int_table(storage: &mut FrontendStorage) {
    let r = execute_statement(
        Statement::CreateTable {
            schema: "s".to_owned(),
            table: "t".to_owned(),
            columns: vec![
                column("c1", SqlType::SmallInt),
                column("c2", SqlType::SmallInt),
                column("c3", SqlType::SmallInt),
            ],
        },
        storage,
    )
    .expect("no system errors");
    assert_eq!(r, Ok(QueryEvent::TableCreated));
}

fn insert_values(raw: &str, values: Vec<Vec<Expr>>) -> Statement {
    Statement::Insert(InsertCommand::new(
        raw.to_owned(),
        vec!["s".to_owned(), "t".to_owned()],
        vec![],
        InsertSource::Values(values),
    ))
}

fn number(n: &str) -> Expr {
    Expr::Number(n.to_owned())
}

#[test]
fn create_schema_twice_reports_already_exists() {
    let mut storage = FrontendStorage::new();
    create_schema(&mut storage, "s");
    let r = execute_statement(
        Statement::CreateSchema(SchemaId::from("s".to_owned())),
        &mut storage,
    )
    .expect("no system errors");
    let e = r.expect_err("second CREATE SCHEMA is refused");
    assert_eq!(e.code, "42P06");
    assert_eq!(e.message, "schema \"s\" already exists");
    assert_eq!(e.severity, "ERROR");
}

#[test]
fn drop_schema_then_recreate() {
    let mut storage = FrontendStorage::new();
    create_schema(&mut storage, "s");
    let r = execute_statement(
        Statement::DropSchema(SchemaId::from("s".to_owned())),
        &mut storage,
    )
    .expect("no system errors");
    assert_eq!(r, Ok(QueryEvent::SchemaDropped));
    create_schema(&mut storage, "s");
}

#[test]
fn drop_missing_schema_reports_does_not_exist() {
    let mut storage = FrontendStorage::new();
    let r = execute_statement(
        Statement::DropSchema(SchemaId::from("nope".to_owned())),
        &mut storage,
    )
    .expect("no system errors");
    let e = r.expect_err("DROP SCHEMA on nothing is refused");
    assert_eq!(e.code, "3F000");
    assert_eq!(e.message, "schema \"nope\" does not exist");
}

#[test]
fn insert_then_select_reordered_columns() {
    let mut storage = FrontendStorage::new();
    create_schema(&mut storage, "s");
    create_small_int_table(&mut storage);

    let r = execute_statement(
        insert_values(
            "INSERT INTO s.t VALUES (1,2,3),(4,5,6),(7,8,9)",
            vec![
                vec![number("1"), number("2"), number("3")],
                vec![number("4"), number("5"), number("6")],
                vec![number("7"), number("8"), number("9")],
            ],
        ),
        &mut storage,
    )
    .expect("no system errors");
    assert_eq!(r, Ok(QueryEvent::RecordsInserted(3)));

    let r = execute_statement(
        Statement::Select {
            schema: "s".to_owned(),
            table: "t".to_owned(),
            projection: vec!["c3".to_owned(), "c1".to_owned(), "c2".to_owned()],
        },
        &mut storage,
    )
    .expect("no system errors");
    assert_eq!(
        r,
        Ok(QueryEvent::RecordsSelected(
            vec![
                ("c3".to_owned(), PostgreSqlType::SmallInt),
                ("c1".to_owned(), PostgreSqlType::SmallInt),
                ("c2".to_owned(), PostgreSqlType::SmallInt),
            ],
            vec![
                vec!["3".to_owned(), "1".to_owned(), "2".to_owned()],
                vec!["6".to_owned(), "4".to_owned(), "5".to_owned()],
                vec!["9".to_owned(), "7".to_owned(), "8".to_owned()],
            ],
        ))
    );
}

#[test]
fn out_of_range_small_int_reports_column_and_row() {
    let mut storage = FrontendStorage::new();
    create_schema(&mut storage, "s");
    create_small_int_table(&mut storage);

    let r = execute_statement(
        insert_values(
            "INSERT INTO s.t VALUES (40000, 0, 0)",
            vec![vec![number("40000"), number("0"), number("0")]],
        ),
        &mut storage,
    )
    .expect("no system errors");
    let e = r.expect_err("the out-of-range cell is refused");
    assert_eq!(e.code, "22003");
    assert_eq!(e.message, "smallint out of range at column c1 row 0");
}

#[test]
fn too_few_insert_expressions_are_refused() {
    let mut storage = FrontendStorage::new();
    create_schema(&mut storage, "s");
    create_small_int_table(&mut storage);

    let r = execute_statement(
        insert_values(
            "INSERT INTO s.t VALUES (1, 2)",
            vec![vec![number("1"), number("2")]],
        ),
        &mut storage,
    )
    .expect("no system errors");
    let e = r.expect_err("a two-cell row does not fit three columns");
    assert_eq!(e.code, "42601");
    assert_eq!(e.message, "INSERT has more expressions than target columns");
}

#[test]
fn insert_into_missing_table_reports_qualified_name() {
    let mut storage = FrontendStorage::new();
    create_schema(&mut storage, "s");
    let r = execute_statement(
        insert_values("INSERT INTO s.t VALUES (1)", vec![vec![number("1")]]),
        &mut storage,
    )
    .expect("no system errors");
    let e = r.expect_err("the table is not there");
    assert_eq!(e.code, "42P01");
    assert_eq!(e.message, "relation \"s.t\" does not exist");
}

#[test]
fn unsupported_statement_reports_raw_sql() {
    let mut storage = FrontendStorage::new();
    let r = execute_statement(
        Statement::Unsupported("TRUNCATE TABLE s.t".to_owned()),
        &mut storage,
    )
    .expect("no system errors");
    let e = r.expect_err("TRUNCATE is not run");
    assert_eq!(e.code, "0A000");
    assert_eq!(e.message, "feature not supported: TRUNCATE TABLE s.t");
}

#[test]
fn expressions_evaluate_before_storing() {
    let mut storage = FrontendStorage::new();
    create_schema(&mut storage, "s");
    create_small_int_table(&mut storage);

    let r = execute_statement(
        insert_values(
            "INSERT INTO s.t VALUES (2 + 3, 10 / 4, -7)",
            vec![vec![
                Expr::Binary(ArithOp::Plus, Box::new(number("2")), Box::new(number("3"))),
                Expr::Binary(ArithOp::Divide, Box::new(number("10")), Box::new(number("4"))),
                Expr::Minus(Box::new(number("7"))),
            ]],
        ),
        &mut storage,
    )
    .expect("no system errors");
    assert_eq!(r, Ok(QueryEvent::RecordsInserted(1)));

    let r = execute_statement(
        Statement::Select {
            schema: "s".to_owned(),
            table: "t".to_owned(),
            projection: vec!["c1".to_owned(), "c2".to_owned(), "c3".to_owned()],
        },
        &mut storage,
    )
    .expect("no system errors");
    assert_eq!(
        r,
        Ok(QueryEvent::RecordsSelected(
            vec![
                ("c1".to_owned(), PostgreSqlType::SmallInt),
                ("c2".to_owned(), PostgreSqlType::SmallInt),
                ("c3".to_owned(), PostgreSqlType::SmallInt),
            ],
            vec![vec!["5".to_owned(), "2".to_owned(), "-7".to_owned()]],
        ))
    );
}

#[test]
fn division_by_zero_is_reported() {
    let mut storage = FrontendStorage::new();
    create_schema(&mut storage, "s");
    create_small_int_table(&mut storage);

    let r = execute_statement(
        insert_values(
            "INSERT INTO s.t VALUES (1 / 0, 0, 0)",
            vec![vec![
                Expr::Binary(ArithOp::Divide, Box::new(number("1")), Box::new(number("0"))),
                number("0"),
                number("0"),
            ]],
        ),
        &mut storage,
    )
    .expect("no system errors");
    let e = r.expect_err("dividing by zero is refused");
    assert_eq!(e.code, "22012");
    assert_eq!(e.message, "division by zero");
}

#[test]
fn arithmetic_overflow_is_out_of_range() {
    let mut storage = FrontendStorage::new();
    create_schema(&mut storage, "s");
    create_small_int_table(&mut storage);

    let r = execute_statement(
        insert_values(
            "INSERT INTO s.t VALUES (9223372036854775807 + 1, 0, 0)",
            vec![vec![
                Expr::Binary(
                    ArithOp::Plus,
                    Box::new(number("9223372036854775807")),
                    Box::new(number("1")),
                ),
                number("0"),
                number("0"),
            ]],
        ),
        &mut storage,
    )
    .expect("no system errors");
    let e = r.expect_err("the sum leaves 64 bits");
    assert_eq!(e.code, "22003");
    assert_eq!(e.message, "bigint out of range");
}

#[test]
fn unsupported_expression_is_a_syntax_error() {
    let mut storage = FrontendStorage::new();
    create_schema(&mut storage, "s");
    create_small_int_table(&mut storage);

    let r = execute_statement(
        insert_values(
            "INSERT INTO s.t VALUES (now(), 0, 0)",
            vec![vec![Expr::Unsupported("now()".to_owned()), number("0"), number("0")]],
        ),
        &mut storage,
    )
    .expect("no system errors");
    let e = r.expect_err("an unsupported shape is refused");
    assert_eq!(e.code, "42601");
    assert_eq!(e.message, "syntax error at or near \"now()\"");
}

#[test]
fn single_part_table_name_is_rejected() {
    let mut storage = FrontendStorage::new();
    let r = execute_statement(
        Statement::Insert(InsertCommand::new(
            "INSERT INTO t VALUES (1)".to_owned(),
            vec!["t".to_owned()],
            vec![],
            InsertSource::Values(vec![vec![number("1")]]),
        )),
        &mut storage,
    )
    .expect("no system errors");
    let e = r.expect_err("the statement must name schema and table");
    assert_eq!(e.code, "42601");
}

#[test]
fn cast_to_boolean_evaluates() {
    let mut storage = FrontendStorage::new();
    create_schema(&mut storage, "s");
    let r = execute_statement(
        Statement::CreateTable {
            schema: "s".to_owned(),
            table: "b".to_owned(),
            columns: vec![column("flag", SqlType::Boolean)],
        },
        &mut storage,
    )
    .expect("no system errors");
    assert_eq!(r, Ok(QueryEvent::TableCreated));

    let r = execute_statement(
        Statement::Insert(InsertCommand::new(
            "INSERT INTO s.b VALUES (CAST(true AS BOOLEAN))".to_owned(),
            vec!["s".to_owned(), "b".to_owned()],
            vec![],
            InsertSource::Values(vec![vec![Expr::CastToBool(Box::new(Expr::Bool(true)))]]),
        )),
        &mut storage,
    )
    .expect("no system errors");
    assert_eq!(r, Ok(QueryEvent::RecordsInserted(1)));
}

#[test]
fn duplicate_create_table_column_is_refused() {
    let mut storage = FrontendStorage::new();
    create_schema(&mut storage, "s");
    let r = execute_statement(
        Statement::CreateTable {
            schema: "s".to_owned(),
            table: "t".to_owned(),
            columns: vec![column("c1", SqlType::SmallInt), column("c1", SqlType::SmallInt)],
        },
        &mut storage,
    )
    .expect("no system errors");
    let e = r.expect_err("a column named twice is refused");
    assert_eq!(e.code, "42701");
    assert_eq!(e.message, "column \"c1\" specified more than once");
}

#[test]
fn select_with_unknown_columns_lists_them() {
    let mut storage = FrontendStorage::new();
    create_schema(&mut storage, "s");
    create_small_int_table(&mut storage);
    let r = execute_statement(
        Statement::Select {
            schema: "s".to_owned(),
            table: "t".to_owned(),
            projection: vec!["nope".to_owned(), "c1".to_owned(), "also_nope".to_owned()],
        },
        &mut storage,
    )
    .expect("no system errors");
    let e = r.expect_err("unknown columns are refused");
    assert_eq!(e.code, "42703");
    assert_eq!(e.message, "columns nope, also_nope do not exist");
}

#[test]
fn select_with_one_unknown_column_is_singular() {
    let mut storage = FrontendStorage::new();
    create_schema(&mut storage, "s");
    create_small_int_table(&mut storage);
    let r = execute_statement(
        Statement::Select {
            schema: "s".to_owned(),
            table: "t".to_owned(),
            projection: vec!["nope".to_owned()],
        },
        &mut storage,
    )
    .expect("no system errors");
    let e = r.expect_err("the unknown column is refused");
    assert_eq!(e.code, "42703");
    assert_eq!(e.message, "column nope does not exist");
}

#[test]
fn create_table_twice_reports_already_exists() {
    let mut storage = FrontendStorage::new();
    create_schema(&mut storage, "s");
    create_small_int_table(&mut storage);
    let r = execute_statement(
        Statement::CreateTable {
            schema: "s".to_owned(),
            table: "t".to_owned(),
            columns: vec![column("c1", SqlType::SmallInt)],
        },
        &mut storage,
    )
    .expect("no system errors");
    let e = r.expect_err("the second CREATE TABLE is refused");
    assert_eq!(e.code, "42P07");
    assert_eq!(e.message, "relation \"s.t\" already exists");
}

#[test]
fn drop_table_then_its_name_is_free_again() {
    let mut storage = FrontendStorage::new();
    create_schema(&mut storage, "s");
    create_small_int_table(&mut storage);
    let r = execute_statement(
        Statement::DropTable {
            schema: "s".to_owned(),
            table: "t".to_owned(),
        },
        &mut storage,
    )
    .expect("no system errors");
    assert_eq!(r, Ok(QueryEvent::TableDropped));
    create_small_int_table(&mut storage);
}

#[test]
fn boolean_literals_store_their_text_form() {
    let mut storage = FrontendStorage::new();
    create_schema(&mut storage, "s");
    let r = execute_statement(
        Statement::CreateTable {
            schema: "s".to_owned(),
            table: "b".to_owned(),
            columns: vec![column("flag", SqlType::Boolean)],
        },
        &mut storage,
    )
    .expect("no system errors");
    assert_eq!(r, Ok(QueryEvent::TableCreated));
    let r = execute_statement(
        Statement::Insert(InsertCommand::new(
            "INSERT INTO s.b VALUES (false)".to_owned(),
            vec!["s".to_owned(), "b".to_owned()],
            vec![],
            InsertSource::Values(vec![vec![Expr::Bool(false)]]),
        )),
        &mut storage,
    )
    .expect("no system errors");
    assert_eq!(r, Ok(QueryEvent::RecordsInserted(1)));
    let r = execute_statement(
        Statement::Select {
            schema: "s".to_owned(),
            table: "b".to_owned(),
            projection: vec!["flag".to_owned()],
        },
        &mut storage,
    )
    .expect("no system errors");
    assert_eq!(
        r,
        Ok(QueryEvent::RecordsSelected(
            vec![("flag".to_owned(), PostgreSqlType::Boolean)],
            vec![vec!["false".to_owned()]],
        ))
    );
}

#[test]
fn insert_source_other_is_feature_not_supported() {
    let mut storage = FrontendStorage::new();
    let r = execute_statement(
        Statement::Insert(InsertCommand::new(
            "INSERT INTO s.t SELECT * FROM s.u".to_owned(),
            vec!["s".to_owned(), "t".to_owned()],
            vec![],
            InsertSource::Other,
        )),
        &mut storage,
    )
    .expect("no system errors");
    let e = r.expect_err("only VALUES sources run");
    assert_eq!(e.code, "0A000");
    assert_eq!(e.message, "feature not supported: INSERT INTO s.t SELECT * FROM s.u");
}
