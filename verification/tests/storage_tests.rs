use smalldb::storage::{FrontendStorage, OperationOnTableError, SchemaAlreadyExists, SchemaDoesNotExist};
use smalldb::types::{ColumnDefinition, ConstraintError, SqlType};

fn column_definition(name: &'static str, sql_type: SqlType) -> ColumnDefinition {
    ColumnDefinition {
        name: name.to_owned(),
        sql_type,
    }
}

fn storage_with_schema() -> FrontendStorage {
    let mut storage = FrontendStorage::default().expect("no system errors");
    storage
        .create_schema("schema_name")
        .expect("no system errors")
        .expect("schema is created");
    storage
}

fn create_table(storage: &mut FrontendStorage, schema: &str, table: &str, columns: Vec<ColumnDefinition>) {
    storage
        .create_table(schema, table, columns.as_slice())
        .expect("no system errors")
        .expect("table is created");
}

fn insert_into(storage: &mut FrontendStorage, schema: &str, table: &str, columns: Vec<&str>, values: Vec<&str>) {
    storage
        .insert_into(
            schema,
            table,
            columns.into_iter().map(ToOwned::to_owned).collect(),
            vec![values.into_iter().map(ToOwned::to_owned).collect()],
        )
        .expect("no system errors")
        .expect("values are inserted");
}

fn with_small_ints_table() -> FrontendStorage {
    let mut storage = storage_with_schema();
    create_table(
        &mut storage,
        "schema_name",
        "table_name",
        vec![
            column_definition("column_1", SqlType::SmallInt),
            column_definition("column_2", SqlType::SmallInt),
            column_definition("column_3", SqlType::SmallInt),
        ],
    );
    storage
}

#[test]
fn create_schema_twice_is_refused() {
    let mut storage = FrontendStorage::default().expect("no system errors");
    assert_eq!(storage.create_schema("s").expect("no system errors"), Ok(()));
    assert_eq!(
        storage.create_schema("s").expect("no system errors"),
        Err(SchemaAlreadyExists)
    );
}

#[test]
fn create_schema_succeeds_again_after_drop() {
    let mut storage = FrontendStorage::default().expect("no system errors");
    assert_eq!(storage.create_schema("s").expect("no system errors"), Ok(()));
    assert_eq!(storage.drop_schema("s").expect("no system errors"), Ok(()));
    assert_eq!(storage.create_schema("s").expect("no system errors"), Ok(()));
}

#[test]
fn drop_schema_that_is_not_there() {
    let mut storage = FrontendStorage::default().expect("no system errors");
    assert_eq!(
        storage.drop_schema("s").expect("no system errors"),
        Err(SchemaDoesNotExist)
    );
}

#[test]
fn select_from_table_from_non_existent_schema() {
    let storage = FrontendStorage::default().expect("no system errors");
    assert_eq!(
        storage
            .select_all_from("non_existent", "table_name", vec![])
            .expect("no system errors"),
        Err(OperationOnTableError::SchemaDoesNotExist)
    );
}

#[test]
fn select_from_table_that_does_not_exist() {
    let storage_with_schema = storage_with_schema();
    let table_columns = storage_with_schema
        .table_columns("schema_name", "not_existed")
        .expect("no system errors")
        .into_iter()
        .map(|column_definition| column_definition.name())
        .collect();

    assert_eq!(
        storage_with_schema
            .select_all_from("schema_name", "not_existed", table_columns)
            .expect("no system errors"),
        Err(OperationOnTableError::TableDoesNotExist)
    );
}

#[test]
fn select_all_from_table_with_many_columns() {
    let mut storage = with_small_ints_table();
    insert_into(&mut storage, "schema_name", "table_name", vec![], vec!["1", "2", "3"]);

    let table_columns = storage
        .table_columns("schema_name", "table_name")
        .expect("no system errors")
        .into_iter()
        .map(|column_definition| column_definition.name())
        .collect();

    assert_eq!(
        storage
            .select_all_from("schema_name", "table_name", table_columns)
            .expect("no system errors"),
        Ok((
            vec![
                column_definition("column_1", SqlType::SmallInt),
                column_definition("column_2", SqlType::SmallInt),
                column_definition("column_3", SqlType::SmallInt)
            ],
            vec![vec!["1".to_owned(), "2".to_owned(), "3".to_owned()]]
        ))
    );
}

#[test]
fn select_first_and_last_columns_from_table_with_multiple_columns() {
    let mut storage = with_small_ints_table();
    insert_into(&mut storage, "schema_name", "table_name", vec![], vec!["1", "2", "3"]);
    insert_into(&mut storage, "schema_name", "table_name", vec![], vec!["4", "5", "6"]);
    insert_into(&mut storage, "schema_name", "table_name", vec![], vec!["7", "8", "9"]);

    assert_eq!(
        storage
            .select_all_from(
                "schema_name",
                "table_name",
                vec!["column_1".to_owned(), "column_3".to_owned()]
            )
            .expect("no system errors"),
        Ok((
            vec![
                column_definition("column_1", SqlType::SmallInt),
                column_definition("column_3", SqlType::SmallInt)
            ],
            vec![
                vec!["1".to_owned(), "3".to_owned()],
                vec!["4".to_owned(), "6".to_owned()],
                vec!["7".to_owned(), "9".to_owned()],
            ],
        ))
    );
}

#[test]
fn select_all_columns_reordered_from_table_with_multiple_columns() {
    let mut storage = with_small_ints_table();
    insert_into(&mut storage, "schema_name", "table_name", vec![], vec!["1", "2", "3"]);
    insert_into(&mut storage, "schema_name", "table_name", vec![], vec!["4", "5", "6"]);
    insert_into(&mut storage, "schema_name", "table_name", vec![], vec!["7", "8", "9"]);

    assert_eq!(
        storage
            .select_all_from(
                "schema_name",
                "table_name",
                vec!["column_3".to_owned(), "column_1".to_owned(), "column_2".to_owned()]
            )
            .expect("no system errors"),
        Ok((
            vec![
                column_definition("column_3", SqlType::SmallInt),
                column_definition("column_1", SqlType::SmallInt),
                column_definition("column_2", SqlType::SmallInt)
            ],
            vec![
                vec!["3".to_owned(), "1".to_owned(), "2".to_owned()],
                vec!["6".to_owned(), "4".to_owned(), "5".to_owned()],
                vec!["9".to_owned(), "7".to_owned(), "8".to_owned()],
            ],
        ))
    );
}

#[test]
fn select_with_column_name_duplication() {
    let mut storage = with_small_ints_table();
    insert_into(&mut storage, "schema_name", "table_name", vec![], vec!["1", "2", "3"]);
    insert_into(&mut storage, "schema_name", "table_name", vec![], vec!["4", "5", "6"]);
    insert_into(&mut storage, "schema_name", "table_name", vec![], vec!["7", "8", "9"]);

    assert_eq!(
        storage
            .select_all_from(
                "schema_name",
                "table_name",
                vec![
                    "column_3".to_owned(),
                    "column_2".to_owned(),
                    "column_1".to_owned(),
                    "column_3".to_owned(),
                    "column_2".to_owned()
                ]
            )
            .expect("no system errors"),
        Ok((
            vec![
                column_definition("column_3", SqlType::SmallInt),
                column_definition("column_2", SqlType::SmallInt),
                column_definition("column_1", SqlType::SmallInt),
                column_definition("column_3", SqlType::SmallInt),
                column_definition("column_2", SqlType::SmallInt)
            ],
            vec![
                vec![
                    "3".to_owned(),
                    "2".to_owned(),
                    "1".to_owned(),
                    "3".to_owned(),
                    "2".to_owned()
                ],
                vec![
                    "6".to_owned(),
                    "5".to_owned(),
                    "4".to_owned(),
                    "6".to_owned(),
                    "5".to_owned()
                ],
                vec![
                    "9".to_owned(),
                    "8".to_owned(),
                    "7".to_owned(),
                    "9".to_owned(),
                    "8".to_owned()
                ],
            ],
        ))
    );
}

#[test]
fn select_different_integer_types() {
    let mut storage = storage_with_schema();
    create_table(
        &mut storage,
        "schema_name",
        "table_name",
        vec![
            column_definition("small_int", SqlType::SmallInt),
            column_definition("integer", SqlType::Integer),
            column_definition("big_int", SqlType::BigInt),
        ],
    );

    insert_into(&mut storage, "schema_name", "table_name", vec![], vec!["1000", "2000000", "3000000000"]);
    insert_into(&mut storage, "schema_name", "table_name", vec![], vec!["4000", "5000000", "6000000000"]);
    insert_into(&mut storage, "schema_name", "table_name", vec![], vec!["7000", "8000000", "9000000000"]);

    assert_eq!(
        storage
            .select_all_from(
                "schema_name",
                "table_name",
                vec!["small_int".to_owned(), "integer".to_owned(), "big_int".to_owned()]
            )
            .expect("no system errors"),
        Ok((
            vec![
                column_definition("small_int", SqlType::SmallInt),
                column_definition("integer", SqlType::Integer),
                column_definition("big_int", SqlType::BigInt),
            ],
            vec![
                vec!["1000".to_owned(), "2000000".to_owned(), "3000000000".to_owned()],
                vec!["4000".to_owned(), "5000000".to_owned(), "6000000000".to_owned()],
                vec!["7000".to_owned(), "8000000".to_owned(), "9000000000".to_owned()],
            ],
        ))
    );
}

#[test]
fn select_different_character_strings_types() {
    let mut storage = storage_with_schema();
    create_table(
        &mut storage,
        "schema_name",
        "table_name",
        vec![
            column_definition("char_10", SqlType::Char(10)),
            column_definition("var_char_20", SqlType::VarChar(20)),
        ],
    );

    insert_into(&mut storage, "schema_name", "table_name", vec![], vec!["1234567890", "12345678901234567890"]);
    insert_into(&mut storage, "schema_name", "table_name", vec![], vec!["12345", "1234567890"]);

    assert_eq!(
        storage
            .select_all_from(
                "schema_name",
                "table_name",
                vec!["char_10".to_owned(), "var_char_20".to_owned()]
            )
            .expect("no system errors"),
        Ok((
            vec![
                column_definition("char_10", SqlType::Char(10)),
                column_definition("var_char_20", SqlType::VarChar(20)),
            ],
            vec![
                vec!["1234567890".to_owned(), "12345678901234567890".to_owned()],
                vec!["12345".to_owned(), "1234567890".to_owned()],
            ],
        ))
    );
}

#[test]
fn empty_projection_returns_zero_columns_and_one_empty_row_per_stored_row() {
    let mut storage = with_small_ints_table();
    insert_into(&mut storage, "schema_name", "table_name", vec![], vec!["1", "2", "3"]);
    insert_into(&mut storage, "schema_name", "table_name", vec![], vec!["4", "5", "6"]);

    assert_eq!(
        storage
            .select_all_from("schema_name", "table_name", vec![])
            .expect("no system errors"),
        Ok((vec![], vec![vec![], vec![]]))
    );
}

#[test]
fn insert_rejects_out_of_range_small_int_at_column_and_row() {
    let mut storage = with_small_ints_table();
    let result = storage
        .insert_into(
            "schema_name",
            "table_name",
            vec![],
            vec![vec!["40000".to_owned(), "0".to_owned(), "0".to_owned()]],
        )
        .expect("no system errors");
    assert_eq!(
        result,
        Err(OperationOnTableError::ConstraintViolations(
            vec![(
                ConstraintError::OutOfRange,
                column_definition("column_1", SqlType::SmallInt)
            )],
            0
        ))
    );
}

#[test]
fn insert_with_fewer_values_than_columns_is_refused() {
    let mut storage = with_small_ints_table();
    let result = storage
        .insert_into(
            "schema_name",
            "table_name",
            vec![],
            vec![vec!["1".to_owned(), "2".to_owned()]],
        )
        .expect("no system errors");
    assert_eq!(result, Err(OperationOnTableError::InsertTooManyExpressions));
}

#[test]
fn insert_with_more_values_than_columns_is_refused() {
    let mut storage = with_small_ints_table();
    let result = storage
        .insert_into(
            "schema_name",
            "table_name",
            vec![],
            vec![vec!["1".to_owned(), "2".to_owned(), "3".to_owned(), "4".to_owned()]],
        )
        .expect("no system errors");
    assert_eq!(result, Err(OperationOnTableError::InsertTooManyExpressions));
}

#[test]
fn insert_collects_every_violation_of_one_row() {
    let mut storage = with_small_ints_table();
    let result = storage
        .insert_into(
            "schema_name",
            "table_name",
            vec![],
            vec![
                vec!["1".to_owned(), "2".to_owned(), "3".to_owned()],
                vec!["40000".to_owned(), "abc".to_owned(), "0".to_owned()],
            ],
        )
        .expect("no system errors");
    assert_eq!(
        result,
        Err(OperationOnTableError::ConstraintViolations(
            vec![
                (ConstraintError::OutOfRange, column_definition("column_1", SqlType::SmallInt)),
                (
                    ConstraintError::TypeMismatch("abc".to_owned()),
                    column_definition("column_2", SqlType::SmallInt)
                ),
            ],
            1
        ))
    );
}

#[test]
fn insert_through_reordered_projection_stores_declaration_order() {
    let mut storage = with_small_ints_table();
    insert_into(
        &mut storage,
        "schema_name",
        "table_name",
        vec!["column_3", "column_1", "column_2"],
        vec!["3", "1", "2"],
    );
    assert_eq!(
        storage
            .select_all_from(
                "schema_name",
                "table_name",
                vec!["column_1".to_owned(), "column_2".to_owned(), "column_3".to_owned()]
            )
            .expect("no system errors"),
        Ok((
            vec![
                column_definition("column_1", SqlType::SmallInt),
                column_definition("column_2", SqlType::SmallInt),
                column_definition("column_3", SqlType::SmallInt)
            ],
            vec![vec!["1".to_owned(), "2".to_owned(), "3".to_owned()]],
        ))
    );
}

#[test]
fn insert_with_unknown_projection_column_is_refused() {
    let mut storage = with_small_ints_table();
    let result = storage
        .insert_into(
            "schema_name",
            "table_name",
            vec!["column_1".to_owned(), "nope".to_owned(), "column_3".to_owned()],
            vec![vec!["1".to_owned(), "2".to_owned(), "3".to_owned()]],
        )
        .expect("no system errors");
    assert_eq!(
        result,
        Err(OperationOnTableError::ColumnDoesNotExist(vec!["nope".to_owned()]))
    );
}

#[test]
fn integer_text_round_trips_byte_identical() {
    let mut storage = with_small_ints_table();
    insert_into(&mut storage, "schema_name", "table_name", vec![], vec!["-32768", "007", "32767"]);
    assert_eq!(
        storage
            .select_all_from(
                "schema_name",
                "table_name",
                vec!["column_1".to_owned(), "column_2".to_owned(), "column_3".to_owned()]
            )
            .expect("no system errors"),
        Ok((
            vec![
                column_definition("column_1", SqlType::SmallInt),
                column_definition("column_2", SqlType::SmallInt),
                column_definition("column_3", SqlType::SmallInt)
            ],
            vec![vec!["-32768".to_owned(), "007".to_owned(), "32767".to_owned()]],
        ))
    );
}
