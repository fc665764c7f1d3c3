use smalldb::messages::Message;
use smalldb::results::QueryError;
use smalldb::text::{format_i64, format_u64, parse_int_literal, str_eq};
use smalldb::types::{ConstraintError, PostgreSqlType, SqlType};

#[test]
fn small_int_accepts_its_bounds_and_rejects_beyond() {
    assert_eq!(SqlType::SmallInt.validate("-32768"), Ok(()));
    assert_eq!(SqlType::SmallInt.validate("32767"), Ok(()));
    assert_eq!(SqlType::SmallInt.validate("32768"), Err(ConstraintError::OutOfRange));
    assert_eq!(SqlType::SmallInt.validate("-32769"), Err(ConstraintError::OutOfRange));
}

#[test]
fn integer_and_big_int_bounds() {
    assert_eq!(SqlType::Integer.validate("2147483647"), Ok(()));
    assert_eq!(SqlType::Integer.validate("2147483648"), Err(ConstraintError::OutOfRange));
    assert_eq!(SqlType::BigInt.validate("9223372036854775807"), Ok(()));
    assert_eq!(SqlType::BigInt.validate("-9223372036854775808"), Ok(()));
    assert_eq!(
        SqlType::BigInt.validate("9223372036854775808"),
        Err(ConstraintError::OutOfRange)
    );
    assert_eq!(
        SqlType::BigInt.validate("99999999999999999999999999"),
        Err(ConstraintError::OutOfRange)
    );
}

#[test]
fn non_numeric_text_is_a_type_mismatch() {
    assert_eq!(
        SqlType::SmallInt.validate("abc"),
        Err(ConstraintError::TypeMismatch("abc".to_owned()))
    );
    assert_eq!(
        SqlType::SmallInt.validate(""),
        Err(ConstraintError::TypeMismatch("".to_owned()))
    );
    assert_eq!(
        SqlType::SmallInt.validate("1.5"),
        Err(ConstraintError::TypeMismatch("1.5".to_owned()))
    );
}

#[test]
fn char_ten_rejects_an_eleven_character_value() {
    assert_eq!(SqlType::Char(10).validate("1234567890"), Ok(()));
    assert_eq!(
        SqlType::Char(10).validate("12345678901"),
        Err(ConstraintError::ValueTooLong(11))
    );
}

#[test]
fn var_char_bound_counts_characters() {
    assert_eq!(SqlType::VarChar(3).validate("abc"), Ok(()));
    assert_eq!(SqlType::VarChar(3).validate("abcd"), Err(ConstraintError::ValueTooLong(4)));
}

#[test]
fn boolean_accepts_exactly_true_and_false() {
    assert_eq!(SqlType::Boolean.validate("true"), Ok(()));
    assert_eq!(SqlType::Boolean.validate("false"), Ok(()));
    assert_eq!(
        SqlType::Boolean.validate("TRUE"),
        Err(ConstraintError::TypeMismatch("TRUE".to_owned()))
    );
}

#[test]
fn formatting_integers_is_canonical() {
    assert_eq!(format_u64(0), "0");
    assert_eq!(format_u64(907), "907");
    assert_eq!(format_i64(-42), "-42");
    assert_eq!(format_i64(i64::MIN), "-9223372036854775808");
    assert_eq!(format_i64(i64::MAX), "9223372036854775807");
}

#[test]
fn parsing_integer_literals() {
    let p = parse_int_literal("-120").expect("a literal");
    assert!(p.negative);
    assert!(!p.oversized);
    assert_eq!(p.magnitude, 120);
    let p = parse_int_literal("+7").expect("a literal");
    assert!(!p.negative);
    assert_eq!(p.magnitude, 7);
    assert!(parse_int_literal("").is_none());
    assert!(parse_int_literal("-").is_none());
    assert!(parse_int_literal("12a").is_none());
    let p = parse_int_literal("123456789012345678901234567890").expect("a literal");
    assert!(p.oversized);
}

#[test]
fn str_eq_compares_character_for_character() {
    assert!(str_eq("abc", "abc"));
    assert!(!str_eq("abc", "abd"));
    assert!(!str_eq("abc", "ab"));
    assert!(str_eq("", ""));
}

#[test]
fn fixed_messages_have_their_wire_bytes() {
    assert_eq!(Message::AuthenticationOk.as_vec(), vec![b'R', 0, 0, 0, 8, 0, 0, 0, 0]);
    assert_eq!(
        Message::AuthenticationCleartextPassword.as_vec(),
        vec![b'R', 0, 0, 0, 8, 0, 0, 0, 3]
    );
    assert_eq!(Message::Notice.as_vec(), vec![b'N']);
    assert_eq!(Message::ReadyForQuery.as_vec(), vec![b'Z', 0, 0, 0, 5, b'I']);
}

#[test]
fn data_row_frames_each_cell_with_its_length() {
    let bytes = Message::DataRow(vec!["1".to_owned(), "23".to_owned()]).as_vec();
    assert_eq!(
        bytes,
        vec![
            b'D', 0, 0, 0, 17, // length: 4 + 2 + (4 + 1) + (4 + 2)
            0, 2, // two cells
            0, 0, 0, 1, b'1', // first cell
            0, 0, 0, 2, b'2', b'3', // second cell
        ]
    );
}

#[test]
fn command_complete_carries_its_tag() {
    let bytes = Message::CommandComplete("SELECT 3".to_owned()).as_vec();
    let mut expected = vec![b'C', 0, 0, 0, 13];
    expected.extend_from_slice(b"SELECT 3\0");
    assert_eq!(bytes, expected);
}

#[test]
fn row_description_carries_name_oid_and_size() {
    let bytes = Message::RowDescription(vec![("c1".to_owned(), PostgreSqlType::SmallInt)]).as_vec();
    let mut expected = vec![b'T', 0, 0, 0, 27, 0, 1];
    expected.extend_from_slice(b"c1\0");
    expected.extend_from_slice(&[0, 0, 0, 0]); // table id
    expected.extend_from_slice(&[0, 0]); // attribute number
    expected.extend_from_slice(&[0, 0, 0, 21]); // smallint oid
    expected.extend_from_slice(&[0, 2]); // two bytes wide
    expected.extend_from_slice(&[0xff, 0xff, 0xff, 0xff]); // no modifier
    expected.extend_from_slice(&[0, 0]); // text format
    assert_eq!(bytes, expected);
}

#[test]
fn error_response_carries_severity_code_and_message() {
    let bytes = Message::ErrorResponse(QueryError::schema_does_not_exist("s")).as_vec();
    let mut expected = vec![b'E'];
    let body = b"SERROR\0C3F000\0Mschema \"s\" does not exist\0\0";
    expected.extend_from_slice(&(4 + body.len() as u32).to_be_bytes());
    expected.extend_from_slice(body);
    assert_eq!(bytes, expected);
}

#[test]
fn pg_type_identity() {
    assert_eq!(PostgreSqlType::SmallInt.pg_oid(), 21);
    assert_eq!(PostgreSqlType::Integer.pg_oid(), 23);
    assert_eq!(PostgreSqlType::BigInt.pg_oid(), 20);
    assert_eq!(PostgreSqlType::Boolean.pg_oid(), 16);
    assert_eq!(PostgreSqlType::Char.pg_oid(), 1042);
    assert_eq!(PostgreSqlType::VarChar.pg_oid(), 1043);
    assert_eq!(PostgreSqlType::SmallInt.pg_len(), 2);
    assert_eq!(PostgreSqlType::VarChar.pg_len(), -1);
    assert_eq!(PostgreSqlType::SmallInt.name(), "smallint");
}

#[test]
fn constraint_violation_messages_join_on_one_response() {
    let violations = vec![
        (
            ConstraintError::OutOfRange,
            smalldb::types::ColumnDefinition {
                name: "c1".to_owned(),
                sql_type: SqlType::SmallInt,
            },
        ),
        (
            ConstraintError::ValueTooLong(11),
            smalldb::types::ColumnDefinition {
                name: "c2".to_owned(),
                sql_type: SqlType::Char(10),
            },
        ),
    ];
    let e = QueryError::constraint_violations(&violations, 2);
    assert_eq!(e.code, "22003");
    assert_eq!(
        e.message,
        "smallint out of range at column c1 row 2\nvalue too long for type char(10)"
    );
}
