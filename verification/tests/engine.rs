use minidb::errors::{ParseIssue, SqlError};
use minidb::schema::{validate, DataType, TypeError};
use minidb::store::{column_from_input, Column, Database, Row, Table};

fn col(name: &str, data_type: DataType) -> Column {
    Column { name: name.to_string(), data_type, is_primary_key: false }
}

fn users_db() -> Database {
    let mut db = Database::new("test_db");
    let table = Table {
        name: "users".to_string(),
        columns: vec![col("id", DataType::Int), col("name", DataType::String(50))],
        rows: Vec::new(),
    };
    db.create_table(table).unwrap();
    db
}

fn row_values(db: &Database, table: &str) -> Vec<Vec<Option<String>>> {
    db.read_rows(table)
        .expect("table should exist")
        .iter()
        .map(|r| r.values.clone())
        .collect()
}

#[test]
fn validate_int_literals() {
    assert_eq!(validate(&DataType::Int, "12").unwrap(), "12");
    assert_eq!(validate(&DataType::Int, "-7").unwrap(), "-7");
    assert_eq!(validate(&DataType::Int, "+3").unwrap(), "+3");
    assert_eq!(validate(&DataType::Int, "2147483647").unwrap(), "2147483647");
    assert_eq!(validate(&DataType::Int, "-2147483648").unwrap(), "-2147483648");
    assert!(matches!(validate(&DataType::Int, "2147483648"), Err(TypeError::IntegerParseError)));
    assert!(matches!(validate(&DataType::Int, "abc"), Err(TypeError::IntegerParseError)));
    assert!(matches!(validate(&DataType::Int, ""), Err(TypeError::IntegerParseError)));
    assert!(matches!(validate(&DataType::Int, "-"), Err(TypeError::IntegerParseError)));
    assert!(matches!(validate(&DataType::Int, "1 2"), Err(TypeError::IntegerParseError)));
}

#[test]
fn validate_bool_literals() {
    assert_eq!(validate(&DataType::Bool, "true").unwrap(), "true");
    assert_eq!(validate(&DataType::Bool, "TRUE").unwrap(), "TRUE");
    assert_eq!(validate(&DataType::Bool, "False").unwrap(), "False");
    assert!(matches!(validate(&DataType::Bool, "yes"), Err(TypeError::BooleanParseError)));
    assert!(matches!(validate(&DataType::Bool, ""), Err(TypeError::BooleanParseError)));
}

#[test]
fn validate_text_strips_one_quote_pair() {
    assert_eq!(validate(&DataType::String(5), "'abc'").unwrap(), "abc");
    assert_eq!(validate(&DataType::String(5), "\"abc\"").unwrap(), "abc");
    assert_eq!(validate(&DataType::String(5), "''abc''").unwrap(), "'abc'");
    assert_eq!(validate(&DataType::String(5), "'abc\"").unwrap(), "'abc\"");
    assert_eq!(validate(&DataType::Char(1), "plain").unwrap(), "plain");
    // Declared lengths are advisory: longer text is accepted verbatim.
    assert_eq!(validate(&DataType::String(2), "overlong").unwrap(), "overlong");
}

#[test]
fn column_from_input_builds_typed_columns() {
    let c = column_from_input("id", "Int", "").unwrap();
    assert_eq!(c.name, "id");
    assert!(matches!(c.data_type, DataType::Int));
    assert!(!c.is_primary_key);
    let c = column_from_input("on", "Bool", "ignored").unwrap();
    assert!(matches!(c.data_type, DataType::Bool));
    let c = column_from_input("name", "String", "50").unwrap();
    assert!(matches!(c.data_type, DataType::String(50)));
    let c = column_from_input("code", "Char", "+8").unwrap();
    assert!(matches!(c.data_type, DataType::Char(8)));
}

#[test]
fn column_from_input_rejects_bad_fields() {
    assert!(column_from_input("", "Int", "").is_none());
    assert!(column_from_input("id", "int", "").is_none());
    assert!(column_from_input("id", "Float", "4").is_none());
    assert!(column_from_input("name", "String", "").is_none());
    assert!(column_from_input("name", "String", "abc").is_none());
    assert!(column_from_input("name", "Char", "4294967296").is_none());
}

#[test]
fn create_table_rejects_duplicate_names_case_insensitively() {
    let mut db = users_db();
    let dup = Table {
        name: "Users".to_string(),
        columns: vec![col("id", DataType::Int)],
        rows: Vec::new(),
    };
    match db.create_table(dup) {
        Err(SqlError::TableAlreadyExists(name)) => assert_eq!(name, "Users"),
        other => panic!("expected TableAlreadyExists, got {:?}", other),
    }
    assert_eq!(db.tables.len(), 1);
}

#[test]
fn store_primitives_round_trip() {
    let mut db = users_db();
    db.insert_row(
        "users",
        Row { values: vec![Some("1".to_string()), Some("Alice".to_string())] },
    );
    assert_eq!(row_values(&db, "users"), vec![vec![
        Some("1".to_string()),
        Some("Alice".to_string()),
    ]]);
    db.update_row(
        "users",
        0,
        Row { values: vec![Some("1".to_string()), None] },
    );
    assert_eq!(row_values(&db, "users"), vec![vec![Some("1".to_string()), None]]);
    // Out-of-range indices and unknown tables are silent no-ops.
    db.update_row(
        "users",
        5,
        Row { values: vec![Some("9".to_string()), None] },
    );
    db.delete_row("users", 5);
    db.delete_row("ghosts", 0);
    assert_eq!(row_values(&db, "users").len(), 1);
    db.delete_row("users", 0);
    assert_eq!(row_values(&db, "users").len(), 0);
    assert!(db.read_rows("ghosts").is_none());
}

#[test]
fn insert_appends_validated_row() {
    let mut db = users_db();
    let out = db.execute_sql_query("INSERT INTO users VALUES (1, 'Alice')").unwrap();
    assert_eq!(out, "1 row inserted");
    assert_eq!(row_values(&db, "users"), vec![vec![
        Some("1".to_string()),
        Some("Alice".to_string()),
    ]]);
}

#[test]
fn insert_arity_mismatch_reports_both_counts_and_mutates_nothing() {
    let mut db = users_db();
    match db.execute_sql_query("INSERT INTO users VALUES (1)") {
        Err(SqlError::ColumnCountMismatch { expected, actual }) => {
            assert_eq!(expected, 2);
            assert_eq!(actual, 1);
        },
        other => panic!("expected ColumnCountMismatch, got {:?}", other),
    }
    assert_eq!(row_values(&db, "users").len(), 0);
}

#[test]
fn insert_invalid_int_mutates_nothing() {
    let mut db = users_db();
    match db.execute_sql_query("INSERT INTO users VALUES (abc, 'X')") {
        Err(SqlError::TypeValidation { error, literal }) => {
            assert!(matches!(error, TypeError::IntegerParseError));
            assert_eq!(literal, "abc");
        },
        other => panic!("expected TypeValidation, got {:?}", other),
    }
    assert_eq!(row_values(&db, "users").len(), 0);
}

#[test]
fn insert_invalid_bool_mutates_nothing() {
    let mut db = Database::new("test_db");
    db.create_table(Table {
        name: "flags".to_string(),
        columns: vec![col("on", DataType::Bool)],
        rows: Vec::new(),
    })
        .unwrap();
    assert!(matches!(
        db.execute_sql_query("INSERT INTO flags VALUES (yes)"),
        Err(SqlError::TypeValidation { error: TypeError::BooleanParseError, .. })
    ));
    assert_eq!(row_values(&db, "flags").len(), 0);
    let out = db.execute_sql_query("INSERT INTO flags VALUES (TRUE)").unwrap();
    assert_eq!(out, "1 row inserted");
    assert_eq!(row_values(&db, "flags"), vec![vec![Some("TRUE".to_string())]]);
}

#[test]
fn insert_into_missing_table_fails() {
    let mut db = users_db();
    match db.execute_sql_query("INSERT INTO ghosts VALUES (1)") {
        Err(SqlError::TableNotFound(name)) => assert_eq!(name, "ghosts"),
        other => panic!("expected TableNotFound, got {:?}", other),
    }
}

#[test]
fn update_matching_rows() {
    let mut db = users_db();
    db.execute_sql_query("INSERT INTO users VALUES (1, 'Alice')").unwrap();
    db.execute_sql_query("INSERT INTO users VALUES (2, 'Carol')").unwrap();
    let out = db.execute_sql_query("UPDATE users SET name = 'Bob' WHERE id = '1'").unwrap();
    assert_eq!(out, "1 rows updated");
    assert_eq!(row_values(&db, "users"), vec![
        vec![Some("1".to_string()), Some("Bob".to_string())],
        vec![Some("2".to_string()), Some("Carol".to_string())],
    ]);
    let out = db.execute_sql_query("UPDATE users SET name = 'Eve' WHERE id = '9'").unwrap();
    assert_eq!(out, "0 rows updated");
}

#[test]
fn update_unknown_column_mutates_nothing() {
    let mut db = users_db();
    db.execute_sql_query("INSERT INTO users VALUES (1, 'Alice')").unwrap();
    match db.execute_sql_query("UPDATE users SET nick = 'Bob' WHERE id = '1'") {
        Err(SqlError::ColumnNotFound(name)) => assert_eq!(name, "nick"),
        other => panic!("expected ColumnNotFound, got {:?}", other),
    }
    match db.execute_sql_query("UPDATE users SET name = 'Bob' WHERE uid = '1'") {
        Err(SqlError::ColumnNotFound(name)) => assert_eq!(name, "uid"),
        other => panic!("expected ColumnNotFound, got {:?}", other),
    }
    assert_eq!(row_values(&db, "users"), vec![vec![
        Some("1".to_string()),
        Some("Alice".to_string()),
    ]]);
}

#[test]
fn update_requires_where_clause() {
    let mut db = users_db();
    assert!(matches!(
        db.execute_sql_query("UPDATE users SET name = 'Bob'"),
        Err(SqlError::Parse(ParseIssue::WhereRequired))
    ));
}

#[test]
fn repeated_where_is_a_parse_error() {
    let mut db = users_db();
    assert!(matches!(
        db.execute_sql_query("UPDATE users SET name = 'B' WHERE id = '1' WHERE id = '2'"),
        Err(SqlError::Parse(ParseIssue::WhereCount))
    ));
    assert!(matches!(
        db.execute_sql_query("DELETE FROM users WHERE id = '1' WHERE id = '2'"),
        Err(SqlError::Parse(ParseIssue::WhereCount))
    ));
}

#[test]
fn update_malformed_set_pair() {
    let mut db = users_db();
    assert!(matches!(
        db.execute_sql_query("UPDATE users SET name WHERE id = '1'"),
        Err(SqlError::Parse(ParseIssue::SetPairShape))
    ));
}

#[test]
fn delete_with_condition_removes_matching_rows() {
    let mut db = users_db();
    db.execute_sql_query("INSERT INTO users VALUES (1, 'Alice')").unwrap();
    db.execute_sql_query("INSERT INTO users VALUES (2, 'Bob')").unwrap();
    db.execute_sql_query("INSERT INTO users VALUES (1, 'Ann')").unwrap();
    let out = db.execute_sql_query("DELETE FROM users WHERE id = '1'").unwrap();
    assert_eq!(out, "2 rows deleted");
    assert_eq!(row_values(&db, "users"), vec![vec![
        Some("2".to_string()),
        Some("Bob".to_string()),
    ]]);
}

#[test]
fn delete_without_condition_empties_table_and_reports_prior_count() {
    let mut db = users_db();
    db.execute_sql_query("INSERT INTO users VALUES (1, 'Alice')").unwrap();
    db.execute_sql_query("INSERT INTO users VALUES (2, 'Bob')").unwrap();
    let out = db.execute_sql_query("DELETE FROM users").unwrap();
    assert_eq!(out, "2 rows deleted");
    assert_eq!(row_values(&db, "users").len(), 0);
}

#[test]
fn delete_unknown_column_mutates_nothing() {
    let mut db = users_db();
    db.execute_sql_query("INSERT INTO users VALUES (1, 'Alice')").unwrap();
    match db.execute_sql_query("DELETE FROM users WHERE uid = '1'") {
        Err(SqlError::ColumnNotFound(name)) => assert_eq!(name, "uid"),
        other => panic!("expected ColumnNotFound, got {:?}", other),
    }
    assert_eq!(row_values(&db, "users").len(), 1);
}

#[test]
fn select_renders_header_separator_and_rows() {
    let mut db = users_db();
    db.execute_sql_query("INSERT INTO users VALUES (1, 'Alice')").unwrap();
    let out = db.execute_sql_query("SELECT * FROM users").unwrap();
    let lines: Vec<&str> = out.lines().collect();
    assert_eq!(lines.len(), 3);
    let header: Vec<String> = lines[0].split('|').map(|c| c.trim().to_string()).collect();
    assert_eq!(header, vec!["id".to_string(), "name".to_string()]);
    // Cells are padded to a width of twenty and joined with " | ".
    assert_eq!(lines[0], format!("{:<20} | {:<20}", "id", "name"));
    assert_eq!(lines[2], format!("{:<20} | {:<20}", "1", "Alice"));
    assert!(lines[1].chars().all(|c| c == '-'));
    assert_eq!(lines[1].len(), lines[0].len());
    let row: Vec<String> = lines[2].split('|').map(|c| c.trim().to_string()).collect();
    assert_eq!(row, vec!["1".to_string(), "Alice".to_string()]);
}

#[test]
fn select_renders_null_for_absent_values() {
    let mut db = users_db();
    db.insert_row("users", Row { values: vec![Some("1".to_string()), None] });
    let out = db.execute_sql_query("SELECT * FROM users").unwrap();
    let lines: Vec<&str> = out.lines().collect();
    let row: Vec<String> = lines[2].split('|').map(|c| c.trim().to_string()).collect();
    assert_eq!(row, vec!["1".to_string(), "NULL".to_string()]);
}

#[test]
fn select_table_names_match_case_insensitively() {
    let mut db = users_db();
    db.execute_sql_query("INSERT INTO users VALUES (1, 'Alice')").unwrap();
    let out = db.execute_sql_query("select * from USERS").unwrap();
    assert!(out.contains("Alice"));
}

#[test]
fn select_missing_table_reports_table_not_found() {
    let mut db = users_db();
    match db.execute_sql_query("SELECT * FROM ghosts") {
        Err(SqlError::TableNotFound(name)) => assert_eq!(name, "ghosts"),
        other => panic!("expected TableNotFound, got {:?}", other),
    }
}

#[test]
fn select_multiple_tables_renders_each_under_a_heading() {
    let mut db = users_db();
    db.create_table(Table {
        name: "pets".to_string(),
        columns: vec![col("species", DataType::String(20))],
        rows: Vec::new(),
    })
        .unwrap();
    db.execute_sql_query("INSERT INTO users VALUES (1, 'Alice')").unwrap();
    db.execute_sql_query("INSERT INTO pets VALUES ('cat')").unwrap();
    let out = db.execute_sql_query("SELECT * FROM users AND pets").unwrap();
    assert!(out.contains("Table users:"));
    assert!(out.contains("Table pets:"));
    assert!(out.contains("Alice"));
    assert!(out.contains("cat"));
}

#[test]
fn select_multiple_tables_aborts_on_first_missing() {
    let mut db = users_db();
    match db.execute_sql_query("SELECT * FROM users AND ghosts") {
        Err(SqlError::TableNotFound(name)) => assert_eq!(name, "ghosts"),
        other => panic!("expected TableNotFound, got {:?}", other),
    }
}

#[test]
fn select_with_join_is_not_implemented() {
    let mut db = users_db();
    assert!(matches!(
        db.execute_sql_query("SELECT * FROM users JOIN pets"),
        Err(SqlError::NotImplemented)
    ));
}

#[test]
fn select_without_from_is_a_parse_error() {
    let mut db = users_db();
    assert!(matches!(
        db.execute_sql_query("SELECT *"),
        Err(SqlError::Parse(ParseIssue::FromCount))
    ));
}

#[test]
fn insert_without_values_is_a_parse_error() {
    let mut db = users_db();
    assert!(matches!(
        db.execute_sql_query("INSERT INTO users (1, 'Alice')"),
        Err(SqlError::Parse(ParseIssue::ValuesCount))
    ));
}

#[test]
fn update_without_set_is_a_parse_error() {
    let mut db = users_db();
    assert!(matches!(
        db.execute_sql_query("UPDATE users WHERE id = '1'"),
        Err(SqlError::Parse(ParseIssue::SetCount))
    ));
}

#[test]
fn delete_with_malformed_condition_is_a_parse_error() {
    let mut db = users_db();
    assert!(matches!(
        db.execute_sql_query("DELETE FROM users WHERE id"),
        Err(SqlError::Parse(ParseIssue::WhereShape))
    ));
}

#[test]
fn unrecognized_leading_keyword_is_unsupported() {
    let mut db = users_db();
    assert!(matches!(
        db.execute_sql_query("DROP TABLE users"),
        Err(SqlError::UnsupportedCommand)
    ));
}

#[test]
fn scenario_insert_select_update_delete() {
    let mut db = users_db();
    assert_eq!(db.execute_sql_query("INSERT INTO users VALUES (1, 'Alice')").unwrap(),
        "1 row inserted");
    assert_eq!(row_values(&db, "users").len(), 1);

    let out = db.execute_sql_query("SELECT * FROM users").unwrap();
    let lines: Vec<&str> = out.lines().collect();
    let header: Vec<String> = lines[0].split('|').map(|c| c.trim().to_string()).collect();
    assert_eq!(header, vec!["id".to_string(), "name".to_string()]);
    let row: Vec<String> = lines[2].split('|').map(|c| c.trim().to_string()).collect();
    assert_eq!(row, vec!["1".to_string(), "Alice".to_string()]);

    assert_eq!(db.execute_sql_query("UPDATE users SET name = 'Bob' WHERE id = '1'").unwrap(),
        "1 rows updated");
    assert_eq!(row_values(&db, "users"), vec![vec![
        Some("1".to_string()),
        Some("Bob".to_string()),
    ]]);

    assert_eq!(db.execute_sql_query("DELETE FROM users WHERE id = '1'").unwrap(),
        "1 rows deleted");
    assert_eq!(row_values(&db, "users").len(), 0);
}

#[test]
fn update_applies_multiple_assignments_in_order() {
    let mut db = users_db();
    db.execute_sql_query("INSERT INTO users VALUES (1, 'Alice')").unwrap();
    let out = db
        .execute_sql_query("UPDATE users SET name = 'Bob', name = 'Carol' WHERE id = '1'")
        .unwrap();
    assert_eq!(out, "1 rows updated");
    assert_eq!(row_values(&db, "users"), vec![vec![
        Some("1".to_string()),
        Some("Carol".to_string()),
    ]]);
}

#[test]
fn counts_above_nine_render_with_two_digits() {
    let mut db = users_db();
    for i in 0..12 {
        let cmd = format!("INSERT INTO users VALUES ({}, 'N')", i);
        db.execute_sql_query(&cmd).unwrap();
    }
    assert_eq!(db.execute_sql_query("DELETE FROM users").unwrap(), "12 rows deleted");
}

#[test]
fn commands_are_trimmed_before_parsing() {
    let mut db = users_db();
    db.execute_sql_query("  INSERT INTO users VALUES (1, 'Alice')  \n").unwrap();
    let out = db.execute_sql_query("\t select * from USERS ").unwrap();
    assert!(out.contains("Alice"));
}

#[test]
fn error_messages_render_as_text() {
    let mut db = users_db();
    let arity = db.execute_sql_query("INSERT INTO users VALUES (1)").unwrap_err();
    assert_eq!(arity.message(), "column count mismatch: expected 2, got 1");
    let missing = db.execute_sql_query("SELECT * FROM ghosts").unwrap_err();
    assert_eq!(missing.message(), "table not found: ghosts");
    let invalid = db.execute_sql_query("INSERT INTO users VALUES (x, 'A')").unwrap_err();
    assert_eq!(invalid.message(), "invalid integer value: x");
    let unsupported = db.execute_sql_query("DROP TABLE users").unwrap_err();
    assert_eq!(unsupported.message(), "unsupported SQL command");
}

#[test]
fn where_values_never_match_null() {
    let mut db = users_db();
    db.insert_row("users", Row { values: vec![None, Some("Alice".to_string())] });
    let out = db.execute_sql_query("DELETE FROM users WHERE id = '1'").unwrap();
    assert_eq!(out, "0 rows deleted");
    assert_eq!(row_values(&db, "users").len(), 1);
}
