use zsql::errors::ZsqlError;
use zsql::sql_engine::{format_rows, FileSource, SqlEngine};

const OSCAR_AGE: &str = "id,Year,Age,Name,Movie\n\
87,2014,44,Matthew McConaughey,Dallas Buyers Club\n\
85,2012,39,Jean Dujardin,The Artist\n\
88,2015,41,Eddie Redmayne,The Theory of Everything\n";

fn source(path: &str, content: &str) -> FileSource {
    FileSource {
        path: path.to_string(),
        content: Some(content.to_string()),
    }
}

#[test]
fn should_load_csv_file_and_query() {
    let mut engine = SqlEngine::new(',').unwrap();

    engine
        .load_files(&vec![source("test/fixtures/oscar_age.csv", OSCAR_AGE)])
        .unwrap();
    let lines = engine
        .query("SELECT * FROM 'oscar_age' WHERE Year = '2014'")
        .unwrap();

    let expected = format!("87,2014,44,Matthew McConaughey,Dallas Buyers Club{}", "\n");
    assert_eq!(lines.concat(), expected);
}

#[test]
fn load_missing_file_fails_and_store_is_untouched() {
    let mut engine = SqlEngine::new(',').unwrap();
    let files = vec![FileSource {
        path: "nope/missing.csv".to_string(),
        content: None,
    }];

    let err = engine.load_files(&files).unwrap_err();

    assert!(matches!(err, ZsqlError::FileNotFound { .. }));
    assert_eq!(err.message(), "No such file 'nope/missing.csv'");
    assert!(engine.query("SELECT * FROM missing").is_err());
}

#[test]
fn load_empty_file_fails_and_creates_no_table() {
    let mut engine = SqlEngine::new(',').unwrap();
    let files = vec![FileSource {
        path: "empty.csv".to_string(),
        content: Some(String::new()),
    }];

    let err = engine.load_files(&files).unwrap_err();

    assert!(matches!(err, ZsqlError::EmptyOrUnreadable { .. }));
    assert_eq!(err.message(), "Unable to read contents of 'empty.csv'");
    assert!(engine.query("SELECT * FROM empty").is_err());
}

#[test]
fn colliding_names_fail_on_second_creation_and_first_stays_intact() {
    let mut engine = SqlEngine::new(',').unwrap();
    let files = vec![source("a/t.csv", "x,y\n1,2\n"), source("b/t.csv", "x,y\n3,4\n")];

    let err = engine.load_files(&files).unwrap_err();

    assert!(matches!(err, ZsqlError::Engine { .. }));
    let lines = engine.query("SELECT * FROM t").unwrap();
    assert_eq!(lines, vec!["1,2\n"]);
}

#[test]
fn two_rows_produce_exactly_two_terminated_lines() {
    let mut engine = SqlEngine::new(',').unwrap();

    engine
        .load_files(&vec![source("t.csv", "x,y\na,b\nc,d\n")])
        .unwrap();
    let lines = engine.query("SELECT * FROM t").unwrap();

    assert_eq!(lines, vec!["a,b\n", "c,d\n"]);
    assert_eq!(lines.concat(), "a,b\nc,d\n");
}

#[test]
fn arity_mismatch_is_an_engine_error_and_rolls_the_load_back() {
    let mut engine = SqlEngine::new(',').unwrap();

    let err = engine
        .load_files(&vec![source("t.csv", "x,y\n1,2\n3\n")])
        .unwrap_err();

    assert!(matches!(err, ZsqlError::Engine { .. }));
    // the table exists, but the aborted transaction left no rows behind
    let lines = engine.query("SELECT * FROM t").unwrap();
    assert!(lines.is_empty());
}

#[test]
fn malformed_query_is_an_engine_error() {
    let engine = SqlEngine::new(',').unwrap();

    let err = engine.query("SELECT FROM").unwrap_err();

    assert!(matches!(err, ZsqlError::Engine { .. }));
    assert!(!err.message().is_empty());
}

#[test]
fn quoted_table_name_with_space_is_loadable_and_queryable() {
    let mut engine = SqlEngine::new(',').unwrap();

    engine
        .load_files(&vec![source("./test/foo bar.csv", "x,y\n1,2\n")])
        .unwrap();
    let lines = engine.query("SELECT * FROM 'foo bar'").unwrap();

    assert_eq!(lines, vec!["1,2\n"]);
}

#[test]
fn format_rows_joins_cells_and_terminates_each_line() {
    let rows = vec![
        vec!["a".to_string(), "b".to_string()],
        vec!["c".to_string(), "d".to_string()],
    ];

    assert_eq!(format_rows(&rows), vec!["a,b\n", "c,d\n"]);
    assert_eq!(format_rows(&vec![]), Vec::<String>::new());
}

#[test]
fn row_values_are_bound_not_spliced() {
    let mut engine = SqlEngine::new(',').unwrap();

    // a value holding the statement's own quote character loads unharmed
    engine
        .load_files(&vec![source("t.csv", "x,y\na\"b,c'd\n")])
        .unwrap();
    let lines = engine.query("SELECT * FROM t").unwrap();

    assert_eq!(lines, vec!["a\"b,c'd\n"]);
}

#[test]
fn custom_separator_splits_header_and_rows() {
    let mut engine = SqlEngine::new(';').unwrap();

    engine
        .load_files(&vec![source("t.csv", "x;y\n1;2\n")])
        .unwrap();
    let lines = engine.query("SELECT * FROM t").unwrap();

    assert_eq!(lines, vec!["1,2\n"]);
}
