use zsql::sql_preproc::{derive_name, pop_filenames_from_query};

#[test]
fn should_pop_filenames_from_query() {
    let (query, files) = pop_filenames_from_query(
        "SELECT * from test/fixtures/oscar_age.csv JOIN './test/foo bar.csv' WHERE Year=2014",
    );

    assert_eq!(query, "SELECT * from oscar_age JOIN 'foo bar' WHERE Year=2014");
    assert_eq!(files, vec!["test/fixtures/oscar_age.csv", "./test/foo bar.csv"]);
}

#[test]
fn rewrite_join_query() {
    let (query, files) = pop_filenames_from_query("SELECT * from t1.csv JOIN './t2.csv' WHERE x=1");

    assert_eq!(query, "SELECT * from t1 JOIN t2 WHERE x=1");
    assert_eq!(files, vec!["t1.csv", "./t2.csv"]);
}

#[test]
fn rewrite_same_token_twice_collapses_to_one_identifier() {
    let (query, files) = pop_filenames_from_query("SELECT * from t.csv JOIN t.csv");

    assert_eq!(query, "SELECT * from t JOIN t");
    assert_eq!(files, vec!["t.csv", "t.csv"]);
}

#[test]
fn rewrite_leaves_plain_text_alone() {
    let (query, files) = pop_filenames_from_query("SELECT a, b FROM t WHERE x=1");

    assert_eq!(query, "SELECT a, b FROM t WHERE x=1");
    assert!(files.is_empty());
}

#[test]
fn derive_name_strips_extension() {
    assert_eq!(derive_name("t1.csv"), "t1");
    assert_eq!(derive_name("oscar_age.csv"), "oscar_age");
}

#[test]
fn derive_name_strips_directories() {
    assert_eq!(derive_name("a/b/c.csv"), "c");
    assert_eq!(derive_name("./t2.csv"), "t2");
}

#[test]
fn derive_name_quotes_names_with_special_characters() {
    assert_eq!(derive_name("./test/foo bar.csv"), "'foo bar'");
}

#[test]
fn derive_name_of_bare_extension_is_a_quoted_empty_name() {
    assert_eq!(derive_name(".csv"), "''");
}

#[test]
fn token_followed_by_punctuation_is_rewritten() {
    let (query, files) = pop_filenames_from_query("SELECT * from t1.csv;");

    assert_eq!(query, "SELECT * from t1;");
    assert_eq!(files, vec!["t1.csv"]);
}

#[test]
fn tokens_each_followed_by_a_comma_are_both_rewritten() {
    let (query, files) = pop_filenames_from_query("SELECT * from a.csv, b.csv WHERE x=1");

    assert_eq!(query, "SELECT * from a, b WHERE x=1");
    assert_eq!(files, vec!["a.csv", "b.csv"]);
}
