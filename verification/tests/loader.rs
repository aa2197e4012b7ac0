use zsql::csv_loader::{Csv, CsvLoader};

const OSCAR_AGE: &str = "id,Year,Age,Name,Movie\n\
87,2014,44,Matthew McConaughey,Dallas Buyers Club\n\
85,2012,39,Jean Dujardin,The Artist\n\
88,2015,41,Eddie Redmayne,The Theory of Everything\n";

#[test]
fn csv_loader_should_load_file() {
    let mut manager = CsvLoader::new();
    let content = Some(OSCAR_AGE.to_string());

    manager.load("test/fixtures/oscar_age.csv", &content, ',').unwrap();

    assert_eq!(manager.csvs[0].filename, "oscar_age.csv");
    assert_eq!(manager.csvs[0].columns, ["id", "Year", "Age", "Name", "Movie"]);
}

#[test]
fn csv_loader_should_return_err_if_file_not_found() {
    let mut manager = CsvLoader::new();

    let result = manager.load("test/fixtures/file_that_doesnt_exists.csv", &None, ',');

    match result {
        Err(err) => {
            assert_eq!(
                err.message(),
                "No such file 'test/fixtures/file_that_doesnt_exists.csv'"
            );
        }
        Ok(_) => panic!("result is not error"),
    }
}

#[test]
fn header_is_consumed_once_and_not_a_data_row() {
    let content = Some("a,b\n1,2\n3,4\n".to_string());

    let csv = Csv::new("t.csv", &content, ',').unwrap();

    assert_eq!(csv.columns, ["a", "b"]);
    assert_eq!(csv.lines(), &vec!["1,2".to_string(), "3,4".to_string()]);
}

#[test]
fn header_fields_are_trimmed_and_unquoted() {
    let content = Some("\"id\" , Year\n1,2\n".to_string());

    let csv = Csv::new("h.csv", &content, ',').unwrap();

    assert_eq!(csv.columns, ["id", "Year"]);
}

#[test]
fn carriage_returns_are_stripped_from_lines() {
    let content = Some("a,b\r\n1,2\r\n".to_string());

    let csv = Csv::new("t.csv", &content, ',').unwrap();

    assert_eq!(csv.columns, ["a", "b"]);
    assert_eq!(csv.lines(), &vec!["1,2".to_string()]);
}

#[test]
fn empty_content_is_rejected() {
    let content = Some(String::new());

    let err = Csv::new("empty.csv", &content, ',').unwrap_err();

    assert_eq!(err.message(), "Unable to read contents of 'empty.csv'");
}
