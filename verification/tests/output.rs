use xcount::output::{parse_format, CrawlResult, OutputKind};
use xcount::source::{Source, SourceError};

#[test]
fn formats_by_name() {
    assert_eq!(parse_format("json"), Ok(OutputKind::Json));
    assert_eq!(parse_format("csv"), Ok(OutputKind::Csv));
    assert_eq!(parse_format("excel"), Ok(OutputKind::Excel));
}

#[test]
fn unknown_format() {
    assert_eq!(parse_format("xlsx"), Err("Invalid format: xlsx".to_string()));
    assert_eq!(parse_format("JSON"), Err("Invalid format: JSON".to_string()));
    assert_eq!(parse_format(""), Err("Invalid format: ".to_string()));
}

#[test]
fn extensions() {
    assert_eq!(OutputKind::Json.extension(), "json");
    assert_eq!(OutputKind::Csv.extension(), "csv");
    assert_eq!(OutputKind::Excel.extension(), "xlsx");
}

#[test]
fn file_names() {
    assert_eq!(
        OutputKind::Json.export_file_name("2025-06-14-15:30"),
        "output-2025-06-14-15:30.json"
    );
    assert_eq!(OutputKind::Csv.export_file_name("x"), "output-x.csv");
    assert_eq!(OutputKind::Excel.export_file_name("x"), "output-x.xlsx");
}

#[test]
fn result_fields() {
    let r = CrawlResult::new("daviddanielng".to_string(), 418, 166);
    assert_eq!(r.username, "daviddanielng");
    assert_eq!(r.followers, 418);
    assert_eq!(r.following, 166);
}

#[test]
fn usernames_from_list() {
    let s = Source { username: Some("daviddanielng,elonmusk,github".to_string()), input: None };
    assert_eq!(s.get_usernames(), Ok(vec!["daviddanielng".to_string(), "elonmusk".to_string(), "github".to_string()]));
    let one = Source { username: Some("solo".to_string()), input: None };
    assert_eq!(one.get_usernames(), Ok(vec!["solo".to_string()]));
}

#[test]
fn list_wins_over_file() {
    let s = Source { username: Some("a,b".to_string()), input: Some("c\n".to_string()) };
    assert_eq!(s.get_usernames(), Ok(vec!["a".to_string(), "b".to_string()]));
}

#[test]
fn usernames_from_file() {
    let s = Source { username: None, input: Some("daviddanielng\nelonmusk\r\ngithub\n".to_string()) };
    assert_eq!(s.get_usernames(), Ok(vec!["daviddanielng".to_string(), "elonmusk".to_string(), "github".to_string()]));
}

#[test]
fn empty_file() {
    let s = Source { username: None, input: Some(String::new()) };
    assert_eq!(s.get_usernames(), Err(SourceError::EmptyFile));
    assert_eq!(SourceError::EmptyFile.message(), "file is empty");
}

#[test]
fn no_input() {
    let s = Source { username: None, input: None };
    assert_eq!(s.get_usernames(), Err(SourceError::NoInput));
    assert_eq!(SourceError::NoInput.message(), "no input");
}
