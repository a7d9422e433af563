use rdap_utils::input::{
    entries_from_table, parse_csv, parse_items, parse_text, parse_usize, CsvTable,
};

#[test]
fn text_parsing_skips_blanks_and_comments() {
    let items = parse_text("  iana.org \n\n# a comment\nicann.org\n");
    assert_eq!(items, vec!["iana.org", "icann.org"]);
}

#[test]
fn csv_by_header_name_empty_cell_is_an_error_entry() {
    let items = parse_csv(
        "id,domain,note\n1,foo.com,x\n2,,y\n3,bar.net,z\n",
        Some("domain"),
    )
    .unwrap();
    assert_eq!(
        items,
        vec![
            Ok("foo.com".to_string()),
            Err("CSV line 3: empty value in column 'domain'".to_string()),
            Ok("bar.net".to_string()),
        ]
    );
}

#[test]
fn csv_by_index() {
    let items = parse_csv("id,domain,note\n1,foo.com,x\n2,bar.net,y\n", Some("2")).unwrap();
    assert_eq!(
        items,
        vec![Ok("foo.com".to_string()), Ok("bar.net".to_string())]
    );
}

#[test]
fn csv_short_row_is_an_error_entry() {
    let items = parse_csv("id,domain,note\n1\n", Some("2")).unwrap();
    assert_eq!(
        items,
        vec![Err(
            "CSV line 2: row has 1 column(s), need at least 2 for column '2'".to_string()
        )]
    );
}

#[test]
fn csv_missing_column_errors() {
    assert!(parse_csv("a,b\n1,2\n", Some("nope")).is_err());
    assert!(parse_csv("a,b\n1,2\n", None).is_err());
    assert!(parse_csv("a,b\n1,2\n", Some("9")).is_err());
    // index 0 is not a valid 1-based column index and must not panic
    assert!(parse_csv("a,b\n1,2\n", Some("0")).is_err());
}

#[test]
fn csv_header_match_is_case_insensitive() {
    let items = parse_csv("ID,Domain\n1,foo.com\n", Some("domain")).unwrap();
    assert_eq!(items, vec![Ok("foo.com".to_string())]);
}

#[test]
fn csv_column_error_messages() {
    assert_eq!(
        parse_csv("a,b\n1,2\n", Some("nope")),
        Err("column 'nope' not found in CSV header: a, b".to_string())
    );
    assert_eq!(
        parse_csv("a,b\n1,2\n", None),
        Err("CSV input requires --column <name|index>".to_string())
    );
    assert_eq!(
        parse_csv("a,b\n1,2\n", Some("9")),
        Err("column index 9 is out of range (CSV has 2 columns: a, b)".to_string())
    );
    assert_eq!(
        parse_csv("a,b\n1,2\n", Some("0")),
        Err("column index must be >= 1 (got '0')".to_string())
    );
}

#[test]
fn csv_first_matching_header_wins() {
    let items = parse_csv("Name,NAME\nfirst,second\n", Some("name")).unwrap();
    assert_eq!(items, vec![Ok("first".to_string())]);
}

#[test]
fn csv_fields_are_trimmed() {
    let items = parse_csv("x,y\n1,  spaced.example  \n", Some("Y")).unwrap();
    assert_eq!(items, vec![Ok("spaced.example".to_string())]);
}

fn strings(v: &[&str]) -> Vec<String> {
    v.iter().map(|s| s.to_string()).collect()
}

#[test]
fn table_without_header_row_is_an_error() {
    let table = CsvTable {
        headers: Err("boom".to_string()),
        records: vec![],
        failure: None,
    };
    assert_eq!(
        entries_from_table(&table, Some("1")),
        Err("CSV input has no header row: boom".to_string())
    );
}

#[test]
fn unreadable_record_stops_with_its_line_number() {
    let table = CsvTable {
        headers: Ok(strings(&["a"])),
        records: vec![strings(&["x"]), strings(&["y"])],
        failure: Some("bad record".to_string()),
    };
    assert_eq!(
        entries_from_table(&table, Some("a")),
        Err("failed to parse CSV line 4: bad record".to_string())
    );
}

#[test]
fn column_index_parsing_follows_usize_from_str() {
    assert_eq!(parse_usize("12"), Some(12));
    assert_eq!(parse_usize("+7"), Some(7));
    assert_eq!(parse_usize("007"), Some(7));
    assert_eq!(parse_usize("+"), None);
    assert_eq!(parse_usize(""), None);
    assert_eq!(parse_usize("-1"), None);
    assert_eq!(parse_usize("1a"), None);
    assert_eq!(parse_usize(" 1"), None);
    assert_eq!(parse_usize("99999999999999999999999999"), None);
    assert_eq!(parse_usize(&usize::MAX.to_string()), Some(usize::MAX));
}

#[test]
fn csv_is_chosen_by_column_or_extension() {
    assert_eq!(
        parse_items("list.CSV", "h\nv\n", Some("h")),
        Ok(vec![Ok("v".to_string())])
    );
    assert_eq!(
        parse_items("list.txt", "h\nv\n", None),
        Ok(vec![Ok("h".to_string()), Ok("v".to_string())])
    );
    assert_eq!(
        parse_items("list.csv", "h\nv\n", None),
        Err("CSV input requires --column <name|index>".to_string())
    );
}

#[test]
fn text_lines_may_end_with_crlf() {
    let items = parse_text("a.example\r\n\r\n  # note\r\nb.example");
    assert_eq!(items, vec!["a.example", "b.example"]);
}
