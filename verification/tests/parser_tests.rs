use httpautomate::http_file_parser::get_line_type;
use httpautomate::http_file_parser::parse_http_file;
use httpautomate::http_file_parser::parse_name;
use httpautomate::http_file_parser::parse_url;
use httpautomate::http_file_parser::LineType;

fn lines(v: &[&str]) -> Vec<String> {
    v.iter().map(|s| s.to_string()).collect()
}

#[test]
fn line_type_classification() {
    assert_eq!(get_line_type(&"### req".to_string()), LineType::NewRequest);
    assert_eq!(get_line_type(&"###".to_string()), LineType::NewRequest);
    assert_eq!(get_line_type(&"# @no-log".to_string()), LineType::ConfigOption);
    assert_eq!(get_line_type(&"# comment".to_string()), LineType::Comment);
    assert_eq!(get_line_type(&"#comment".to_string()), LineType::Comment);
    assert_eq!(get_line_type(&"".to_string()), LineType::Empty);
    assert_eq!(get_line_type(&"GET http://x".to_string()), LineType::Unknown);
}

#[test]
fn parse_url_trims() {
    assert_eq!(parse_url("  GET http://x  ".to_string()), "GET http://x");
    assert_eq!(parse_url("plain".to_string()), "plain");
    assert_eq!(parse_url("   ".to_string()), "");
}

#[test]
fn parse_name_strips_marker_and_trims() {
    assert_eq!(parse_name("###  req one  ".to_string()), "req one");
    assert_eq!(parse_name("###".to_string()), "");
    assert_eq!(parse_name("###title".to_string()), "title");
}

#[test]
fn three_records_in_order() {
    let input = lines(&[
        "### title",
        "GET http://a",
        "### r2",
        "POST http://b",
        "### r3",
        "GET http://c",
        "### end",
    ]);
    let recs = parse_http_file(&input).unwrap();
    assert_eq!(recs.len(), 3);
    assert_eq!(recs[0].request_no, 1);
    assert_eq!(recs[1].request_no, 2);
    assert_eq!(recs[2].request_no, 3);
    assert_eq!(recs[0].name, "title");
    assert_eq!(recs[1].name, "r2");
    assert_eq!(recs[2].name, "r3");
    assert_eq!(recs[0].unresolved_url, "GET http://a");
    assert_eq!(recs[1].unresolved_url, "POST http://b");
    assert_eq!(recs[2].unresolved_url, "GET http://c");
}

#[test]
fn trailing_record_is_discarded() {
    let input = lines(&["### a", "GET http://x", "### b", "GET http://y"]);
    let recs = parse_http_file(&input).unwrap();
    assert_eq!(recs.len(), 1);
    assert_eq!(recs[0].name, "a");
}

#[test]
fn title_only_file_yields_nothing() {
    let input = lines(&["### title", "GET http://x"]);
    let recs = parse_http_file(&input).unwrap();
    assert_eq!(recs.len(), 0);
}

#[test]
fn marker_without_request_line_renames() {
    let input = lines(&["### a", "### b", "GET http://x", "### end"]);
    let recs = parse_http_file(&input).unwrap();
    assert_eq!(recs.len(), 1);
    assert_eq!(recs[0].name, "b");
}

#[test]
fn headers_body_and_blank_line_in_body() {
    let input = lines(&[
        "### t",
        "GET http://u",
        "H1: v1",
        "",
        "body line 1",
        "",
        "body line 2",
        "### end",
    ]);
    let recs = parse_http_file(&input).unwrap();
    assert_eq!(recs.len(), 1);
    assert_eq!(recs[0].unresolved_headers, vec!["H1: v1".to_string()]);
    assert_eq!(
        recs[0].unresolved_body,
        vec!["body line 1".to_string(), "".to_string(), "body line 2".to_string()]
    );
}

#[test]
fn config_options_are_collected() {
    let input = lines(&["# top comment", "# @no-log", "### t", "GET http://u", "### end"]);
    let recs = parse_http_file(&input).unwrap();
    assert_eq!(recs.len(), 1);
    assert_eq!(recs[0].options, vec!["# @no-log".to_string()]);
}

#[test]
fn second_header_line_is_fatal() {
    let input = lines(&["### t", "GET http://u", "A: 1", "B: 2"]);
    let err = parse_http_file(&input).unwrap_err();
    assert_eq!(err.error, "Unhandled state Header/Unknown");
    assert_eq!(err.line_no, 4);
    assert_eq!(err.line, "B: 2");
    let msg = err.message();
    assert!(msg.starts_with("Unhandled state Header/Unknown while parsing file"));
    assert!(msg.ends_with("in line #4:\nB: 2"));
}

#[test]
fn empty_line_after_marker_is_fatal() {
    let input = lines(&["### t", "", "GET http://u", "### end"]);
    let err = parse_http_file(&input).unwrap_err();
    assert_eq!(err.error, "Unhandled state NewRequest/Empty");
    assert_eq!(err.line_no, 2);
    assert_eq!(err.line, "");
}

#[test]
fn parsing_is_idempotent() {
    let input = lines(&[
        "### title",
        "GET http://a",
        "### r2",
        "POST http://b",
        "H: v",
        "",
        "payload",
        "### end",
    ]);
    let first = parse_http_file(&input).unwrap();
    let second = parse_http_file(&input).unwrap();
    assert_eq!(first, second);
}
