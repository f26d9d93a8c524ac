use httpautomate::http_request::HttpRequest;
use httpautomate::http_request_executor::Method;
use httpautomate::http_request_executor::RequestError;
use httpautomate::http_request_executor::VariableStorage;

fn req(url: &str) -> HttpRequest {
    HttpRequest { unresolved_url: url.to_string(), ..HttpRequest::default() }
}

fn store(pairs: &[(&str, &str)]) -> VariableStorage {
    let mut s = VariableStorage::new();
    for (k, v) in pairs {
        s.set(&k.to_string(), &v.to_string());
    }
    s
}

#[test]
fn method_defaults_to_get() {
    assert_eq!(req("https://example.com/").method().unwrap(), Method::Get);
}

#[test]
fn method_post_is_resolved() {
    assert_eq!(req("POST https://example.com/").method().unwrap(), Method::Post);
}

#[test]
fn method_each_supported_token() {
    assert_eq!(req("GET https://x/").method().unwrap(), Method::Get);
    assert_eq!(req("PUT https://x/").method().unwrap(), Method::Put);
    assert_eq!(req("DELETE https://x/").method().unwrap(), Method::Delete);
    assert_eq!(req("get https://x/").method().unwrap(), Method::Get);
    assert_eq!(req("dElEtE https://x/").method().unwrap(), Method::Delete);
}

#[test]
fn method_with_leading_whitespace_line() {
    let r = req("\n            POST https://www.rust-lang.org/");
    assert_eq!(r.method().unwrap(), Method::Post);
}

#[test]
fn unsupported_method_token_is_an_error() {
    let e = req("PATCH https://example.com/").method().unwrap_err();
    match &e {
        RequestError::UnknownMethod(t) => assert_eq!(t, "PATCH"),
        _ => panic!("expected an unknown-method error"),
    }
    assert_eq!(e.message(), "PATCH is a unknown http method");
}

#[test]
fn numeric_method_token_is_an_error() {
    let e = req("10 https://www.rust-lang.org/").method().unwrap_err();
    assert!(matches!(e, RequestError::UnknownMethod(_)));
}

#[test]
fn three_tokens_cannot_determine_method() {
    let e = req("GET https://www rust-lang org/").method().unwrap_err();
    match &e {
        RequestError::MethodNotDeterminable(u) => {
            assert_eq!(u, "GET https://www rust-lang org/")
        },
        _ => panic!("expected a method-not-determinable error"),
    }
    assert!(e.message().starts_with("Invalid URL, http method couldn't be determined"));
}

#[test]
fn empty_request_line_has_no_url() {
    assert!(matches!(req("").method().unwrap_err(), RequestError::NoUrlGiven));
    assert!(matches!(req("   ").method().unwrap_err(), RequestError::NoUrlGiven));
}

#[test]
fn name_label_is_number_and_name() {
    let mut r = req("GET https://x/");
    r.request_no = 3;
    r.name = "my request".to_string();
    assert_eq!(r.name(), "#3 my request");
    let d = HttpRequest::default();
    assert_eq!(d.name(), "#0 ");
}

#[test]
fn uri_end_to_end_with_variable() {
    let s = store(&[("base", "http://localhost:9999")]);
    let r = req("GET {{base}}/ping");
    assert_eq!(r.method().unwrap(), Method::Get);
    assert_eq!(r.uri(&s).unwrap(), "http://localhost:9999/ping");
}

#[test]
fn uri_without_method_token() {
    let s = store(&[("base", "http://localhost:9999")]);
    assert_eq!(req("{{base}}/ping").uri(&s).unwrap(), "http://localhost:9999/ping");
}

#[test]
fn uri_that_does_not_parse_is_an_error() {
    let s = store(&[("base", "not a url")]);
    let e = req("GET {{base}}").uri(&s).unwrap_err();
    match &e {
        RequestError::InvalidUrl(t) => assert_eq!(t, "{{base}}"),
        _ => panic!("expected an invalid-url error"),
    }
}

#[test]
fn uri_takes_the_second_token_even_with_extra_tokens() {
    let s = store(&[]);
    assert_eq!(req("GET http://a/b extra").uri(&s).unwrap(), "http://a/b");
}

#[test]
fn uri_of_empty_line_is_no_url() {
    let s = store(&[]);
    assert!(matches!(req("").uri(&s).unwrap_err(), RequestError::NoUrlGiven));
}

#[test]
fn header_name_and_value_are_trimmed_and_resolved() {
    let s = store(&[("token", "42")]);
    let mut r = req("GET https://x/");
    r.unresolved_headers = vec!["X-Test: {{token}}".to_string()];
    let hs = r.headers(&s).unwrap();
    assert_eq!(hs, vec![("X-Test".to_string(), "42".to_string())]);
}

#[test]
fn duplicate_headers_keep_their_order() {
    let s = store(&[]);
    let mut r = req("GET https://x/");
    r.unresolved_headers = vec![
        "Accept: text/plain".to_string(),
        "Accept: application/json".to_string(),
    ];
    let hs = r.headers(&s).unwrap();
    assert_eq!(hs.len(), 2);
    assert_eq!(hs[0], ("Accept".to_string(), "text/plain".to_string()));
    assert_eq!(hs[1], ("Accept".to_string(), "application/json".to_string()));
}

#[test]
fn header_value_may_hold_colons() {
    let s = store(&[]);
    let mut r = req("GET https://x/");
    r.unresolved_headers = vec!["Referer: https://a/b:1".to_string()];
    let hs = r.headers(&s).unwrap();
    assert_eq!(hs[0], ("Referer".to_string(), "https://a/b:1".to_string()));
}

#[test]
fn header_without_colon_is_fatal() {
    let s = store(&[]);
    let mut r = req("GET https://x/");
    r.unresolved_headers = vec!["NoColonHere".to_string()];
    let e = r.headers(&s).unwrap_err();
    match &e {
        RequestError::MalformedHeader(l) => assert_eq!(l, "NoColonHere"),
        _ => panic!("expected a malformed-header error"),
    }
}

#[test]
fn body_lines_are_resolved_and_joined() {
    let s = store(&[("x", "1")]);
    let mut r = req("POST https://x/");
    r.unresolved_body = vec!["a {{x}}".to_string(), "".to_string(), "b".to_string()];
    assert_eq!(r.body(&s), "a 1\n\nb");
}

#[test]
fn empty_body_is_the_empty_string() {
    let s = store(&[]);
    assert_eq!(req("GET https://x/").body(&s), "");
}
