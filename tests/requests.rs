use webserver::dispatch::{after_file_read, dispatch, handle_request, Step};
use webserver::request::{HttpHeader, RequestType};
use webserver::response::{create_response, respond_error_404};

fn parsed(text: &str) -> HttpHeader {
    match HttpHeader::parse(text) {
        Some(h) => h,
        None => panic!("no request parsed from {:?}", text),
    }
}

fn read_path(step: Step) -> String {
    match step {
        Step::ReadFile(p) => p,
        Step::ReadNotFoundPage => panic!("not found"),
        Step::Send(s) => panic!("sent {:?}", s),
    }
}

fn sent(step: Step) -> String {
    match step {
        Step::Send(s) => s,
        Step::ReadFile(p) => panic!("read {:?}", p),
        Step::ReadNotFoundPage => panic!("not found"),
    }
}

fn is_not_found(step: &Step) -> bool {
    matches!(step, Step::ReadNotFoundPage)
}

#[test]
fn get_with_host_header_is_parsed() {
    let h = parsed("GET /index.html HTTP/1.1\r\nHost: x\r\n\r\n");
    assert_eq!(h.request_type, RequestType::Get);
    assert_eq!(h.uri, "/index.html");
    assert_eq!(h.version, "HTTP/1.1");
    assert_eq!(h.headers.len(), 1);
    assert_eq!(h.headers.get("Host").map(|s| s.as_str()), Some("x"));
    assert!(h.content.is_none());
}

#[test]
fn get_existing_file_serves_it() {
    let step = handle_request("GET /index.html HTTP/1.1\r\nHost: x\r\n\r\n");
    assert_eq!(read_path(step), "index.html");
    let response = sent(after_file_read(Some(String::from("hi"))));
    assert_eq!(response, "HTTP/1.1 200 OK\r\nContentLength: 2\r\n\r\nhi");
}

#[test]
fn get_missing_file_is_not_found() {
    let step = handle_request("GET /missing.html HTTP/1.1\r\n\r\n");
    assert_eq!(read_path(step), "missing.html");
    let next = after_file_read(None);
    assert!(is_not_found(&next));
    assert_eq!(
        respond_error_404("<h1>Oops</h1>"),
        "HTTP/1.1 404 NOT FOUND\r\n\r\n<h1>Oops</h1>"
    );
}

#[test]
fn post_gets_the_missing_file_response() {
    let text = "POST /anything HTTP/1.1\r\n\r\nbody-data\r\n";
    let h = parsed(text);
    assert_eq!(h.request_type, RequestType::Post);
    assert_eq!(h.content.as_deref(), Some("body-data\r\n"));
    assert!(is_not_found(&handle_request(text)));
    assert!(is_not_found(&after_file_read(None)));
}

#[test]
fn put_is_not_found_whatever_the_uri() {
    assert!(is_not_found(&handle_request("PUT /index.html HTTP/1.1\r\n\r\nx")));
    assert!(is_not_found(&handle_request("PUT ??? HTTP/1.1\r\n\r\n")));
}

#[test]
fn unparsable_text_is_not_found() {
    assert!(is_not_found(&dispatch(&None)));
    assert!(is_not_found(&handle_request("")));
}

#[test]
fn wrong_token_count_gives_no_request() {
    assert!(HttpHeader::parse("GET /index.html\r\n\r\n").is_none());
    assert!(HttpHeader::parse("GET /index.html HTTP/1.1 extra\r\n\r\n").is_none());
    assert!(HttpHeader::parse("GET  /index.html HTTP/1.1\r\n\r\n").is_none());
    assert!(HttpHeader::parse("\r\n").is_none());
    assert!(HttpHeader::parse("").is_none());
}

#[test]
fn unknown_method_gives_no_request() {
    assert!(HttpHeader::parse("get /index.html HTTP/1.1\r\n\r\n").is_none());
    assert!(HttpHeader::parse("DELETE /index.html HTTP/1.1\r\n\r\n").is_none());
    assert!(HttpHeader::parse("GETS /index.html HTTP/1.1\r\n\r\n").is_none());
}

#[test]
fn methods_are_recognised() {
    assert_eq!(parsed("GET / HTTP/1.1").request_type, RequestType::Get);
    assert_eq!(parsed("PUT / HTTP/1.1").request_type, RequestType::Put);
    assert_eq!(parsed("POST / HTTP/1.1").request_type, RequestType::Post);
}

#[test]
fn single_header_parses_to_one_entry() {
    let h = parsed("GET / HTTP/1.1\r\nkey: value\r\n\r\n");
    assert_eq!(h.headers.len(), 1);
    assert_eq!(h.headers.get("key").map(|s| s.as_str()), Some("value"));
    assert!(h.headers.get("value").is_none());
}

#[test]
fn later_duplicate_header_wins() {
    let h = parsed("GET / HTTP/1.1\r\nkey: first\r\nother: o\r\nkey: second\r\n\r\n");
    assert_eq!(h.headers.len(), 2);
    assert_eq!(h.headers.get("key").map(|s| s.as_str()), Some("second"));
    assert_eq!(h.headers.get("other").map(|s| s.as_str()), Some("o"));
}

#[test]
fn header_keys_are_case_sensitive() {
    let h = parsed("GET / HTTP/1.1\r\nHost: a\r\nhost: b\r\n\r\n");
    assert_eq!(h.headers.len(), 2);
    assert_eq!(h.headers.get("Host").map(|s| s.as_str()), Some("a"));
    assert_eq!(h.headers.get("host").map(|s| s.as_str()), Some("b"));
}

#[test]
fn header_splits_at_first_colon_and_trims() {
    let h = parsed("GET / HTTP/1.1\r\n \tHost :  localhost:7878 \t\r\n\r\n");
    assert_eq!(h.headers.get("Host").map(|s| s.as_str()), Some("localhost:7878"));
}

#[test]
fn header_line_without_colon_gives_no_request() {
    assert!(HttpHeader::parse("GET / HTTP/1.1\r\nHost x\r\n\r\n").is_none());
}

#[test]
fn truncated_request_gives_no_request() {
    assert!(HttpHeader::parse("GET / HTTP/1.1\r\nHost: x\r\nAccept-Enc").is_none());
}

#[test]
fn headers_end_at_input_end() {
    let h = parsed("POST /a HTTP/1.1\r\nA: 1");
    assert_eq!(h.headers.len(), 1);
    assert!(h.content.is_none());
}

#[test]
fn get_ignores_lines_after_headers() {
    let h = parsed("GET / HTTP/1.1\r\n\r\nnot a header\r\n");
    assert_eq!(h.headers.len(), 0);
    assert!(h.content.is_none());
}

#[test]
fn body_lines_are_joined_with_crlf() {
    let h = parsed("PUT /f HTTP/1.1\r\nA: b\r\n\r\nline one\nline two\r\n\r\nlast");
    assert_eq!(h.request_type, RequestType::Put);
    assert_eq!(h.content.as_deref(), Some("line one\r\nline two\r\n\r\nlast\r\n"));
}

#[test]
fn empty_body_is_none() {
    assert!(parsed("POST /f HTTP/1.1\r\n\r\n").content.is_none());
}

#[test]
fn bare_carriage_return_stays_in_last_line() {
    let h = parsed("POST /f HTTP/1.1\n\nbody\r");
    assert_eq!(h.content.as_deref(), Some("body\r\r\n"));
}

#[test]
fn uri_without_slash_is_used_as_path() {
    assert_eq!(read_path(handle_request("GET page.html HTTP/1.1\r\n\r\n")), "page.html");
    assert_eq!(read_path(handle_request("GET / HTTP/1.1\r\n\r\n")), "");
}

#[test]
fn length_field_counts_bytes() {
    assert_eq!(create_response("é"), "HTTP/1.1 200 OK\r\nContentLength: 2\r\n\r\né");
    assert_eq!(create_response(""), "HTTP/1.1 200 OK\r\nContentLength: 0\r\n\r\n");
    let long = "a".repeat(1234);
    assert_eq!(create_response(&long), format!("HTTP/1.1 200 OK\r\nContentLength: 1234\r\n\r\n{}", long));
}

#[test]
fn not_found_response_with_empty_page() {
    assert_eq!(respond_error_404(""), "HTTP/1.1 404 NOT FOUND\r\n\r\n");
}
