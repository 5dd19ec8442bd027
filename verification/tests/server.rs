use fileserve::build_response;
use fileserve::plan_request;
use fileserve::render_listing;
use fileserve::FetchFailure;
use fileserve::FsEntry;
use fileserve::HttpError;
use fileserve::HttpField;
use fileserve::ResolvedContent;
use fileserve::request::all_fields;
use fileserve::request::candidate_path;
use fileserve::request::parse_request;
use fileserve::request::ParsedRequest;

fn contains(haystack: &[u8], needle: &[u8]) -> bool {
    if needle.len() > haystack.len() {
        return false;
    }
    for start in 0..=(haystack.len() - needle.len()) {
        if &haystack[start..start + needle.len()] == needle {
            return true;
        }
    }
    false
}

fn entry(name: &str, is_dir: bool) -> FsEntry {
    FsEntry { name: name.as_bytes().to_vec(), is_dir }
}

#[test]
fn parse_request_reads_the_request_line() {
    let bytes = b"GET /a.txt HTTP/1.1\r\nHost: localhost\r\n\r\n";
    let parsed = parse_request(bytes).expect("well-formed request");
    assert_eq!(parsed.version, Some(1));
    assert_eq!(parsed.method.as_deref(), Some("GET"));
    assert_eq!(parsed.path.as_deref(), Some("/a.txt"));
}

#[test]
fn parse_request_rejects_garbage() {
    let bytes = b"\x00\x01\x02 garbage\r\n\r\n";
    assert!(matches!(parse_request(bytes), Err(HttpError::FailedParse)));
}

#[test]
fn parse_request_on_zeroed_buffer_fails_without_panic() {
    let buf = [0u8; 1024];
    assert!(parse_request(&buf).is_err());
}

#[test]
fn truncated_request_reports_its_first_missing_field() {
    let bytes = b"GET ";
    match plan_request(bytes, ".") {
        Err(HttpError::MissingField(HttpField::Version)) => {}
        other => panic!("expected a missing version, got {:?}", other.is_ok()),
    }
}

#[test]
fn all_fields_accepts_a_complete_request() {
    let parsed = ParsedRequest {
        version: Some(1),
        method: Some(String::from("GET")),
        path: Some(String::from("/x")),
    };
    let fields = all_fields(&parsed).expect("all fields present");
    assert_eq!(fields.version, 1);
    assert_eq!(fields.method, "GET");
    assert_eq!(fields.path, "/x");
}

#[test]
fn all_fields_names_the_missing_method() {
    let parsed = ParsedRequest {
        version: Some(1),
        method: None,
        path: Some(String::from("/x")),
    };
    assert!(matches!(all_fields(&parsed), Err(HttpError::MissingField(HttpField::Method))));
}

#[test]
fn all_fields_names_the_missing_path() {
    let parsed = ParsedRequest {
        version: Some(1),
        method: Some(String::from("GET")),
        path: None,
    };
    assert!(matches!(all_fields(&parsed), Err(HttpError::MissingField(HttpField::Path))));
}

#[test]
fn all_fields_reports_the_version_before_the_method() {
    let parsed = ParsedRequest { version: None, method: None, path: None };
    assert!(matches!(all_fields(&parsed), Err(HttpError::MissingField(HttpField::Version))));
}

#[test]
fn candidate_path_concatenates_verbatim() {
    assert_eq!(candidate_path("./root", "/a.txt"), "./root/a.txt");
    assert_eq!(candidate_path(".", "/sub/"), "./sub/");
}

#[test]
fn plan_request_builds_the_candidate_path() {
    let bytes = b"GET /a.txt HTTP/1.1\r\nHost: localhost\r\n\r\n";
    let plan = plan_request(bytes, "./root").expect("well-formed request");
    assert_eq!(plan.fields.method, "GET");
    assert_eq!(plan.fields.path, "/a.txt");
    assert_eq!(plan.candidate, "./root/a.txt");
}

#[test]
fn listing_of_an_empty_directory_is_exact() {
    let page = render_listing("/", Vec::new());
    let expected = "<!DOCTYPE HTML><html><head><title>Directory listing for /</title>\
        </head><body><h1>Directory listing for /</h1><hr><ul></ul></body></html>";
    assert_eq!(page, expected.as_bytes());
}

#[test]
fn listing_orders_directories_before_files_and_sorts_each_group() {
    let entries = vec![
        entry("b.txt", false),
        entry("zdir", true),
        entry("a.txt", false),
        entry("adir", true),
    ];
    let page = render_listing("/", entries);
    let expected = "<!DOCTYPE HTML><html><head><title>Directory listing for /</title>\
        </head><body><h1>Directory listing for /</h1><hr><ul>\
        <li><a href=adir/>adir/</a></li>\
        <li><a href=zdir/>zdir/</a></li>\
        <li><a href=a.txt>a.txt</a></li>\
        <li><a href=b.txt>b.txt</a></li>\
        </ul></body></html>";
    assert_eq!(page, expected.as_bytes());
}

#[test]
fn listing_rendering_is_idempotent() {
    let first = render_listing("/sub/", vec![entry("b.txt", false), entry("c", true)]);
    let second = render_listing("/sub/", vec![entry("b.txt", false), entry("c", true)]);
    assert_eq!(first, second);
}

#[test]
fn listing_is_unchanged_by_the_order_entries_arrive_in() {
    let first = render_listing("/", vec![entry("x", false), entry("y", true)]);
    let second = render_listing("/", vec![entry("y", true), entry("x", false)]);
    assert_eq!(first, second);
}

#[test]
fn directory_response_frames_the_listing() {
    let html = b"<html>page</html>".to_vec();
    let response = build_response(Ok(ResolvedContent::Directory(html)));
    let expected =
        b"HTTP/1.1 200 Ok\nContent-Type: text/html; charset=utf-8\n\n<html>page</html>";
    assert_eq!(response, expected);
}

#[test]
fn file_response_keeps_the_bytes_exact() {
    let body = vec![0u8, 159, 146, 150, 10];
    let response = build_response(Ok(ResolvedContent::File(body.clone())));
    let head = b"HTTP/1.1 200 Ok\nContent-Type: text/html; charset=utf-8\n\
        Content-Disposition: attachment\n\n";
    assert_eq!(&response[..head.len()], &head[..]);
    assert_eq!(&response[head.len()..], &body[..]);
}

#[test]
fn not_found_response_is_exact() {
    let response = build_response(Err(FetchFailure::NotFound));
    let expected = b"HTTP/1.1 404 Not Found\nContent-Type: text/html; charset=utf-8\n\n\
        <h1> Error: File Not Found";
    assert_eq!(response, expected);
}

#[test]
fn server_error_response_is_exact() {
    let response = build_response(Err(FetchFailure::IoFailure));
    let expected = b"HTTP/1.1 500 Server Error\nContent-Type: text/html; charset=utf-8\n\n\
        <h1> 500 Internal Error";
    assert_eq!(response, expected);
}

#[test]
fn end_to_end_file_directory_and_missing_paths() {
    // The root directory holds a.txt ("hello") and the subdirectory sub/
    // holding b.txt. GET /a.txt: 200 with body "hello".
    let file_response = build_response(Ok(ResolvedContent::File(b"hello".to_vec())));
    assert!(file_response.starts_with(b"HTTP/1.1 200 Ok\n"));
    assert!(file_response.ends_with(b"\n\nhello"));

    // The root listing shows both children, the subdirectory first.
    let root_page = render_listing("/", vec![entry("a.txt", false), entry("sub", true)]);
    assert!(contains(&root_page, b"<li><a href=sub/>sub/</a></li>"));
    assert!(contains(&root_page, b"<li><a href=a.txt>a.txt</a></li>"));

    // GET /sub/: 200 HTML listing with an anchor for b.txt.
    let sub_page = render_listing("/sub/", vec![entry("b.txt", false)]);
    let sub_response = build_response(Ok(ResolvedContent::Directory(sub_page)));
    assert!(sub_response.starts_with(b"HTTP/1.1 200 Ok\nContent-Type: text/html"));
    assert!(contains(&sub_response, b"<li><a href=b.txt>b.txt</a></li>"));

    // GET /missing: 404 whose body names the failure.
    let missing = build_response(Err(FetchFailure::NotFound));
    assert!(missing.starts_with(b"HTTP/1.1 404 Not Found\n"));
    assert!(contains(&missing, b"File Not Found"));
}
