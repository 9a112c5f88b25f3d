use tofino::schemes::http::{HttpRequest, HttpResponse, HttpVersion, ResponseParseError};
use tofino::schemes::https::{HttpsRequest, HttpsResponse};
use tofino::schemes::BuildResource;
use tofino::resources::Resource;

#[test]
fn parse_empty_response() {
    let response = "";
    let result = HttpResponse::from_str(response);
    assert!(
        result.is_err_and(|e| matches!(e, ResponseParseError::EmptyResponse)
            && e.to_string() == "Received an empty response")
    );
}

#[test]
fn parse_response_with_bad_version() {
    let statusline = String::from("HTTP/2.0 200 OK");
    let response = statusline + "\r\nContent-Type: text/html\r\n";
    let result = HttpResponse::from_str(&response);
    assert!(
        result.is_err_and(|e| matches!(e, ResponseParseError::BadVersion(_))
            && e.to_string() == "Could not interpret HTTP version: HTTP/2.0")
    );
}

#[test]
fn parse_response_with_bad_status_code() {
    let statusline = String::from("HTTP/1.0");
    let response = statusline + "\r\nContent-Type: text/html\r\n";
    let result = HttpResponse::from_str(&response);
    assert!(
        result.is_err_and(|e| matches!(e, ResponseParseError::BadStatus(_))
            && e.to_string()
                == "Could not interpret HTTP status code from status line: HTTP/1.0")
    );
}

#[test]
fn parse_response_with_bad_explanation() {
    let statusline = String::from("HTTP/1.0 200");
    let response = statusline + "\r\nContent-Type: text/html\r\n";
    let result = HttpResponse::from_str(&response);
    assert!(
        result.is_err_and(|e| matches!(e, ResponseParseError::BadExplanation(_))
            && e.to_string()
                == "Could not interpret HTTP explanation from status line: HTTP/1.0 200")
    );
}

#[test]
fn parse_response_with_bad_headers() {
    let statusline = String::from("HTTP/1.0 200 OK");
    let response = statusline + "\r\n";
    let result = HttpResponse::from_str(&response);
    assert!(
        result.is_err_and(|e| matches!(e, ResponseParseError::BadHeaders)
            && e.to_string() == "Could not parse HTTP response headers")
    );
}

#[test]
fn parse_response_with_bad_header() {
    let statusline = String::from("HTTP/1.0 200 OK");
    let response = statusline + "\r\nContent-Type; text/html\r\n";
    let result = HttpResponse::from_str(&response);
    assert!(
        result.is_err_and(|e| matches!(e, ResponseParseError::BadHeader(_))
            && e.to_string() == "Could not parse header: Content-Type; text/html")
    );
}

#[test]
fn parse_full_response() {
    let response = "http/1.1 404 not found\r\nContent-Type: text/HTML\r\nX-Twice: a\r\nx-twice: b\r\n\r\n<p>line one</p>\r\nline two\r\n";
    let r = HttpResponse::from_str(response).unwrap();
    assert_eq!(r.version, HttpVersion::Http11);
    assert_eq!(r.status, "404");
    assert_eq!(r.explanation, "NOT FOUND");
    assert_eq!(r.headers.len(), 2);
    assert_eq!(r.headers.get("content-type").unwrap(), "text/HTML");
    assert_eq!(r.headers.get("x-twice").unwrap(), "b");
    assert!(r.headers.get("Content-Type").is_none());
    assert_eq!(r.body, "<p>line one</p>line two");
    assert_eq!(r.to_string(), "<p>line one</p>line two");
}

#[test]
fn parse_response_with_bare_newlines_and_empty_body() {
    let r = HttpResponse::from_str("HTTP/1.0 200 OK\n\n").unwrap();
    assert_eq!(r.version, HttpVersion::Http10);
    assert_eq!(r.headers.len(), 0);
    assert_eq!(r.body, "");
}

#[test]
fn header_without_space_after_colon_is_refused() {
    let result = HttpResponse::from_str("HTTP/1.0 200 OK\r\nHost:x\r\n\r\n");
    assert!(result.is_err_and(|e| matches!(e, ResponseParseError::BadHeader(ref s) if s == "Host:x")));
}

#[test]
fn version_names_read_back() {
    assert_eq!(HttpVersion::from_str("http/1.0").unwrap(), HttpVersion::Http10);
    assert_eq!(HttpVersion::from_str(HttpVersion::Http11.as_str()).unwrap(), HttpVersion::Http11);
    assert!(HttpVersion::from_str("http/0.9")
        .is_err_and(|e| e.to_string() == "Could not interpret HTTP version: HTTP/0.9"));
}

#[test]
fn https_response_parses_like_http() {
    let text = "HTTP/1.0 301 Moved Permanently\r\nLocation: https://example.org/\r\n\r\nmoved";
    let a = HttpResponse::from_str(text).unwrap();
    let b = HttpsResponse::from_str(text).unwrap();
    assert_eq!(a.status, b.status);
    assert_eq!(a.explanation, b.explanation);
    assert_eq!(b.explanation, "MOVED PERMANENTLY");
    assert_eq!(a.body, b.body);
    assert_eq!(b.headers.get("location").unwrap(), "https://example.org/");
    assert!(HttpsResponse::from_str("").is_err_and(|e| matches!(e, ResponseParseError::EmptyResponse)));
}

#[test]
fn built_resource_keeps_the_response() {
    let r = HttpsResponse::from_str("HTTP/1.0 200 OK\r\nA: b\r\n\r\nhola").unwrap();
    match r.build_resource() {
        Resource::Web(w) => {
            assert_eq!(w.response_status, "200");
            assert_eq!(w.response_explanation, "OK");
            assert_eq!(w.response_headers.get("a").unwrap(), "b");
            assert_eq!(w.response_body, "hola");
        }
        Resource::Local(_) => panic!("expected a web resource"),
    }
    let resource = HttpResponse::from_str("HTTP/1.0 200 OK\r\n\r\nhola").unwrap().build_resource();
    assert_eq!(resource.to_string(), "hola");
}

#[test]
fn request_text_and_address() {
    let q = HttpRequest { version: HttpVersion::Http11, host: "localhost", port: 8080, path: "/a b" };
    assert_eq!(q.socket_addr(), "localhost:8080");
    assert_eq!(q.message(), "GET /a b HTTP/1.1\r\nHost: localhost\r\n\r\n");
    let q = HttpsRequest { version: HttpVersion::Http10, host: "h", port: 0, path: "/" };
    assert_eq!(q.socket_addr(), "h:0");
    assert_eq!(q.message(), "GET / HTTP/1.0\r\nHost: h\r\n\r\n");
}

#[test]
fn bare_carriage_return_at_the_end_is_kept() {
    let r = HttpResponse::from_str("HTTP/1.0 200 OK\r\n\r\nbody\r").unwrap();
    assert_eq!(r.body, "body\r");
    let r = HttpResponse::from_str("HTTP/1.0 200 OK\r\n\r\nbody\r\n").unwrap();
    assert_eq!(r.body, "body");
}

#[test]
fn every_error_has_its_message() {
    assert_eq!(ResponseParseError::BadHeaders.to_string(), "Could not parse HTTP response headers");
    assert_eq!(
        ResponseParseError::BadStatus(String::from("x")).to_string(),
        "Could not interpret HTTP status code from status line: x"
    );
    assert_eq!(
        ResponseParseError::BadExplanation(String::from("y")).to_string(),
        "Could not interpret HTTP explanation from status line: y"
    );
    assert_eq!(
        ResponseParseError::BadHeader(String::from("z")).to_string(),
        "Could not parse header: z"
    );
}

#[test]
fn port_is_written_in_decimal() {
    let q = HttpRequest { version: HttpVersion::Http10, host: "h", port: 65535, path: "/" };
    assert_eq!(q.socket_addr(), "h:65535");
    let q = HttpRequest { version: HttpVersion::Http10, host: "h", port: usize::MAX, path: "/" };
    assert_eq!(q.socket_addr(), format!("h:{}", usize::MAX));
}
