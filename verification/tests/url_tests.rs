use tofino::schemes::http::HttpVersion;
use tofino::schemes::PreparedRequest;
use tofino::url::{Scheme, Url, UrlParseError};

#[test]
fn parse_valid_http_url_with_inferred_root_path() {
    let url = Url::from_str("http://example.org").unwrap();
    assert_eq!(url.scheme, Scheme::Http);
    assert_eq!(url.host, "example.org");
    assert_eq!(url.path, "/");
}

#[test]
fn parse_valid_http_url_with_explicit_port() {
    let url = Url::from_str("http://example.org:8080").unwrap();
    assert_eq!(url.scheme, Scheme::Http);
    assert_eq!(url.host, "example.org");
    assert_eq!(url.port, 8080);
    assert_eq!(url.path, "/");
}

#[test]
fn parse_valid_https_url_with_inferred_root_path() {
    let url = Url::from_str("https://example.org").unwrap();
    assert_eq!(url.scheme, Scheme::Https);
    assert_eq!(url.host, "example.org");
    assert_eq!(url.path, "/");
}

#[test]
fn parse_url_with_invalid_scheme() {
    let result = Url::from_str("invalid://example.org");
    assert!(
        result.is_err_and(|e| matches!(e, UrlParseError::UnsupportedScheme)
            && e.to_string() == "Unsupported URL scheme")
    );
}

#[test]
fn parse_url_with_unrecognized_structure() {
    let result = Url::from_str("http:example.org");
    assert!(
        result.is_err_and(|e| matches!(e, UrlParseError::UnrecognizedStructure)
            && e.to_string() == "Unrecognized URL structure")
    );
}

#[test]
fn default_ports_follow_the_scheme() {
    assert_eq!(Url::from_str("http://example.org").unwrap().port, 80);
    assert_eq!(Url::from_str("https://example.org").unwrap().port, 443);
    assert_eq!(Url::from_str("https://example.org:8443/").unwrap().port, 8443);
}

#[test]
fn url_is_lowercased_and_keeps_its_path() {
    let url = Url::from_str("HTTPS://Example.ORG/Some/Path/").unwrap();
    assert_eq!(url.scheme, Scheme::Https);
    assert_eq!(url.host, "example.org");
    assert_eq!(url.path, "/some/path/");
}

#[test]
fn trailing_slash_resolves_the_same_way() {
    let a = Url::from_str("http://example.org:81").unwrap();
    let b = Url::from_str("http://example.org:81/").unwrap();
    assert_eq!(a.scheme, b.scheme);
    assert_eq!(a.host, b.host);
    assert_eq!(a.port, b.port);
    assert_eq!(a.path, b.path);
}

#[test]
fn case_does_not_change_the_parse() {
    let a = Url::from_str("http://EXAMPLE.org/A").unwrap();
    let b = Url::from_str("HTTP://example.ORG/a").unwrap();
    assert_eq!(a.host, b.host);
    assert_eq!(a.path, b.path);
    assert!(Url::from_str("FTP://example.org")
        .is_err_and(|e| e == UrlParseError::UnsupportedScheme));
}

#[test]
fn port_reads_with_plus_sign_and_leading_zeros() {
    assert_eq!(Url::from_str("http://h:+0080/x").unwrap().port, 80);
}

#[test]
fn only_the_first_separator_splits() {
    let url = Url::from_str("http://h/a://b/c").unwrap();
    assert_eq!(url.host, "h");
    assert_eq!(url.path, "/a://b/c");
}

#[test]
fn scheme_names_are_exact() {
    assert_eq!(Scheme::from_str("http").unwrap(), Scheme::Http);
    assert_eq!(Scheme::from_str("https").unwrap(), Scheme::Https);
    assert!(Scheme::from_str("HTTP").is_err_and(|e| e == UrlParseError::UnsupportedScheme));
    assert_eq!(Scheme::Https.default_port(), 443);
}

#[test]
fn request_follows_the_scheme() {
    let url = Url::from_str("https://example.org:444/index.html").unwrap();
    match url.request() {
        PreparedRequest::Https(q) => {
            assert_eq!(q.version, HttpVersion::Http10);
            assert_eq!(q.host, "example.org");
            assert_eq!(q.port, 444);
            assert_eq!(q.path, "/index.html");
            assert_eq!(q.socket_addr(), "example.org:444");
            assert_eq!(
                q.message(),
                "GET /index.html HTTP/1.0\r\nHost: example.org\r\n\r\n"
            );
        }
        PreparedRequest::Http(_) => panic!("expected an HTTPS request"),
    }
    let url = Url::from_str("http://example.org").unwrap();
    match url.request() {
        PreparedRequest::Http(q) => {
            assert_eq!(q.socket_addr(), "example.org:80");
            assert_eq!(q.message(), "GET / HTTP/1.0\r\nHost: example.org\r\n\r\n");
        }
        PreparedRequest::Https(_) => panic!("expected an HTTP request"),
    }
}
