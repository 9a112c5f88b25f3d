use tofino::cli::{self, CliFailure};
use tofino::headers::Headers;
use tofino::html::show;
use tofino::resources::{LocalResource, Resource, WebResource};

#[test]
fn test_too_few_arguments() {
    let args = vec![String::from("tofino")];
    let result = cli::cli(args);
    assert!(result.is_err_and(|e| e.to_string() == "Tofino accepts a single URL argument"));
}

#[test]
fn test_too_many_arguments() {
    let args = vec![
        String::from("tofino"),
        String::from("is"),
        String::from("grand"),
    ];
    let result = cli::cli(args);
    assert!(result.is_err_and(|e| e.to_string() == "Tofino accepts a single URL argument"));
}

#[test]
fn one_url_argument_gives_the_url_to_fetch() {
    let args = vec![String::from("tofino"), String::from("http://127.0.0.1:5000/")];
    let url = cli::cli(args).unwrap();
    assert_eq!(url.host, "127.0.0.1");
    assert_eq!(url.port, 5000);
    assert_eq!(url.path, "/");
}

#[test]
fn bad_url_argument_is_reported() {
    let args = vec![String::from("tofino"), String::from("gopher://x")];
    let result = cli::cli(args);
    assert!(result.is_err_and(|e| matches!(e, CliFailure::Url(_))
        && e.to_string() == "Unsupported URL scheme"));
}

#[test]
fn render_shows_the_body_as_text() {
    let web = Resource::Web(WebResource {
        response_status: String::from("200"),
        response_explanation: String::from("OK"),
        response_headers: Headers::new(),
        response_body: String::from("<b>hola</b>"),
    });
    assert_eq!(cli::render(&web), "hola");
    let local = Resource::Local(LocalResource {
        file_path: String::from("/tmp/page.html"),
        body: String::from("<p>a  b</p>"),
    });
    assert_eq!(cli::render(&local), "a b");
}

#[test]
fn show_drops_tags_and_collapses_spaces() {
    assert_eq!(show("<html><body>Hello,   <i>world</i>!</body></html>"), "Hello, world!");
    assert_eq!(show("a<b c  d>e"), "ae");
    assert_eq!(show("  lead"), " lead");
    assert_eq!(show("unclosed <tag"), "unclosed ");
    assert_eq!(show("1 > 0"), "1 0");
    assert_eq!(show(""), "");
}

#[test]
fn show_is_idempotent_and_keeps_plain_text() {
    let once = show("<h1>Title</h1>  <p>Some   text</p>");
    assert_eq!(once, "Title Some text");
    assert_eq!(show(&once), once);
    assert_eq!(show("plain text stays"), "plain text stays");
}

#[test]
fn headers_replace_earlier_values() {
    let mut h = Headers::new();
    assert_eq!(h.len(), 0);
    h.insert(String::from("a"), String::from("1"));
    h.insert(String::from("b"), String::from("2"));
    h.insert(String::from("a"), String::from("3"));
    assert_eq!(h.len(), 2);
    assert_eq!(h.get("a").unwrap(), "3");
    assert_eq!(h.get("b").unwrap(), "2");
    assert!(h.get("c").is_none());
    let copy = h.clone();
    assert_eq!(copy.get("a").unwrap(), "3");
}

