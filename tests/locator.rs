use tiny_browser::locator::{LocatorError, URL};

#[test]
fn test_parse() {
    let url = URL::parse("http://example.org/path.html").unwrap();

    assert_eq!(
        url,
        URL {
            scheme: String::from("http"),
            host: String::from("example.org"),
            path: String::from("/path.html"),
        }
    );
}

#[test]
fn test_parse_without_scheme() {
    let url = URL::parse("example.org/path.html").unwrap();

    assert_eq!(
        url,
        URL {
            scheme: String::from("http"),
            host: String::from("example.org"),
            path: String::from("/path.html"),
        }
    );
}

#[test]
fn test_parse_without_path() {
    let url = URL::parse("http://example.org").unwrap();

    assert_eq!(
        url,
        URL {
            scheme: String::from("http"),
            host: String::from("example.org"),
            path: String::from("/"),
        }
    );
}

#[test]
fn parse_host_only_gives_root_path() {
    let url = URL::parse("example.org").unwrap();
    assert_eq!(url.scheme, "http");
    assert_eq!(url.host, "example.org");
    assert_eq!(url.path, "/");
}

#[test]
fn parse_trailing_slash_gives_root_path() {
    let url = URL::parse("http://example.org/").unwrap();
    assert_eq!(url.host, "example.org");
    assert_eq!(url.path, "/");
}

#[test]
fn parse_refuses_other_scheme() {
    assert_eq!(URL::parse("https://example.org/a"), Err(LocatorError::UnsupportedScheme));
    assert_eq!(URL::parse("ftp://example.org"), Err(LocatorError::UnsupportedScheme));
    assert_eq!(URL::parse("HTTP://example.org"), Err(LocatorError::UnsupportedScheme));
}

#[test]
fn parse_splits_at_first_separators() {
    let url = URL::parse("http://host/a/b://c").unwrap();
    assert_eq!(url.host, "host");
    assert_eq!(url.path, "/a/b://c");
}

#[test]
fn parse_keeps_non_ascii_text() {
    let url = URL::parse("bücher.example/straße").unwrap();
    assert_eq!(url.host, "bücher.example");
    assert_eq!(url.path, "/straße");
}

#[test]
fn request_message_is_exact() {
    let url = URL::parse("http://example.org/path.html").unwrap();
    assert_eq!(
        url.request_message(),
        "GET /path.html HTTP/1.0\r\nHost: example.org\r\n\r\n"
    );
    let root = URL::parse("example.org").unwrap();
    assert_eq!(root.request_message(), "GET / HTTP/1.0\r\nHost: example.org\r\n\r\n");
}

#[test]
fn locator_round_trip_gives_same_request() {
    let url = URL::parse("example.org/x/y").unwrap();
    let again = URL::parse(&format!("{}://{}{}", url.scheme, url.host, url.path)).unwrap();
    assert_eq!(url, again);
    assert_eq!(url.request_message(), again.request_message());
}
