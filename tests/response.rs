use tiny_browser::response::{parse_response, ResponseError};

#[test]
fn parses_status_headers_and_body() {
    let p = parse_response("HTTP/1.0 200 OK\r\nContent-Type: text/html\r\n\r\nHello").unwrap();
    assert_eq!(p.version, "HTTP/1.0");
    assert_eq!(p.status_code, "200");
    assert_eq!(p.reason, "OK");
    assert_eq!(p.headers.get("content-type"), Some(String::from("text/html")));
    assert_eq!(p.headers.get("Content-Type"), None);
    assert_eq!(p.body, "Hello");
}

#[test]
fn reason_may_be_absent_or_hold_spaces() {
    let p = parse_response("HTTP/1.1 404\n\n").unwrap();
    assert_eq!(p.status_code, "404");
    assert_eq!(p.reason, "");
    let q = parse_response("HTTP/1.1 404 Not Found\n\n").unwrap();
    assert_eq!(q.reason, "Not Found");
}

#[test]
fn header_value_is_trimmed_and_later_field_wins() {
    let p = parse_response("HTTP/1.0 200 OK\nX-A:   one\nx-a: two\nbroken line\n\nbody").unwrap();
    assert_eq!(p.headers.get("x-a"), Some(String::from("two")));
    assert_eq!(p.headers.get("broken line"), None);
    let q = parse_response("HTTP/1.0 200 OK\nServer:  tiny \n\n").unwrap();
    assert_eq!(q.headers.get("server"), Some(String::from("tiny ")));
}

#[test]
fn body_lines_are_joined() {
    let p = parse_response("HTTP/1.0 200 OK\r\n\r\nline one\r\nline two\r\n").unwrap();
    assert_eq!(p.body, "line oneline two");
}

#[test]
fn empty_body_is_valid() {
    let p = parse_response("HTTP/1.0 204 No Content\r\nServer: x\r\n\r\n").unwrap();
    assert_eq!(p.body, "");
}

#[test]
fn unterminated_headers_give_empty_body() {
    let p = parse_response("HTTP/1.0 200 OK\nA: 1\nB: 2").unwrap();
    assert_eq!(p.headers.get("b"), Some(String::from("2")));
    assert_eq!(p.body, "");
}

#[test]
fn missing_statusline_is_refused() {
    assert_eq!(parse_response("").err(), Some(ResponseError::MissingStatusline));
}

#[test]
fn missing_status_is_refused() {
    assert_eq!(parse_response("HTTP/1.0\r\n\r\n").err(), Some(ResponseError::MissingStatus));
}

#[test]
fn transfer_encoding_is_refused_whatever_its_value() {
    assert_eq!(
        parse_response("HTTP/1.1 200 OK\r\nTransfer-Encoding: chunked\r\n\r\n5\r\nhello").err(),
        Some(ResponseError::TransferEncodingUnsupported)
    );
    assert_eq!(
        parse_response("HTTP/1.1 200 OK\r\ntransfer-encoding:\r\n\r\n").err(),
        Some(ResponseError::TransferEncodingUnsupported)
    );
}

#[test]
fn content_encoding_is_refused() {
    assert_eq!(
        parse_response("HTTP/1.1 200 OK\r\nCONTENT-ENCODING: gzip\r\n\r\nxx").err(),
        Some(ResponseError::ContentEncodingUnsupported)
    );
}

#[test]
fn encoding_header_in_body_is_not_a_header() {
    let p = parse_response("HTTP/1.1 200 OK\r\n\r\nTransfer-Encoding: chunked").unwrap();
    assert_eq!(p.body, "Transfer-Encoding: chunked");
}
