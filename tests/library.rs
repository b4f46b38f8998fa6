use http_parse::{
    HttpHeader, HttpMethod, HttpParseError, HttpParser, HttpRequest, HttpRequestBuilder,
    HttpResponse, HttpResponseBuilder, HttpUrl, HttpVersion, StatusCode, H_CONTENT_LENGTH,
    H_CONTENT_TYPE,
};

const CHUNKED: &str = "HTTP/1.1 200 OK\r\nContent-Type: text/plain\r\nTransfer-Encoding: chunked\r\n\r\n7\r\nMozilla\r\n11\r\nDeveloper Network\r\n0\r\n\r\n";

fn parse_response(text: &[u8]) -> Result<HttpResponse, HttpParseError> {
    HttpParser::from_bytes(text).response()
}

fn parse_request(text: &[u8]) -> Result<HttpRequest, HttpParseError> {
    HttpParser::from_bytes(text).request()
}

#[test]
fn chunked_body_is_reassembled_and_flagged() {
    let response = parse_response(CHUNKED.as_bytes()).unwrap();
    assert_eq!(response.data(), b"MozillaDeveloper Network");
    assert!(response.chunked());
    assert_eq!(response.chunks(), &vec![(0, 7), (7, 24), (0, 0)]);
}

#[test]
fn chunk_sizes_read_in_either_case_of_hex() {
    let text = "HTTP/1.1 200 OK\r\nTransfer-Encoding: chunked\r\n\r\n1a\r\nabcdefghijklmnopqrstuvwxyz\r\n0\r\n\r\n";
    let response = parse_response(text.as_bytes()).unwrap();
    assert_eq!(response.data(), b"abcdefghijklmnopqrstuvwxyz");
    assert_eq!(response.chunks(), &vec![(0, 26), (0, 0)]);
    let written = String::from_utf8(response.into_bytes()).unwrap();
    assert!(written.ends_with("1A\r\nabcdefghijklmnopqrstuvwxyz\r\n0\r\n\r\n"));
}

#[test]
fn identity_transfer_encoding_uses_content_length() {
    let text = "HTTP/1.1 200 OK\r\nTransfer-Encoding: identity\r\nContent-Length: 3\r\n\r\nabcdef";
    let response = parse_response(text.as_bytes()).unwrap();
    assert_eq!(response.data(), b"abc");
    assert!(!response.chunked());
}

#[test]
fn content_length_ignores_trailing_bytes() {
    let body = "<!doctype html>\n<!-- HTML content follows -->";
    assert_eq!(body.len(), 45);
    let text = format!(
        "HTTP/1.1 200 OK\r\nContent-Length: 45\r\n\r\n{}EXTRA BYTES AFTER THE BODY",
        body
    );
    let mut parser = HttpParser::from_bytes(text.as_bytes());
    let response = parser.response().unwrap();
    assert_eq!(response.data().len(), 45);
    assert_eq!(response.data(), body.as_bytes());
}

#[test]
fn short_body_is_an_error() {
    let text = "HTTP/1.1 200 OK\r\nContent-Length: 10\r\n\r\nabc";
    match parse_response(text.as_bytes()) {
        Err(HttpParseError::Other(_)) => {}
        other => panic!("unexpected: {:?}", other.map(|r| r.data().clone())),
    }
}

#[test]
fn body_without_framing_runs_to_the_end() {
    let text = "HTTP/1.0 200 OK\r\nServer: x\r\n\r\nall of the rest";
    let response = parse_response(text.as_bytes()).unwrap();
    assert_eq!(response.version(), HttpVersion::Http10);
    assert_eq!(response.data(), b"all of the rest");
}

#[test]
fn head_only_leaves_the_body_unread() {
    let text = "HTTP/1.1 200 OK\r\nContent-Length: 1000\r\n\r\n";
    let mut parser = HttpParser::from_bytes(text.as_bytes());
    let response = parser.response_head_only().unwrap();
    assert!(response.data().is_empty());
    assert_eq!(response.header("content-length").unwrap().value(), "1000");
    let mut again = HttpParser::from_bytes(text.as_bytes());
    assert!(matches!(again.response(), Err(HttpParseError::Other(_))));
}

#[test]
fn request_head_only_leaves_the_body_unread() {
    let text = "POST /upload HTTP/1.1\r\nContent-Length: 5\r\n\r\n";
    let mut parser = HttpParser::from_bytes(text.as_bytes());
    let request = parser.request_head_only().unwrap();
    assert_eq!(request.method(), HttpMethod::Post);
    assert_eq!(request.target(), "/upload");
    assert!(request.data().is_empty());
}

#[test]
fn parse_request_with_and_without_body() {
    let text = "PUT /x HTTP/2\r\nContent-Length: 2\r\n\r\nhi";
    let mut parser = HttpParser::from_bytes(text.as_bytes());
    let request = parser.parse_request(true).unwrap();
    assert_eq!(request.version(), HttpVersion::Http2);
    assert_eq!(request.data(), b"hi");
    let mut parser = HttpParser::from_bytes(text.as_bytes());
    let request = parser.parse_request(false).unwrap();
    assert!(request.data().is_empty());
}

#[test]
fn every_method_token_is_read() {
    let methods = [
        ("GET", HttpMethod::Get),
        ("POST", HttpMethod::Post),
        ("PUT", HttpMethod::Put),
        ("HEAD", HttpMethod::Head),
        ("OPTIONS", HttpMethod::Options),
        ("DELETE", HttpMethod::Delete),
        ("TRACE", HttpMethod::Trace),
        ("PATCH", HttpMethod::Patch),
        ("CONNECT", HttpMethod::Connect),
    ];
    for (token, method) in methods {
        let text = format!("{} / HTTP/3\r\n\r\n", token);
        let request = parse_request(text.as_bytes()).unwrap();
        assert_eq!(request.method(), method);
        assert_eq!(request.version(), HttpVersion::Http3);
        assert_eq!(request.into_bytes(), text.as_bytes());
    }
}

#[test]
fn unknown_method_is_a_method_error() {
    match parse_request(b"FETCH / HTTP/1.1\r\n\r\n") {
        Err(HttpParseError::Method(text)) => assert_eq!(text, "FETCH"),
        _ => panic!("expected a method error"),
    }
}

#[test]
fn unknown_version_is_a_version_error() {
    match parse_request(b"GET / HTTP/9\r\n\r\n") {
        Err(HttpParseError::Version(text)) => assert_eq!(text, "HTTP/9"),
        _ => panic!("expected a version error"),
    }
    match parse_response(b"HTTP/0.9 200 OK\r\n\r\n") {
        Err(HttpParseError::Version(text)) => assert_eq!(text, "HTTP/0.9"),
        _ => panic!("expected a version error"),
    }
}

#[test]
fn non_numeric_status_is_a_status_code_error() {
    match parse_response(b"HTTP/1.1 2x0 OK\r\n\r\n") {
        Err(HttpParseError::StatusCode(text)) => assert_eq!(text, "2x0"),
        _ => panic!("expected a status code error"),
    }
}

#[test]
fn header_without_colon_is_a_header_error() {
    match parse_response(b"HTTP/1.1 200 OK\r\nBroken header\r\n\r\n") {
        Err(HttpParseError::Header(text)) => assert_eq!(text, "Broken header"),
        _ => panic!("expected a header error"),
    }
}

#[test]
fn bad_content_length_is_a_header_error() {
    match parse_response(b"HTTP/1.1 200 OK\r\nContent-Length: ten\r\n\r\n") {
        Err(HttpParseError::Header(text)) => assert_eq!(text, "Content-Length: ten"),
        _ => panic!("expected a header error"),
    }
}

#[test]
fn bad_chunk_size_is_a_header_error() {
    let text = "HTTP/1.1 200 OK\r\nTransfer-Encoding: chunked\r\n\r\nzz\r\nabc\r\n0\r\n\r\n";
    match parse_response(text.as_bytes()) {
        Err(HttpParseError::Header(text)) => assert_eq!(text, "zz"),
        _ => panic!("expected a header error"),
    }
}

#[test]
fn error_messages_name_the_text() {
    let e = HttpParseError::Method("FETCH".to_string());
    assert_eq!(e.message(), "Unsupported HTTP Method `FETCH`");
    assert!(e.is_invalid_data());
    let e = HttpParseError::Other("gone".to_string());
    assert_eq!(e.message(), "Read error: `gone`");
    assert!(!e.is_invalid_data());
}

#[test]
fn invalid_utf8_is_read_lossily() {
    let mut text = b"HTTP/1.1 200 OK\r\nX-Odd: a".to_vec();
    text.push(0xff);
    text.extend_from_slice(b"b\r\n\r\n");
    let response = parse_response(&text).unwrap();
    assert_eq!(response.header("x-odd").unwrap().value(), "a\u{fffd}b");
}

#[test]
fn utf8_text_is_read_as_is() {
    let text = "HTTP/1.1 200 Très bien\r\nX-Name: café\r\n\r\n";
    let response = parse_response(text.as_bytes()).unwrap();
    assert_eq!(response.status_msg(), "Très bien");
    assert_eq!(response.header("X-NAME").unwrap().value(), "café");
    assert_eq!(response.into_bytes(), text.as_bytes());
}

#[test]
fn value_leading_blanks_and_line_end_are_dropped() {
    let response = parse_response(b"HTTP/1.1 200 OK\r\nX-A:   \tspaced\r\n\r\n").unwrap();
    assert_eq!(response.header("x-a").unwrap().value(), "spaced");
}

#[test]
fn round_trip_of_a_request_with_a_body() {
    let text = "POST /form HTTP/1.1\r\nHost: example.org\r\nContent-Length: 11\r\n\r\nhello=world";
    let request = parse_request(text.as_bytes()).unwrap();
    assert_eq!(request.into_bytes(), text.as_bytes());
}

#[test]
fn round_trip_of_a_chunked_request() {
    let text = "POST /c HTTP/1.1\r\nTransfer-Encoding: chunked\r\n\r\n3\r\nabc\r\n2\r\nde\r\n0\r\n\r\n";
    let request = parse_request(text.as_bytes()).unwrap();
    assert_eq!(request.data(), b"abcde");
    assert!(request.chunked());
    assert_eq!(request.into_bytes(), text.as_bytes());
}

#[test]
fn parsing_what_was_written_gives_the_same_response() {
    let response = HttpResponseBuilder::new()
        .status(StatusCode::NOT_FOUND)
        .header(H_CONTENT_TYPE, "text/plain")
        .header(H_CONTENT_LENGTH, "4")
        .body(b"gone")
        .build();
    let bytes = response.into_bytes();
    assert_eq!(
        bytes,
        b"HTTP/1.1 404 Not Found\r\nContent-Type: text/plain\r\nContent-Length: 4\r\n\r\ngone"
    );
    let again = parse_response(&bytes).unwrap();
    assert_eq!(again.status_code(), 404);
    assert_eq!(again.status_msg(), "Not Found");
    assert_eq!(again.data(), b"gone");
    assert_eq!(again.into_bytes(), bytes);
}

#[test]
fn header_lookup_ignores_case() {
    let mut response = HttpResponse::new();
    response.put_header("Content-Type", "text/html");
    assert_eq!(
        response.header("content-type"),
        Some(&HttpHeader::new("CONTENT-TYPE", "text/html"))
    );
    assert_eq!(response.header("content-type").unwrap().name(), "Content-Type");
    assert!(response.header("content-length").is_none());
}

#[test]
fn putting_a_header_twice_overwrites() {
    let mut request = HttpRequest::new();
    request.put_header("Content-Type", "text/html");
    request.put_header("content-type", "application/json");
    assert_eq!(request.headers().len(), 1);
    let h = request.header("CONTENT-TYPE").unwrap();
    assert_eq!(h.name(), "Content-Type");
    assert_eq!(h.value(), "application/json");
}

#[test]
fn headers_keep_their_order() {
    let mut request = HttpRequest::new();
    request.put_header("B", "1");
    request.put_header("A", "2");
    request.put_header("b", "3");
    let names: Vec<String> = request.headers().iter().map(|h| h.name().clone()).collect();
    assert_eq!(names, vec!["B".to_string(), "A".to_string()]);
    assert_eq!(request.header("B").unwrap().value(), "3");
}

#[test]
fn remove_header_drops_every_spelling() {
    let mut request = HttpRequest::new();
    request.put_header("Accept", "*/*");
    request.put_header("Host", "h");
    request.remove_header("ACCEPT");
    assert!(request.header("accept").is_none());
    assert_eq!(request.headers().len(), 1);
}

#[test]
fn header_equality_ignores_name_case_only() {
    assert_eq!(HttpHeader::new("Date", "x"), HttpHeader::new("date", "x"));
    assert_ne!(HttpHeader::new("Date", "x"), HttpHeader::new("Date", "X"));
}

#[test]
fn add_data_sets_content_length() {
    let mut response = HttpResponse::new();
    response.add_data(b"Hello ");
    response.add_data(b"world");
    assert_eq!(response.data(), b"Hello world");
    assert_eq!(response.header("Content-Length").unwrap().value(), "11");
    assert_eq!(response.status_code(), 200);
    assert_eq!(response.status_msg(), "Ok");
}

#[test]
fn add_data_to_a_chunked_message_adds_a_chunk() {
    let mut response = parse_response(CHUNKED.as_bytes()).unwrap();
    response.add_data(b"!!");
    assert_eq!(response.chunks(), &vec![(0, 7), (7, 24), (24, 26), (0, 0)]);
    let written = String::from_utf8(response.into_bytes()).unwrap();
    assert!(written.ends_with("11\r\nDeveloper Network\r\n2\r\n!!\r\n0\r\n\r\n"));
}

#[test]
fn new_request_defaults() {
    let request = HttpRequest::new();
    assert_eq!(request.method(), HttpMethod::Get);
    assert_eq!(request.version(), HttpVersion::Http11);
    assert_eq!(request.target(), "\\");
    assert!(request.headers().is_empty());
}

#[test]
fn request_builder_writes_the_request_line() {
    let url = HttpUrl::parse("http://example.org/a/b.txt?x=1#top").unwrap();
    let request = HttpRequest::builder()
        .method(HttpMethod::Head)
        .url(&url)
        .header("Host", "example.org")
        .build();
    assert_eq!(
        request.into_bytes(),
        b"HEAD /a/b.txt?x=1#top HTTP/1.1\r\nHost: example.org\r\n\r\n"
    );
    let request = HttpRequestBuilder::new().path("/p").body(b"ab").body(b"c").build();
    assert_eq!(request.target(), "/p");
    assert_eq!(request.data(), b"abc");
}

#[test]
fn response_builder_defaults_to_ok() {
    let response = HttpResponse::builder().build();
    assert_eq!(response.into_bytes(), b"HTTP/1.1 200 OK\r\n\r\n");
}

#[test]
fn messages_shown_as_text() {
    let response = parse_response(CHUNKED.as_bytes()).unwrap();
    assert_eq!(
        response.to_string(),
        "HTTP/1.1 200 OK\r\nContent-Type: text/plain\r\nTransfer-Encoding: chunked\r\n\r\n7\r\nMozilla\r\n11\r\nDeveloper Network\r\n0\r\n\r\n\r\n"
    );
    let request = parse_request(b"GET / HTTP/1.1\r\nHost: h\r\n\r\n").unwrap();
    assert_eq!(request.to_string(), "GET / HTTP/1.1\r\nHost: h\r\n\r\n");
}

#[test]
fn status_codes_compare_with_numbers() {
    assert_eq!(StatusCode::NOT_FOUND, 404);
    assert_eq!(404, StatusCode::NOT_FOUND);
    assert_ne!(StatusCode::NOT_FOUND, 200);
    assert_eq!(StatusCode::PARTIAL_CONTENT.code(), 206);
    assert_eq!(StatusCode::GATEWAY_TIME_OUT.reason(), "Gateway Time-out");
}

#[test]
fn url_parsed_back_from_its_text() {
    let url = HttpUrl::parse("http://127.0.0.1:8080/video.mp4?start=56#time").unwrap();
    assert_eq!(url.fragment(), Some(&"time".to_owned()));
    assert_eq!(url.query("start"), Some(&"56".to_owned()));
    assert_eq!(url.file().as_deref(), Some("video.mp4"));
    assert_eq!(url.scheme(), "http");
    assert_eq!(url.host(), "127.0.0.1");
    assert_eq!(url.port(), Some(8080));
    assert_eq!(url.address(), "127.0.0.1:8080");
    assert_eq!(url.path(), "/video.mp4");
    assert_eq!(url.target(), "/video.mp4?start=56#time");
}

#[test]
fn url_without_scheme_defaults_to_http() {
    let url = HttpUrl::parse("example.org").unwrap();
    assert_eq!(url.scheme(), "http");
    assert_eq!(url.host(), "example.org");
    assert_eq!(url.path(), "/");
    assert_eq!(url.port(), None);
    assert_eq!(url.address(), "example.org:80");
    assert_eq!(url.file(), None);
}

#[test]
fn https_url_connects_on_443() {
    let url = HttpUrl::parse("https://secure.example/dir/").unwrap();
    assert_eq!(url.address(), "secure.example:443");
    assert_eq!(url.file(), None);
}

#[test]
fn fragment_is_cut_before_the_query() {
    let url = HttpUrl::parse("http://h/p?a=1#frag&b=2").unwrap();
    assert_eq!(url.fragment(), Some(&"frag&b=2".to_owned()));
    assert_eq!(url.query("a"), Some(&"1".to_owned()));
    assert_eq!(url.query("b"), None);
}

#[test]
fn query_pairs_split_at_the_first_equals() {
    let url = HttpUrl::parse("http://h/p?a=1=2&flag&a=3").unwrap();
    assert_eq!(url.query("a"), Some(&"3".to_owned()));
    assert_eq!(url.query("flag"), Some(&"".to_owned()));
}

#[test]
fn url_errors() {
    assert!(HttpUrl::parse("ftp://h/").is_err());
    assert!(HttpUrl::parse("http://h:port/").is_err());
    assert!(HttpUrl::parse("http://h:70000/").is_err());
}

#[test]
fn url_builder_keys_are_unique() {
    let url = HttpUrl::builder()
        .host("h")
        .param("k", "1")
        .param("j", "2")
        .param("k", "3")
        .build();
    assert_eq!(url.to_string(), "http://h?k=3&j=2");
}

#[test]
fn complete_head_needs_a_blank_line() {
    assert!(HttpParser::has_complete_head(b"GET / HTTP/1.1\r\nHost: h\r\n\r\n"));
    assert!(!HttpParser::has_complete_head(b"GET / HTTP/1.1\r\nHost: h\r\n"));
    assert!(!HttpParser::has_complete_head(b""));
}

#[test]
fn head_parse_does_not_need_the_body() {
    let head = "HTTP/1.1 200 OK\r\nContent-Length: 4\r\n\r\n";
    let full = format!("{}body", head);
    let a = HttpParser::from_bytes(head.as_bytes()).response_head_only().unwrap();
    let b = HttpParser::from_bytes(full.as_bytes()).response_head_only().unwrap();
    assert_eq!(a.into_bytes(), b.into_bytes());
    assert!(b.data().is_empty());
}

#[test]
fn chunks_cut_short_are_an_error() {
    let text = "HTTP/1.1 200 OK\r\nTransfer-Encoding: chunked\r\n\r\n7\r\nMozilla\r\n";
    assert!(matches!(
        parse_response(text.as_bytes()),
        Err(HttpParseError::Other(_))
    ));
}

#[test]
fn status_code_is_trimmed_as_text() {
    let response = parse_response(b"HTTP/1.1 200\x0b OK\r\n\r\n").unwrap();
    assert_eq!(response.status_code(), 200);
    let response = parse_response("HTTP/1.1 200 OK\u{a0}\r\n\r\n".as_bytes()).unwrap();
    assert_eq!(response.status_msg(), "OK");
}

#[test]
fn request_target_is_kept_verbatim() {
    let request = parse_request(b"GET /a\t HTTP/1.1\r\n\r\n").unwrap();
    assert_eq!(request.target(), "/a\t");
}

#[test]
fn whitespace_after_the_colon_is_skipped() {
    let response = parse_response(b"HTTP/1.1 200 OK\r\nX-A: \x0c\x0bvalue\r\n\r\n").unwrap();
    assert_eq!(response.header("x-a").unwrap().value(), "value");
}

#[test]
fn parsed_url_writes_out_with_one_slash() {
    let url = HttpUrl::parse("http://h/a/b?x=1#f").unwrap();
    assert_eq!(url.to_string(), "http://h/a/b?x=1#f");
}

#[test]
fn framing_tells_when_a_body_runs_to_the_end() {
    let open = parse_response(b"HTTP/1.1 200 OK\r\n\r\nrest").unwrap();
    assert!(open.reads_to_end());
    let sized = parse_response(b"HTTP/1.1 200 OK\r\nContent-Length: 0\r\n\r\n").unwrap();
    assert!(!sized.reads_to_end());
    let chunked = parse_response(CHUNKED.as_bytes()).unwrap();
    assert!(!chunked.reads_to_end());
}
