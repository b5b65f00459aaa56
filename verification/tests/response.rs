use saba_core::error::Error;
use saba_core::http::{Header, HttpResponse};

#[test]
fn test_status_line_only() {
    let raw = "HTTP/1.1 200 OK\n\n".to_string();
    let res = HttpResponse::new(raw).expect("failed to parse http response");
    assert_eq!(res.version(), "HTTP/1.1");
    assert_eq!(res.status_code(), 200);
    assert_eq!(res.reason(), "OK");
}

#[test]
fn test_one_header() {
    let raw = "HTTP/1.1 200 OK\nContent-Type: text/html\n\n".to_string();
    let res = HttpResponse::new(raw).expect("failed to parse http response");
    assert_eq!(res.version(), "HTTP/1.1");
    assert_eq!(res.status_code(), 200);
    assert_eq!(res.reason(), "OK");
    assert_eq!(
        res.header_value("Content-Type"),
        Ok("text/html".to_string())
    );
}

#[test]
fn test_two_headers_with_white_space() {
    let raw = "HTTP/1.1 200 OK\nContent-Type: text/html\nContent-Length: 123\n\n".to_string();
    let res = HttpResponse::new(raw).expect("failed to parse http response");
    assert_eq!(res.version(), "HTTP/1.1");
    assert_eq!(res.status_code(), 200);
    assert_eq!(res.reason(), "OK");
    assert_eq!(
        res.header_value("Content-Type"),
        Ok("text/html".to_string())
    );
    assert_eq!(res.header_value("Content-Length"), Ok("123".to_string()));
}

#[test]
fn test_invalid() {
    let raw = "HTTP/1.1 200 OK".to_string();
    let res = HttpResponse::new(raw);
    assert!(res.is_err());
}

fn parse(raw: &str) -> Result<HttpResponse, Error> {
    HttpResponse::new(raw.to_string())
}

fn names_and_values(res: &HttpResponse) -> Vec<(String, String)> {
    res.headers()
        .iter()
        .map(|h| (h.name(), h.value()))
        .collect()
}

fn pair(name: &str, value: &str) -> (String, String) {
    (name.to_string(), value.to_string())
}

#[test]
fn status_line_and_blank_line_give_no_headers() {
    let res = parse("HTTP/1.1 200 OK\n\n").unwrap();
    assert_eq!(res.version(), "HTTP/1.1");
    assert_eq!(res.status_code(), 200);
    assert_eq!(res.reason(), "OK");
    assert!(res.headers().is_empty());
    // What follows the status line is a single line feed: no pair of them, so
    // all of it is the body.
    assert_eq!(res.body(), "\n");
}

#[test]
fn one_header_is_found_and_an_absent_one_is_named() {
    let res = parse("HTTP/1.1 200 OK\nContent-Type: text/html\n\n").unwrap();
    assert_eq!(res.header_value("Content-Type"), Ok("text/html".to_string()));
    assert_eq!(
        res.header_value("Content-Length"),
        Err("failed to find Content-Length in headers".to_string())
    );
    assert_eq!(
        res.header_value(""),
        Err("failed to find  in headers".to_string())
    );
    assert_eq!(res.body(), "");
}

#[test]
fn two_headers_come_trimmed_and_in_order() {
    let res =
        parse("HTTP/1.1 200 OK\nContent-Type: text/html\nContent-Length: 123\n\n").unwrap();
    assert_eq!(
        names_and_values(&res),
        vec![pair("Content-Type", "text/html"), pair("Content-Length", "123")]
    );
}

#[test]
fn whitespace_around_names_and_values_is_trimmed() {
    let res = parse("HTTP/1.1 200 OK\n \tHost \t:\u{a0} example.com \u{3000}\nA:b\n\nbody").unwrap();
    assert_eq!(
        names_and_values(&res),
        vec![pair("Host", "example.com"), pair("A", "b")]
    );
    assert_eq!(res.body(), "body");
}

#[test]
fn whitespace_inside_a_value_stays() {
    let res = parse("HTTP/1.1 200 OK\nServer:  my  server \n\n").unwrap();
    assert_eq!(res.header_value("Server"), Ok("my  server".to_string()));
}

#[test]
fn a_header_is_cut_at_its_first_colon_only() {
    let res = parse("HTTP/1.1 200 OK\nLocation: http://example.com:8080/\n:x\ny:\n\n").unwrap();
    assert_eq!(
        names_and_values(&res),
        vec![
            pair("Location", "http://example.com:8080/"),
            pair("", "x"),
            pair("y", "")
        ]
    );
}

#[test]
fn parsing_twice_gives_equal_results() {
    let raw = "HTTP/1.1 404 Missing\nA: 1\nB: 2\n\nnot here";
    let first = parse(raw);
    let second = parse(raw);
    assert_eq!(first, second);
    let (a, b) = (first.unwrap(), second.unwrap());
    assert_eq!(a.version(), b.version());
    assert_eq!(a.status_code(), b.status_code());
    assert_eq!(a.reason(), b.reason());
    assert_eq!(names_and_values(&a), names_and_values(&b));
    assert_eq!(a.body(), b.body());
    assert_eq!(parse("no line break"), parse("no line break"));
}

#[test]
fn header_order_is_the_order_of_the_lines() {
    let res = parse("HTTP/1.0 301 Moved\nZ: 26\nA: 1\nM: 13\nB: 2\n\n").unwrap();
    assert_eq!(
        names_and_values(&res),
        vec![pair("Z", "26"), pair("A", "1"), pair("M", "13"), pair("B", "2")]
    );
    assert_eq!(res.header_value("Z"), Ok("26".to_string()));
    assert_eq!(res.header_value("A"), Ok("1".to_string()));
    assert_eq!(res.header_value("M"), Ok("13".to_string()));
    assert_eq!(res.header_value("B"), Ok("2".to_string()));
}

#[test]
fn lookup_returns_the_first_of_several_headers_with_one_name() {
    let res = parse("HTTP/1.1 200 OK\nSet-Cookie: a=1\nX: y\nSet-Cookie: b=2\n\n").unwrap();
    assert_eq!(res.header_value("Set-Cookie"), Ok("a=1".to_string()));
    assert_eq!(
        names_and_values(&res),
        vec![
            pair("Set-Cookie", "a=1"),
            pair("X", "y"),
            pair("Set-Cookie", "b=2")
        ]
    );
}

#[test]
fn lookup_tells_upper_case_from_lower_case() {
    let res = parse("HTTP/1.1 200 OK\nContent-Type: text/html\n\n").unwrap();
    assert_eq!(
        res.header_value("content-type"),
        Err("failed to find content-type in headers".to_string())
    );
    assert_eq!(
        res.header_value("Content-Type "),
        Err("failed to find Content-Type  in headers".to_string())
    );
}

#[test]
fn text_without_line_break_is_a_network_error() {
    assert_eq!(
        parse("HTTP/1.1 200 OK"),
        Err(Error::Network(
            "invalid http response: HTTP/1.1 200 OK".to_string()
        ))
    );
    assert_eq!(
        parse(""),
        Err(Error::Network("invalid http response: ".to_string()))
    );
    assert_eq!(
        parse("\r\t x y z"),
        Err(Error::Network("invalid http response: x y z".to_string()))
    );
}

#[test]
fn leading_line_breaks_do_not_count() {
    assert_eq!(
        parse("\n\n \n"),
        Err(Error::Network("invalid http response: ".to_string()))
    );
    assert_eq!(
        parse("\n\nHTTP/1.1 200 OK"),
        Err(Error::Network(
            "invalid http response: HTTP/1.1 200 OK".to_string()
        ))
    );
}

#[test]
fn leading_whitespace_is_dropped() {
    let res = parse(" \r\n\t HTTP/1.1 204 Empty\nA: b\n\n").unwrap();
    assert_eq!(res.version(), "HTTP/1.1");
    assert_eq!(res.status_code(), 204);
    assert_eq!(res.reason(), "Empty");
    assert_eq!(res.header_value("A"), Ok("b".to_string()));
}

#[test]
fn carriage_return_after_line_feed_is_dropped() {
    let res = parse("HTTP/1.1 200 OK\n\rContent-Type: text/html\n\r\n\rone\n\rtwo\r\n").unwrap();
    assert_eq!(res.reason(), "OK");
    assert_eq!(names_and_values(&res), vec![pair("Content-Type", "text/html")]);
    assert_eq!(res.body(), "one\ntwo\r\n");
}

#[test]
fn carriage_return_before_line_feed_stays() {
    let res = parse("HTTP/1.1 200 OK\r\nContent-Type: text/html\r\n\r\nbody").unwrap();
    assert_eq!(res.version(), "HTTP/1.1");
    assert_eq!(res.status_code(), 200);
    assert_eq!(res.reason(), "OK\r");
    assert_eq!(names_and_values(&res), vec![pair("Content-Type", "text/html")]);
    assert_eq!(res.body(), "body");
}

#[test]
fn without_blank_line_all_that_follows_is_body() {
    let res = parse("HTTP/1.1 200 OK\nContent-Type: text/html\nhello").unwrap();
    assert!(res.headers().is_empty());
    assert_eq!(res.body(), "Content-Type: text/html\nhello");
    assert_eq!(
        res.header_value("Content-Type"),
        Err("failed to find Content-Type in headers".to_string())
    );
    let res = parse("HTTP/1.1 200 OK\n").unwrap();
    assert!(res.headers().is_empty());
    assert_eq!(res.body(), "");
}

#[test]
fn body_begins_after_the_first_blank_line() {
    let res = parse("HTTP/1.1 200 OK\nA: b\n\n\nfirst\n\nsecond\n").unwrap();
    assert_eq!(names_and_values(&res), vec![pair("A", "b")]);
    assert_eq!(res.body(), "\nfirst\n\nsecond\n");
}

#[test]
fn empty_header_lines_are_passed_over() {
    let res = parse("HTTP/1.1 200 OK\n\n\nbody").unwrap();
    assert!(res.headers().is_empty());
    assert_eq!(res.body(), "body");
    let res = parse("HTTP/1.1 200 OK\n\nA: b\n\nbody").unwrap();
    assert_eq!(names_and_values(&res), vec![pair("A", "b")]);
    assert_eq!(res.body(), "body");
}

#[test]
fn header_line_without_colon_is_malformed() {
    assert_eq!(
        parse("HTTP/1.1 200 OK\nContent-Type text/html\n\n"),
        Err(Error::MalformedResponse(
            "invalid header line: Content-Type text/html".to_string()
        ))
    );
    assert_eq!(
        parse("HTTP/1.1 200 OK\nA: b\n \nC: d\n\n"),
        Err(Error::MalformedResponse(
            "invalid header line:  ".to_string()
        ))
    );
}

#[test]
fn the_first_bad_header_line_is_reported() {
    assert_eq!(
        parse("HTTP/1.1 200 OK\nA: b\nfirst\nC: d\nsecond\n\n"),
        Err(Error::MalformedResponse(
            "invalid header line: first".to_string()
        ))
    );
}

#[test]
fn a_bad_header_line_is_reported_before_a_bad_status_line() {
    assert_eq!(
        parse("HTTP/1.1 OK\nbroken\n\n"),
        Err(Error::MalformedResponse(
            "invalid header line: broken".to_string()
        ))
    );
}

#[test]
fn body_with_blank_line_and_no_headers_is_read_as_header_block() {
    assert_eq!(
        parse("HTTP/1.1 200 OK\n\nhello\n\nworld"),
        Err(Error::MalformedResponse(
            "invalid header line: hello".to_string()
        ))
    );
}

#[test]
fn status_line_must_have_three_parts() {
    assert_eq!(
        parse("HTTP/1.1 200\n\n"),
        Err(Error::MalformedResponse(
            "invalid status line: HTTP/1.1 200".to_string()
        ))
    );
    assert_eq!(
        parse("HTTP/1.1\n\n"),
        Err(Error::MalformedResponse(
            "invalid status line: HTTP/1.1".to_string()
        ))
    );
    assert_eq!(
        parse("HTTP/1.1 200 Not Found\n\n"),
        Err(Error::MalformedResponse(
            "invalid status line: HTTP/1.1 200 Not Found".to_string()
        ))
    );
    assert_eq!(
        parse("HTTP/1.1  200 OK\n\n"),
        Err(Error::MalformedResponse(
            "invalid status line: HTTP/1.1  200 OK".to_string()
        ))
    );
}

#[test]
fn parts_of_the_status_line_may_be_empty() {
    let res = parse("HTTP/1.1 200 \n\n").unwrap();
    assert_eq!(res.version(), "HTTP/1.1");
    assert_eq!(res.status_code(), 200);
    assert_eq!(res.reason(), "");
    let res = parse("x 0 \u{1F600}\n").unwrap();
    assert_eq!(res.version(), "x");
    assert_eq!(res.status_code(), 0);
    assert_eq!(res.reason(), "\u{1F600}");
}

#[test]
fn status_code_must_be_a_number() {
    assert_eq!(
        parse("HTTP/1.1 abc OK\n\n"),
        Err(Error::MalformedResponse(
            "invalid status code: abc".to_string()
        ))
    );
    assert_eq!(
        parse("HTTP/1.1  OK\n\n"),
        Err(Error::MalformedResponse("invalid status code: ".to_string()))
    );
    assert_eq!(
        parse("HTTP/1.1 -1 OK\n\n"),
        Err(Error::MalformedResponse(
            "invalid status code: -1".to_string()
        ))
    );
    assert_eq!(
        parse("HTTP/1.1 20x OK\n\n"),
        Err(Error::MalformedResponse(
            "invalid status code: 20x".to_string()
        ))
    );
}

#[test]
fn status_code_must_fit_32_bits() {
    assert_eq!(
        parse("HTTP/1.1 4294967295 OK\n\n").unwrap().status_code(),
        4294967295
    );
    assert_eq!(
        parse("HTTP/1.1 4294967296 OK\n\n"),
        Err(Error::MalformedResponse(
            "invalid status code: 4294967296".to_string()
        ))
    );
}

#[test]
fn status_code_may_have_a_plus_sign_and_leading_zeros() {
    assert_eq!(parse("HTTP/1.1 +200 OK\n\n").unwrap().status_code(), 200);
    assert_eq!(parse("HTTP/1.1 007 OK\n\n").unwrap().status_code(), 7);
}

#[test]
fn text_beyond_ascii_is_kept_character_by_character() {
    let res = parse("HTTP/1.1 200 Größe\nÜber: 日本語 ✓\n\nécrit à la main").unwrap();
    assert_eq!(res.reason(), "Größe");
    assert_eq!(res.header_value("Über"), Ok("日本語 ✓".to_string()));
    assert_eq!(res.body(), "écrit à la main");
}

#[test]
fn accessors_hand_out_copies() {
    let res = parse("HTTP/1.1 200 OK\nA: b\n\nbody").unwrap();
    let mut version = res.version();
    version.push('!');
    let mut headers = res.headers();
    headers.clear();
    let mut body = res.body();
    body.clear();
    assert_eq!(res.version(), "HTTP/1.1");
    assert_eq!(res.headers().len(), 1);
    assert_eq!(res.body(), "body");
}

#[test]
fn a_cloned_response_equals_the_one_it_was_made_from() {
    let res = parse("HTTP/1.1 200 OK\nA: b\nC: d\n\nbody").unwrap();
    let copy = res.clone();
    assert_eq!(copy, res);
    assert_eq!(names_and_values(&copy), vec![pair("A", "b"), pair("C", "d")]);
}

#[test]
fn a_header_holds_what_it_was_made_from() {
    let header = Header::new(" name ".to_string(), "value: x".to_string());
    assert_eq!(header.name(), " name ");
    assert_eq!(header.value(), "value: x");
    assert_eq!(header.clone(), header);
}

#[test]
fn a_cloned_error_equals_the_one_it_was_made_from() {
    let network = Error::Network("a".to_string());
    let malformed = Error::MalformedResponse("a".to_string());
    assert_eq!(network.clone(), network);
    assert_eq!(malformed.clone(), malformed);
    assert_ne!(network, malformed);
}

#[test]
fn a_written_response_is_read_back() {
    let headers = vec![
        pair("Content-Type", "text/html; charset=utf-8"),
        pair("", ""),
        pair("X-Empty", ""),
        pair("Set-Cookie", "a=1"),
        pair("Set-Cookie", "b=2"),
    ];
    let body = "<html>\n\n x\r</html>\r\n";
    let mut raw = "HTTP/1.1 +0404 Not-Found\n".to_string();
    for (name, value) in &headers {
        raw.push_str(name);
        raw.push_str(": ");
        raw.push_str(value);
        raw.push('\n');
    }
    raw.push('\n');
    raw.push_str(body);
    let res = HttpResponse::new(raw).unwrap();
    assert_eq!(res.version(), "HTTP/1.1");
    assert_eq!(res.status_code(), 404);
    assert_eq!(res.reason(), "Not-Found");
    assert_eq!(names_and_values(&res), headers);
    assert_eq!(res.body(), body);
}

#[test]
fn body_is_kept_but_for_carriage_returns_after_line_feeds() {
    let res = parse("HTTP/1.1 200 OK\nA: b\n\n\r \n\r\n\r\r\n x \n").unwrap();
    assert_eq!(res.body(), " \n\n\r\n x \n");
}
