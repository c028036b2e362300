//! The request parser and the response builder.

use tictac_core::request::{ParseError, Request};
use tictac_core::response::{
    bad_request, faulty_query, internal_error, not_found, not_implemented, ok, parse_status_line,
    unkown_error, Response,
};

#[test]
fn request_line_is_parsed() {
    let req = Request::parse_request(b"GET /index.html HTTP/1.1\r\n").unwrap();
    assert_eq!(req.method, "GET");
    assert_eq!(req.url, "/index.html");
    assert_eq!(req.headers.len(), 0);
    assert!(req.body.is_none());
}

#[test]
fn query_is_split_off_and_decoded() {
    let req = Request::parse_request(b"GET /page?user_id=5&z=9 HTTP/1.1\r\n").unwrap();
    assert_eq!(req.url, "/page");
    let params = req.body.as_ref().unwrap();
    assert_eq!(params.get("user_id").unwrap(), "5");
    assert_eq!(params.get("z").unwrap(), "9");
}

#[test]
fn empty_query_leaves_parameters_absent() {
    let req = Request::parse_request(b"GET /page? HTTP/1.1\r\n").unwrap();
    assert_eq!(req.url, "/page");
    assert!(req.body.is_none());
}

#[test]
fn malformed_request_line_is_an_error() {
    let r = Request::parse_request(b"GET / HTTP/1.1\rX\n");
    assert!(matches!(r, Err(ParseError::MalformedRequestLine)));
}

#[test]
fn empty_read_yields_blank_request() {
    let req = Request::parse_request(b"").unwrap();
    assert_eq!(req.method, "");
    assert_eq!(req.url, "");
    assert!(req.body.is_none());
}

#[test]
fn headers_are_collected() {
    let req = Request::parse_request(
        b"GET / HTTP/1.1\r\nHost: localhost:3000\r\nAccept: text/html\r\n\r\n",
    )
    .unwrap();
    assert_eq!(req.headers.get("Host").unwrap(), "localhost:3000");
    assert_eq!(req.headers.get("Accept").unwrap(), "text/html");
}

#[test]
fn header_value_may_hold_colons_and_spaces() {
    let req = Request::parse_request(b"GET / HTTP/1.1\r\nHost: a:b c\r\n\r\n").unwrap();
    assert_eq!(req.headers.get("Host").unwrap(), "a:b c");
}

#[test]
fn header_with_empty_key_is_tolerated() {
    let req = Request::parse_request(b"GET / HTTP/1.1\r\n x\r\n\r\n").unwrap();
    assert_eq!(req.headers.get("").unwrap(), "x");
}

#[test]
fn post_body_is_decoded() {
    let req = Request::parse_request(
        b"POST /game/ HTTP/1.1\r\nHost: x\r\n\r\nuser_id=1&move_to=0",
    )
    .unwrap();
    let params = req.body.as_ref().unwrap();
    assert_eq!(params.get("user_id").unwrap(), "1");
    assert_eq!(params.get("move_to").unwrap(), "0");
}

#[test]
fn query_wins_over_body_on_merge() {
    let req = Request::parse_request(
        b"POST /game/?a=query HTTP/1.1\r\nHost: x\r\n\r\na=body&b=2",
    )
    .unwrap();
    let params = req.body.as_ref().unwrap();
    assert_eq!(params.get("a").unwrap(), "query");
    assert_eq!(params.get("b").unwrap(), "2");
}

#[test]
fn non_post_body_bytes_are_ignored() {
    let req = Request::parse_request(b"GET / HTTP/1.1\r\nHost: x\r\n\r\na=1").unwrap();
    assert!(req.body.is_none());
}

#[test]
fn get_param_reports_missing_sources() {
    let req = Request::new();
    let e = req.get_param("user_id").unwrap_err();
    assert_eq!(e.code, "HTTP/1.1 422 Unprocessable Entity");
    assert_eq!(e.body.as_deref(), Some("No data submitted in query".as_bytes()));

    let req = Request::parse_request(b"GET /?other=1 HTTP/1.1\r\n").unwrap();
    let e = req.get_param("user_id").unwrap_err();
    assert_eq!(
        e.body.as_deref(),
        Some("No \"user_id\" submitted in query".as_bytes())
    );

    let req = Request::parse_request(b"GET /?user_id= HTTP/1.1\r\n").unwrap();
    let e = req.get_param("user_id").unwrap_err();
    assert_eq!(e.body.as_deref(), Some("\"user_id\" was empty".as_bytes()));
}

#[test]
fn get_param_hands_out_values() {
    let req = Request::parse_request(b"GET /?user_id=7 HTTP/1.1\r\n").unwrap();
    assert_eq!(req.get_param("user_id").unwrap(), "7");
}

#[test]
fn response_serializes_status_headers_and_body() {
    let mut res = Response::new();
    res.status("200", Some("Ok"));
    res.header("Content-Type", "text/html");
    res.body(b"BODY".to_vec());
    assert_eq!(res.body_len(), 4);
    let text = res.serialize();
    assert_eq!(
        text,
        "HTTP/1.1 200 Ok\r\nContent-Type: text/html\r\n\r\nBODY\r\n"
    );
}

#[test]
fn response_without_body_has_no_blank_line() {
    let mut res = Response::new();
    res.status("204", None);
    assert_eq!(res.body_len(), 0);
    assert_eq!(res.serialize(), "HTTP/1.1 204 \r\n");
}

#[test]
fn header_overwrites_earlier_value() {
    let mut res = Response::new();
    res.status("200", Some("Ok"));
    res.header("Content-Type", "text/plain");
    res.header("Content-Type", "text/html");
    assert_eq!(res.serialize(), "HTTP/1.1 200 Ok\r\nContent-Type: text/html\r\n");
}

#[test]
fn status_line_round_trips_through_serialization() {
    let mut res = Response::new();
    res.status("422", Some("Unprocessable Entity"));
    res.header("Content-Type", "text/html");
    res.body(b"why".to_vec());
    let text = res.serialize();
    let (code, reason) = parse_status_line(&text).unwrap();
    assert_eq!(code, "422");
    assert_eq!(reason, "Unprocessable Entity");
}

#[test]
fn parse_status_line_rejects_torsos() {
    assert!(parse_status_line("HTTP/1.1").is_none());
    assert!(parse_status_line("HTTP/1.1 200").is_none());
    assert!(parse_status_line("HTTP/1.1 200 Ok").is_none());
}

#[test]
fn stock_responses_carry_their_codes() {
    assert_eq!(ok().code, "HTTP/1.1 200 Ok");
    assert_eq!(bad_request().code, "HTTP/1.1 400 Bad Request");
    assert_eq!(not_found().code, "HTTP/1.1 404 Not Found");
    assert_eq!(internal_error().code, "HTTP/1.1 500 Internal Server Error");
    assert_eq!(not_implemented().code, "HTTP/1.1 501 Request Not Implemented");
    assert_eq!(unkown_error().code, "HTTP/1.1 520 Unkown Error");
    assert_eq!(ok().headers.get("Content-Type").unwrap(), "text/html");
}

#[test]
fn faulty_query_carries_its_text() {
    let res = faulty_query("what went wrong");
    assert_eq!(res.code, "HTTP/1.1 422 Unprocessable Entity");
    assert_eq!(res.body.as_deref(), Some("what went wrong".as_bytes()));
}
