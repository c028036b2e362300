//! The web front-end's routing and handlers.

use tictac_core::request::Request;
use tictac_core::web::{
    create_table, handle_new, prepare_move_request, render_game_response, route_of, Route,
};

#[test]
fn routes_match_exactly() {
    assert_eq!(route_of("/"), Route::NewUser);
    assert_eq!(route_of("/game"), Route::Move);
    assert_eq!(route_of("/game/"), Route::Move);
    assert_eq!(route_of("/other"), Route::NotFound);
    assert_eq!(route_of(""), Route::NotFound);
}

#[test]
fn create_table_renders_rows_and_cells() {
    let grid = vec![vec!['X', '1'], vec!['2', 'O']];
    assert_eq!(
        create_table(grid),
        "<tr><td>[X]</td><td>[1]</td></tr><tr><td>[2]</td><td>[O]</td></tr>"
    );
}

#[test]
fn handle_new_fills_in_the_user_id() {
    let req = Request::parse_request(b"GET /?user_id=42 HTTP/1.1\r\n").unwrap();
    let res = handle_new(&req, "<p>Hello {user_id}!</p>");
    assert_eq!(res.code, "HTTP/1.1 200 Ok");
    assert_eq!(res.body.as_deref(), Some("<p>Hello 42!</p>".as_bytes()));
    assert_eq!(res.headers.get("Content-Length").unwrap(), "16");
    assert_eq!(res.headers.get("Content-Type").unwrap(), "text/html");
}

#[test]
fn handle_new_defaults_the_user_id() {
    let req = Request::new();
    let res = handle_new(&req, "id={user_id}");
    assert_eq!(res.body.as_deref(), Some("id=123".as_bytes()));
}

#[test]
fn content_length_counts_bytes_not_characters() {
    // The parser reads one character per byte, so each byte of a multi-byte
    // sequence becomes its own character, and the rendered page re-encodes
    // them in UTF-8: two input bytes become four output bytes here.
    let mut raw = b"GET /?user_id=".to_vec();
    raw.extend_from_slice(&[0xC3, 0xA9]);
    raw.extend_from_slice(b" HTTP/1.1\r\n");
    let req = Request::parse_request(&raw).unwrap();
    let res = handle_new(&req, "id={user_id}");
    assert_eq!(res.body.as_ref().unwrap().len(), 7);
    assert_eq!(res.headers.get("Content-Length").unwrap(), "7");
}

#[test]
fn prepare_move_request_builds_the_payload() {
    let req = Request::parse_request(
        b"POST /game/ HTTP/1.1\r\nHost: x\r\n\r\nuser_id=1&new_game=true&move_to=0",
    )
    .unwrap();
    let (data, opcode) = prepare_move_request(&req).unwrap();
    assert_eq!(data.user_id, 1);
    assert_eq!(data.move_to, '0');
    assert!(data.new_game);
    assert_eq!(opcode, 0);
}

#[test]
fn prepare_move_request_reads_the_new_game_flag() {
    let req = Request::parse_request(
        b"POST /game/ HTTP/1.1\r\nHost: x\r\n\r\nuser_id=1&new_game=false&move_to=4",
    )
    .unwrap();
    let (data, _) = prepare_move_request(&req).unwrap();
    assert!(!data.new_game);
    let req = Request::parse_request(
        b"POST /game/ HTTP/1.1\r\nHost: x\r\n\r\nuser_id=1&new_game=whatever&move_to=4",
    )
    .unwrap();
    let (data, _) = prepare_move_request(&req).unwrap();
    assert!(!data.new_game);
    let req = Request::parse_request(
        b"POST /game/ HTTP/1.1\r\nHost: x\r\n\r\nuser_id=1&move_to=4",
    )
    .unwrap();
    let (data, _) = prepare_move_request(&req).unwrap();
    assert!(data.new_game);
}

#[test]
fn prepare_move_request_requires_a_user_id() {
    let req = Request::parse_request(b"POST /game/ HTTP/1.1\r\nHost: x\r\n\r\nmove_to=0")
        .unwrap();
    let res = prepare_move_request(&req).unwrap_err();
    assert_eq!(res.code, "HTTP/1.1 422 Unprocessable Entity");
}

#[test]
fn prepare_move_request_rejects_a_non_numeric_user_id() {
    let req = Request::parse_request(
        b"POST /game/ HTTP/1.1\r\nHost: x\r\n\r\nuser_id=abc&move_to=0",
    )
    .unwrap();
    let res = prepare_move_request(&req).unwrap_err();
    assert_eq!(res.code, "HTTP/1.1 400 Bad Request");
}

#[test]
fn prepare_move_request_answers_missing_or_wild_moves_with_a_page() {
    for body in ["user_id=1", "user_id=1&move_to=9", "user_id=1&move_to=n"] {
        let raw = format!("POST /game/ HTTP/1.1\r\nHost: x\r\n\r\n{}", body);
        let req = Request::parse_request(raw.as_bytes()).unwrap();
        let res = prepare_move_request(&req).unwrap_err();
        assert_eq!(res.code, "HTTP/1.1 200 Ok");
        assert_eq!(
            res.body.as_deref(),
            Some("Illegal move, please press back".as_bytes())
        );
        assert_eq!(res.headers.get("Content-Length").unwrap(), "31");
    }
}

#[test]
fn render_game_response_builds_the_page() {
    let reply = br#"[["X","O","2"],["3","4","5"],["6","7","8"]]"#.to_vec();
    let res = render_game_response("7", &reply, "<i>{user_id}</i><table>{game_table}</table>");
    assert_eq!(res.code, "HTTP/1.1 200 Ok");
    let body = String::from_utf8(res.body.unwrap()).unwrap();
    assert_eq!(
        body,
        "<i>7</i><table><tr><td>[X]</td><td>[O]</td><td>[2]</td></tr>\
         <tr><td>[3]</td><td>[4]</td><td>[5]</td></tr>\
         <tr><td>[6]</td><td>[7]</td><td>[8]</td></tr></table>"
    );
}

#[test]
fn render_game_response_rejects_bad_replies() {
    let res = render_game_response("7", &vec![0xff, 0xfe], "{game_table}");
    assert_eq!(res.code, "HTTP/1.1 500 Internal Server Error");
    let res = render_game_response("7", &b"not json".to_vec(), "{game_table}");
    assert_eq!(res.code, "HTTP/1.1 500 Internal Server Error");
}
