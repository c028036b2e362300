//! The whole in-process pipeline of one game request: the HTTP bytes are
//! parsed, the move payload prepared, carried out on the registry, and the
//! answer rendered — everything but the sockets and the JSON payload layer.

use tictac_core::game::TicTacGame;
use tictac_core::request::Request;
use tictac_core::web::{prepare_move_request, render_game_response, route_of, Route};
use tictac_core::wire::process_request;

#[test]
fn one_post_plays_and_renders_both_marks() {
    let raw = b"POST /game/ HTTP/1.1\r\nHost: localhost:3000\r\n\r\nuser_id=1&new_game=true&move_to=0";
    let req = Request::parse_request(raw).unwrap();
    assert_eq!(route_of(&req.url), Route::Move);

    let (data, opcode) = prepare_move_request(&req).unwrap();
    let mut game = TicTacGame::new();
    let reply = process_request(&mut game, opcode, &data).unwrap();

    let user_id = req.get_param("user_id").unwrap().clone();
    let res = render_game_response(&user_id, &reply.into_bytes(), "{game_table}");
    assert_eq!(res.code, "HTTP/1.1 200 Ok");
    let body = String::from_utf8(res.body.clone().unwrap()).unwrap();
    assert!(body.starts_with("<tr><td>[X]</td><td>[O]</td><td>[2]</td></tr>"));

    let wire = res.serialize();
    assert!(wire.starts_with("HTTP/1.1 200 Ok\r\n"));
    assert!(wire.ends_with("</tr>\r\n"));
}

#[test]
fn distinct_users_keep_their_own_boards_across_requests() {
    let mut game = TicTacGame::new();
    for (user, cell) in [(1u32, '0'), (2u32, '4'), (3u32, '8')] {
        let raw = format!(
            "POST /game/ HTTP/1.1\r\nHost: x\r\n\r\nuser_id={}&new_game=true&move_to={}",
            user, cell
        );
        let req = Request::parse_request(raw.as_bytes()).unwrap();
        let (data, opcode) = prepare_move_request(&req).unwrap();
        process_request(&mut game, opcode, &data).unwrap();
    }
    assert_eq!(
        game.get_serialized(1).unwrap(),
        r#"[["X","O","2"],["3","4","5"],["6","7","8"]]"#
    );
    assert_eq!(
        game.get_serialized(2).unwrap(),
        r#"[["O","1","2"],["3","X","5"],["6","7","8"]]"#
    );
    assert_eq!(
        game.get_serialized(3).unwrap(),
        r#"[["O","1","2"],["3","4","5"],["6","7","X"]]"#
    );
}
