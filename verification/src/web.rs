//! The web front-end's handler logic: routing, the start page, and the game
//! page. The callers read the HTML templates and speak to the back-end; the
//! decisions — which route, which parameters, which frame to send, what page
//! or error to answer — are made here, on plain values.

use vstd::prelude::*;
use vstd::utf8::{encode_utf8, decode_utf8, valid_utf8};
use crate::game::board_view;
use crate::params::{SpecPair, insert_pair, map_get};
use crate::request::{Request, RequestModel};
use crate::response::{
    Response, status_code_line, ok, bad_request, internal_error,
};
use crate::strutil::{
    dec_chars, dec_val, digit_val, is_digit, is_u32_numeral, parse_u32, push_char, replace_all,
    spec_replace, str_eq, string_to_bytes, u32_to_string, utf8_to_string,
};
use crate::wire::UserData;

verus! {

/// The web server's closed route set.
#[derive(Clone, Copy, PartialEq, Eq, Structural, Debug)]
pub enum Route {
    /// `/`: the start page.
    NewUser,
    /// `/game` or `/game/`: a game request.
    Move,
    /// Anything else.
    NotFound,
}

/// Which route a path names.
pub open spec fn spec_route(url: Seq<char>) -> Route {
    if url == "/"@ {
        Route::NewUser
    } else if url == "/game"@ || url == "/game/"@ {
        Route::Move
    } else {
        Route::NotFound
    }
}

/// Routes a request path by exact match.
pub fn route_of(url: &str) -> (r: Route)
    ensures
        r == spec_route(url@),
{
    if str_eq(url, "/") {
        Route::NewUser
    } else if str_eq(url, "/game") || str_eq(url, "/game/") {
        Route::Move
    } else {
        Route::NotFound
    }
}

/// One board cell as a table cell: the mark in brackets.
pub open spec fn cell_text(c: char) -> Seq<char> {
    seq!['<', 't', 'd', '>', '['] + seq![c] + seq![']', '<', '/', 't', 'd', '>']
}

/// The cells of one row, in order.
pub open spec fn row_cells(r: Seq<char>) -> Seq<char>
    decreases r.len(),
{
    if r.len() == 0 {
        Seq::empty()
    } else {
        row_cells(r.drop_last()) + cell_text(r.last())
    }
}

/// One row as a table row.
pub open spec fn row_text(r: Seq<char>) -> Seq<char> {
    seq!['<', 't', 'r', '>'] + row_cells(r) + seq!['<', '/', 't', 'r', '>']
}

/// A whole grid as table rows.
pub open spec fn table_text(g: Seq<Seq<char>>) -> Seq<char>
    decreases g.len(),
{
    if g.len() == 0 {
        Seq::empty()
    } else {
        table_text(g.drop_last()) + row_text(g.last())
    }
}

/// Renders a character grid as the rows and cells of an HTML table.
#[verifier::loop_isolation(false)]
pub fn create_table(game: Vec<Vec<char>>) -> (r: String)
    ensures
        r@ == table_text(board_view(game)),
{
    proof {
        reveal_strlit("<tr>");
        reveal_strlit("</tr>");
        reveal_strlit("<td>[");
        reveal_strlit("]</td>");
    }
    let ghost g = board_view(game);
    let mut out = String::new();
    let rows = game.len();
    let mut y: usize = 0;
    while y < rows
        invariant
            y <= rows,
            out@ == table_text(g.take(y as int)),
        decreases rows - y,
    {
        out.append("<tr>");
        let cols = game[y].len();
        let ghost row = g[y as int];
        let mut x: usize = 0;
        while x < cols
            invariant
                x <= cols,
                cols == row.len(),
                row == g[y as int],
                y < rows,
                out@ == table_text(g.take(y as int)) + seq!['<', 't', 'r', '>'] + row_cells(
                    row.take(x as int),
                ),
            decreases cols - x,
        {
            out.append("<td>[");
            push_char(&mut out, game[y][x]);
            out.append("]</td>");
            proof {
                assert(row.take(x + 1).drop_last() =~= row.take(x as int));
                assert(row.take(x + 1).last() == row[x as int]);
                assert("<td>["@ =~= seq!['<', 't', 'd', '>', '[']);
                assert("]</td>"@ =~= seq![']', '<', '/', 't', 'd', '>']);
                assert(out@ =~= table_text(g.take(y as int)) + seq!['<', 't', 'r', '>']
                    + row_cells(row.take(x + 1)));
            }
            x += 1;
        }
        out.append("</tr>");
        proof {
            assert(row.take(cols as int) =~= row);
            assert(g.take(y + 1).drop_last() =~= g.take(y as int));
            assert(g.take(y + 1).last() == row);
            assert("<tr>"@ =~= seq!['<', 't', 'r', '>']);
            assert("</tr>"@ =~= seq!['<', '/', 't', 'r', '>']);
            assert(out@ =~= table_text(g.take(y + 1)));
        }
        y += 1;
    }
    assert(g.take(rows as int) =~= g);
    out
}

/// The user identifier the start page shows: the request's `user_id`
/// parameter, or the fixed placeholder.
pub open spec fn new_user_id(req: RequestModel) -> Seq<char> {
    match req.body {
        Some(m) => match map_get(m, "user_id"@) {
            Some(v) => v,
            None => "123"@,
        },
        None => "123"@,
    }
}

/// The start page for `/`: the template with `{user_id}` replaced by the
/// request's `user_id` parameter (or the placeholder), served as `200 Ok`
/// with its exact `Content-Length`. A rendered page too large for the length
/// header is answered with the internal error instead.
pub fn handle_new(request: &Request, template: &str) -> (r: Response)
    ensures
        ({
            let rendered = spec_replace(template@, "{user_id}"@, new_user_id(request@));
            let bytes = encode_utf8(rendered);
            &&& r.wf()
            &&& r.body_utf8()
            &&& if bytes.len() <= u32::MAX {
                &&& r.code@ == status_code_line("200"@, "Ok"@)
                &&& r.body is Some && r.body.unwrap()@ == bytes
                &&& r.headers@ == seq![
                    ("Content-Type"@, "text/html"@),
                    ("Content-Length"@, dec_chars(bytes.len())),
                ]
            } else {
                &&& r.code@ == status_code_line("500"@, "Internal Server Error"@)
                &&& r.headers@ == seq![("Content-Type"@, "text/html"@)]
                &&& r.body is None
            }
        }),
{
    let user_id: String = match self_param(request) {
        Some(v) => v,
        None => {
            proof {
                reveal_strlit("123");
            }
            String::from_str("123")
        },
    };
    let body_work = replace_all(template, "{user_id}", user_id.as_str());
    page_response(body_work.as_str())
}

/// Adding `Content-Length` beside the lone `Content-Type` header appends it.
proof fn lemma_push_content_length(v: Seq<char>)
    ensures
        insert_pair(seq![("Content-Type"@, "text/html"@)], "Content-Length"@, v) == seq![
            ("Content-Type"@, "text/html"@),
            ("Content-Length"@, v),
        ],
{
    reveal_strlit("Content-Type");
    reveal_strlit("Content-Length");
    assert("Content-Type"@.len() != "Content-Length"@.len());
    let ct = ("Content-Type"@, "text/html"@);
    assert(seq![ct].skip(1) =~= Seq::<SpecPair>::empty());
    assert(insert_pair(Seq::empty(), "Content-Length"@, v) =~= seq![("Content-Length"@, v)]);
    assert(insert_pair(seq![ct], "Content-Length"@, v) =~= seq![ct, ("Content-Length"@, v)]);
}

/// A `200 Ok` page carrying the given text and its exact `Content-Length`;
/// the internal error instead when the text's encoding is too large for the
/// length header.
pub fn page_response(text: &str) -> (r: Response)
    ensures
        ({
            let bytes = encode_utf8(text@);
            &&& r.wf()
            &&& r.body_utf8()
            &&& if bytes.len() <= u32::MAX {
                &&& r.code@ == status_code_line("200"@, "Ok"@)
                &&& r.body is Some && r.body.unwrap()@ == bytes
                &&& r.headers@ == seq![
                    ("Content-Type"@, "text/html"@),
                    ("Content-Length"@, dec_chars(bytes.len())),
                ]
            } else {
                &&& r.code@ == status_code_line("500"@, "Internal Server Error"@)
                &&& r.headers@ == seq![("Content-Type"@, "text/html"@)]
                &&& r.body is None
            }
        }),
{
    let bytes = string_to_bytes(text);
    proof {
        broadcast use vstd::utf8::encode_utf8_valid_utf8;
    }
    if bytes.len() > u32::MAX as usize {
        return internal_error();
    }
    let blen: u32 = bytes.len() as u32;
    let mut response = ok();
    response.body(bytes);
    let ls = u32_to_string(blen);
    response.header("Content-Length", ls.as_str());
    proof {
        lemma_push_content_length(ls@);
    }
    response
}

/// Every character of a string of 7-bit characters encodes in one byte.
proof fn lemma_ascii_encode_len(s: Seq<char>)
    requires
        forall|i: int| 0 <= i < s.len() ==> (s[i] as u32) < 0x80,
    ensures
        encode_utf8(s).len() == s.len(),
    decreases s.len(),
{
    if s.len() > 0 {
        assert(forall|i: int| 0 <= i < s.drop_first().len() ==> s.drop_first()[i] == s[i + 1]);
        lemma_ascii_encode_len(s.drop_first());
        assert(vstd::utf8::encode_scalar(s[0] as u32).len() == 1);
    }
}

/// The value a request carries for a parameter: present only when the
/// parameter was sent and non-empty, as `get_param` hands it out.
pub open spec fn param_of(req: RequestModel, key: Seq<char>) -> Option<Seq<char>> {
    match req.body {
        None => None,
        Some(m) => match map_get(m, key) {
            None => None,
            Some(v) => if v.len() == 0 {
                None
            } else {
                Some(v)
            },
        },
    }
}

/// The requested cell: the first character of a sent `move_to`, or the
/// no-move sentinel.
pub open spec fn move_char(req: RequestModel) -> char {
    match param_of(req, "move_to"@) {
        Some(v) => v[0],
        None => 'n',
    }
}

/// Whether the request asks for a fresh board: a sent `new_game` means its
/// text must be exactly `true`; an absent one defaults to yes.
pub open spec fn want_new_game(req: RequestModel) -> bool {
    match param_of(req, "new_game"@) {
        Some(v) => v == "true"@,
        None => true,
    }
}

/// The body text of the page that answers an out-of-range move request.
pub open spec fn illegal_move_text() -> Seq<char> {
    "Illegal move, please press back"@
}

/// Reads a game request's parameters into the wire payload and its opcode.
/// A missing or empty `user_id` is answered with the `422` it earned from
/// `get_param`; one that is not a decimal number, with `400 Bad Request`. A
/// `move_to` that does not name a cell 0 to 8 — a non-digit, a large number,
/// or no move at all — is answered with the `200 Ok` page asking to go back.
pub fn prepare_move_request(request: &Request) -> (r: Result<(UserData, u32), Response>)
    ensures
        match r {
            Ok(p) => {
                &&& param_of(request@, "user_id"@) is Some
                &&& is_u32_numeral(param_of(request@, "user_id"@).unwrap())
                &&& p.0.user_id as nat == dec_val(param_of(request@, "user_id"@).unwrap())
                &&& p.0.move_to == move_char(request@)
                &&& is_digit(move_char(request@))
                &&& digit_val(move_char(request@)).unwrap() <= 8
                &&& p.0.new_game == want_new_game(request@)
                &&& p.1 == 0
            },
            Err(resp) => {
                &&& resp.wf()
                &&& resp.body_utf8()
                &&& match param_of(request@, "user_id"@) {
                    None => resp.code@ == status_code_line("422"@, "Unprocessable Entity"@),
                    Some(uid) => if !is_u32_numeral(uid) {
                        &&& resp.code@ == status_code_line("400"@, "Bad Request"@)
                        &&& resp.body is None
                    } else {
                        &&& !(is_digit(move_char(request@)) && digit_val(
                            move_char(request@),
                        ).unwrap() <= 8)
                        &&& resp.code@ == status_code_line("200"@, "Ok"@)
                        &&& resp.body is Some && resp.body.unwrap()@ == encode_utf8(
                            illegal_move_text(),
                        )
                        &&& resp.headers@ == seq![
                            ("Content-Type"@, "text/html"@),
                            ("Content-Length"@, dec_chars(encode_utf8(illegal_move_text()).len())),
                        ]
                    },
                }
            },
        },
{
    let user_id = match request.get_param("user_id") {
        Ok(u) => u,
        Err(e) => {
            return Err(e);
        },
    };
    let uid_num = match parse_u32(user_id.as_str()) {
        Some(v) => v,
        None => {
            return Err(bad_request());
        },
    };
    let move_to: char = match request.get_param("move_to") {
        Ok(mv) => mv.as_str().get_char(0),
        Err(_) => 'n',
    };
    let new_game = match request.get_param("new_game") {
        Ok(ng) => str_eq(ng.as_str(), "true"),
        Err(_) => true,
    };
    proof {
        reveal_strlit("true");
    }
    let in_range = match crate::strutil::exec_digit_of(move_to) {
        Some(d) => d <= 8,
        None => false,
    };
    if in_range {
        Ok((UserData { user_id: uid_num, move_to, new_game }, 0))
    } else {
        proof {
            reveal_strlit("Illegal move, please press back");
            lemma_ascii_encode_len(illegal_move_text());
        }
        Err(page_response("Illegal move, please press back"))
    }
}

/// Names what rustc_serialize's JSON decoder reads a text as, when it reads
/// it as a grid of characters at all: a function of the text alone.
pub uninterp spec fn grid_parse(s: Seq<char>) -> Option<Seq<Seq<char>>>;

/// Relies on rustc_serialize's `json::decode` for `Vec<Vec<char>>`: whether
/// the text decodes, and to what, depends on the text alone.
#[verifier::external_body]
fn decode_grid(s: &str) -> (r: Option<Vec<Vec<char>>>)
    ensures
        r is Some <==> grid_parse(s@) is Some,
        r is Some ==> board_view(r.unwrap()) == grid_parse(s@).unwrap(),
{
    rustc_serialize::json::decode::<Vec<Vec<char>>>(s).ok()
}

/// The game page: the back-end's reply decoded as a JSON grid and rendered
/// as a table into the template, beside the user's identifier. A reply that
/// is not UTF-8 text, or does not decode as a grid, is answered with the
/// internal error.
pub fn render_game_response(user_id: &str, reply: &Vec<u8>, template: &str) -> (r: Response)
    ensures
        r.wf(),
        r.body_utf8(),
        ({
            let err_shape = {
                &&& r.code@ == status_code_line("500"@, "Internal Server Error"@)
                &&& r.headers@ == seq![("Content-Type"@, "text/html"@)]
                &&& r.body is None
            };
            if !valid_utf8(reply@) {
                err_shape
            } else {
                match grid_parse(decode_utf8(reply@)) {
                    None => err_shape,
                    Some(g) => {
                        let rendered = spec_replace(
                            spec_replace(template@, "{user_id}"@, user_id@),
                            "{game_table}"@,
                            table_text(g),
                        );
                        let bytes = encode_utf8(rendered);
                        if bytes.len() <= u32::MAX {
                            &&& r.code@ == status_code_line("200"@, "Ok"@)
                            &&& r.body is Some && r.body.unwrap()@ == bytes
                            &&& r.headers@ == seq![
                                ("Content-Type"@, "text/html"@),
                                ("Content-Length"@, dec_chars(bytes.len())),
                            ]
                        } else {
                            err_shape
                        }
                    },
                }
            }
        }),
{
    let text = match utf8_to_string(reply) {
        Some(t) => t,
        None => {
            return internal_error();
        },
    };
    let grid = match decode_grid(text.as_str()) {
        Some(g) => g,
        None => {
            return internal_error();
        },
    };
    let table = create_table(grid);
    let with_user = replace_all(template, "{user_id}", user_id);
    let with_table = replace_all(with_user.as_str(), "{game_table}", table.as_str());
    page_response(with_table.as_str())
}

/// The `user_id` parameter of the request, if any.
fn self_param(request: &Request) -> (r: Option<String>)
    ensures
        match r {
            Some(v) => request@.body is Some && map_get(request@.body.unwrap(), "user_id"@)
                == Some(v@),
            None => match request@.body {
                Some(m) => map_get(m, "user_id"@) is None,
                None => true,
            },
        },
{
    match request.body.as_ref() {
        Some(map) => match map.get("user_id") {
            Some(v) => Some(v.clone()),
            None => None,
        },
        None => None,
    }
}

} // verus!
