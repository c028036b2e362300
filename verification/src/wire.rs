//! The inter-process protocol between the web front-end and the game
//! back-end: an ASCII decimal opcode, a colon, and a JSON payload. Opcode 1
//! asks for the board alone; any other opcode applies the enclosed move first.
//! The framing and the back-end's decision logic live here; turning the
//! payload into a [`UserData`] and back is the callers' JSON layer.

use vstd::prelude::*;
use crate::game::{
    TicTacGame, GameError, fresh_board, json_grid, board_with, apply_move_spec,
};
use crate::params::{find_char, lemma_find_char_at, lemma_find_char_none};
use crate::strutil::{dec_chars, dec_val, is_u32_numeral, parse_u32, push_char, u32_to_string};

verus! {

/// The one structure serialized across the process boundary: who plays,
/// where to (a non-digit such as `'n'` means no move), and whether to start
/// the game over first.
#[derive(Debug)]
pub struct UserData {
    pub user_id: u32,
    pub move_to: char,
    pub new_game: bool,
}

/// How reading a frame can fail.
#[derive(Clone, Copy, PartialEq, Eq, Structural, Debug)]
pub enum FrameError {
    /// No colon separates an opcode from a payload.
    MissingSeparator,
    /// The text before the colon is not a decimal opcode in range.
    BadOpcode,
}

/// Writes a frame: the opcode in decimal, a colon, the payload.
pub fn build_frame(opcode: u32, payload: &str) -> (r: String)
    ensures
        r@ == dec_chars(opcode as nat) + seq![':'] + payload@,
{
    let mut out = u32_to_string(opcode);
    push_char(&mut out, ':');
    out.append(payload);
    out
}

/// Reads a frame: the decimal opcode before the first colon, and everything
/// after it as the payload. Fails when there is no colon, or when the text
/// before it is not a plain decimal numeral that fits the opcode's range.
#[verifier::loop_isolation(false)]
pub fn parse_frame(s: &str) -> (r: Result<(u32, String), FrameError>)
    ensures
        match r {
            Ok(p) => {
                &&& find_char(s@, ':') is Some
                &&& {
                    let i = find_char(s@, ':').unwrap();
                    &&& is_u32_numeral(s@.take(i))
                    &&& p.0 as nat == dec_val(s@.take(i))
                    &&& p.1@ == s@.skip(i + 1)
                }
            },
            Err(e) => match e {
                FrameError::MissingSeparator => find_char(s@, ':') is None,
                FrameError::BadOpcode => find_char(s@, ':') is Some && !is_u32_numeral(
                    s@.take(find_char(s@, ':').unwrap()),
                ),
            },
        },
{
    let len = s.unicode_len();
    let mut i: usize = 0;
    while i < len && s.get_char(i) != ':'
        invariant
            i <= len,
            forall|t: int| 0 <= t < i ==> s@[t] != ':',
        decreases len - i,
    {
        i += 1;
    }
    if i == len {
        proof {
            lemma_find_char_none(s@, ':');
        }
        return Err(FrameError::MissingSeparator);
    }
    proof {
        lemma_find_char_at(s@, ':', i as int);
    }
    let head = s.substring_char(0, i);
    assert(head@ =~= s@.take(i as int));
    let opcode = match parse_u32(head) {
        Some(v) => v,
        None => {
            return Err(FrameError::BadOpcode);
        },
    };
    let payload = s.substring_char(i + 1, len).to_owned();
    assert(payload@ =~= s@.skip(i + 1));
    Ok((opcode, payload))
}

/// The registry after the payload's new-game flag has been honoured.
pub open spec fn after_new_game(m: Map<u32, Seq<Seq<char>>>, data: UserData) -> Map<
    u32,
    Seq<Seq<char>>,
> {
    if data.new_game {
        m.insert(data.user_id, fresh_board())
    } else {
        m
    }
}

/// The board answer for a user: its JSON form, or `NotFound` when the user
/// has no board.
pub open spec fn serialize_of(m: Map<u32, Seq<Seq<char>>>, user_id: u32) -> Result<
    Seq<char>,
    GameError,
> {
    if m.contains_key(user_id) {
        Ok(json_grid(m[user_id]))
    } else {
        Err(GameError::NotFound)
    }
}

/// The registry after the machine's counter-move for a user: the first cell
/// among 0 to 7 still holding its own digit takes the machine's mark; with
/// none free, or no board, nothing changes.
pub open spec fn machine_of(m: Map<u32, Seq<Seq<char>>>, user_id: u32) -> Map<
    u32,
    Seq<Seq<char>>,
> {
    if !m.contains_key(user_id) {
        m
    } else {
        match TicTacGame::first_free_from(m[user_id], 0) {
            None => m,
            Some(p) => m.insert(user_id, board_with(m[user_id], p, 'O')),
        }
    }
}

/// What one wire request does: the registry it leaves behind and the answer
/// it sends. A new game is created first when asked. Opcode 1 only reads the
/// board. Any other opcode plays the human mark on the requested cell and,
/// only when that move was accepted, lets the machine answer; either way the
/// user's board (or `NotFound`) is the reply.
pub open spec fn process_spec(m0: Map<u32, Seq<Seq<char>>>, opcode: u32, data: UserData) -> (
    Map<u32, Seq<Seq<char>>>,
    Result<Seq<char>, GameError>,
) {
    let m1 = after_new_game(m0, data);
    if opcode == 1 {
        (m1, serialize_of(m1, data.user_id))
    } else {
        match apply_move_spec(m1, data.user_id, data.move_to, 'X') {
            Err(_) => (m1, serialize_of(m1, data.user_id)),
            Ok(m2) => {
                let m3 = machine_of(m2, data.user_id);
                (m3, serialize_of(m3, data.user_id))
            },
        }
    }
}

/// One wire request for one user never touches another user's board: the
/// registry's lock serializes concurrent requests, and each serialized
/// request leaves every other user's board, present or absent, exactly as it
/// was, so each user's board reflects only its own moves.
pub proof fn lemma_request_isolation(
    m: Map<u32, Seq<Seq<char>>>,
    opcode: u32,
    data: UserData,
    other: u32,
)
    requires
        other != data.user_id,
    ensures
        ({
            let m2 = process_spec(m, opcode, data).0;
            &&& m2.contains_key(other) == m.contains_key(other)
            &&& m.contains_key(other) ==> m2[other] == m[other]
        }),
{
}

/// Carries out one wire request on the registry: exactly [`process_spec`].
pub fn process_request(game: &mut TicTacGame, opcode: u32, data: &UserData) -> (r: Result<
    String,
    GameError,
>)
    requires
        old(game).wf(),
    ensures
        final(game).wf(),
        final(game)@ == process_spec(old(game)@, opcode, *data).0,
        match r {
            Ok(s) => process_spec(old(game)@, opcode, *data).1 == Ok::<Seq<char>, GameError>(s@),
            Err(e) => process_spec(old(game)@, opcode, *data).1 == Err::<Seq<char>, GameError>(e),
        },
{
    if data.new_game {
        game.new_game(data.user_id);
    }
    if opcode == 1 {
        return game.get_serialized(data.user_id);
    }
    match game.apply_move(data.user_id, data.move_to, 'X') {
        Ok(_) => {
            game.machine_move(data.user_id);
        },
        Err(_) => (),
    }
    game.get_serialized(data.user_id)
}

} // verus!
