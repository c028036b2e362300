//! The game registry and move engine: a mapping from user identifier to a
//! 3x3 board, with board creation, validated moves, the machine's
//! counter-move policy, and the board's JSON serialization. The registry is
//! plain data; the process wraps it in its one lock and passes it into every
//! connection handler.

use vstd::prelude::*;
use crate::strutil::{digit_char, digit_val, is_digit};

verus! {

/// The board a fresh game starts from: every cell holds its own index.
pub open spec fn fresh_board() -> Seq<Seq<char>> {
    seq![seq!['0', '1', '2'], seq!['3', '4', '5'], seq!['6', '7', '8']]
}

/// The characters a cell can hold: its empty-sentinel digit or a mark.
pub open spec fn cell_char(c: char) -> bool {
    is_digit(c) || c == 'X' || c == 'O'
}

/// A well-formed board: three rows of three cells, each a digit or a mark.
pub open spec fn wf_board(bd: Seq<Seq<char>>) -> bool {
    &&& bd.len() == 3
    &&& forall|y: int| 0 <= y < 3 ==> (#[trigger] bd[y]).len() == 3
    &&& forall|y: int, x: int| 0 <= y < 3 && 0 <= x < 3 ==> cell_char(#[trigger] bd[y][x])
}

/// The board with `piece` written into cell `p` (row-major, three columns).
pub open spec fn board_with(bd: Seq<Seq<char>>, p: int, piece: char) -> Seq<Seq<char>> {
    bd.update(p / 3, bd[p / 3].update(p % 3, piece))
}

/// The character grid of an executable board.
pub open spec fn board_view(b: Vec<Vec<char>>) -> Seq<Seq<char>> {
    b@.map_values(|r: Vec<char>| r@)
}

/// How a game call can fail.
#[derive(Clone, Copy, PartialEq, Eq, Structural, Debug)]
pub enum GameError {
    /// No board exists for the user (a state read).
    NotFound,
    /// No board exists for the user (a move).
    NoSuchGame,
    /// The cell reference is not a digit.
    InvalidInput,
    /// The cell is out of range or already occupied.
    IllegalMove,
}

/// What a move does to the registry's mapping: every failure leaves it
/// unchanged, and a move onto a cell still holding its own digit writes the
/// mark there.
pub open spec fn apply_move_spec(
    boards: Map<u32, Seq<Seq<char>>>,
    user_id: u32,
    place: char,
    piece: char,
) -> Result<Map<u32, Seq<Seq<char>>>, GameError> {
    if !boards.contains_key(user_id) {
        Err(GameError::NoSuchGame)
    } else {
        match digit_val(place) {
            None => Err(GameError::InvalidInput),
            Some(p) => {
                if p > 8 {
                    Err(GameError::IllegalMove)
                } else if boards[user_id][p as int / 3][p as int % 3] == place {
                    Ok(boards.insert(user_id, board_with(boards[user_id], p as int, piece)))
                } else {
                    Err(GameError::IllegalMove)
                }
            },
        }
    }
}

/// The registry: every user's board, under one owner. The process shares it
/// behind its single lock; each operation here is one critical section.
pub struct TicTacGame {
    boards: Vec<(u32, Vec<Vec<char>>)>,
}

impl View for TicTacGame {
    type V = Map<u32, Seq<Seq<char>>>;

    closed spec fn view(&self) -> Map<u32, Seq<Seq<char>>> {
        boards_map(self.boards@)
    }
}

/// The mapping an association list of boards denotes.
pub closed spec fn boards_map(s: Seq<(u32, Vec<Vec<char>>)>) -> Map<u32, Seq<Seq<char>>>
    decreases s.len(),
{
    if s.len() == 0 {
        Map::empty()
    } else {
        boards_map(s.drop_last()).insert(s.last().0, board_view(s.last().1))
    }
}

impl TicTacGame {
    /// No two entries share a user, and every stored board is well formed.
    pub closed spec fn wf(&self) -> bool {
        &&& forall|i: int, j: int|
            0 <= i < j < self.boards@.len() ==> self.boards@[i].0 != self.boards@[j].0
        &&& forall|i: int|
            0 <= i < self.boards@.len() ==> wf_board(board_view(#[trigger] self.boards@[i].1))
    }

    /// Every board of the registry is well formed.
    pub proof fn lemma_wf_boards(&self, user_id: u32)
        requires
            self.wf(),
            self@.contains_key(user_id),
        ensures
            wf_board(self@[user_id]),
    {
        lemma_boards_map_covers(self.boards@, user_id);
        lemma_boards_map_keys(self.boards@, user_id);
    }

    /// An empty registry.
    pub fn new() -> (r: TicTacGame)
        ensures
            r@ == Map::<u32, Seq<Seq<char>>>::empty(),
            r.wf(),
    {
        TicTacGame { boards: Vec::new() }
    }

    /// The position of a user's board, if one exists.
    #[verifier::loop_isolation(false)]
    fn find_index(&self, user_id: u32) -> (r: Option<usize>)
        requires
            self.wf(),
        ensures
            match r {
                Some(i) => {
                    &&& i < self.boards@.len()
                    &&& self.boards@[i as int].0 == user_id
                    &&& self@.contains_key(user_id)
                    &&& self@[user_id] == board_view(self.boards@[i as int].1)
                },
                None => !self@.contains_key(user_id) && forall|j: int|
                    0 <= j < self.boards@.len() ==> self.boards@[j].0 != user_id,
            },
    {
        let n = self.boards.len();
        let mut i: usize = 0;
        while i < n
            invariant
                i <= n,
                forall|j: int| 0 <= j < i ==> self.boards@[j].0 != user_id,
            decreases n - i,
        {
            if self.boards[i].0 == user_id {
                proof {
                    lemma_boards_map_keys(self.boards@, user_id);
                }
                return Some(i);
            }
            i += 1;
        }
        proof {
            lemma_boards_map_missing(self.boards@, user_id);
        }
        None
    }

    /// (Re)creates the user's board in the canonical numbered layout,
    /// discarding any board it had. Always succeeds.
    pub fn new_game(&mut self, user_id: u32)
        requires
            old(self).wf(),
        ensures
            final(self)@ == old(self)@.insert(user_id, fresh_board()),
            final(self).wf(),
    {
        let board = make_fresh_board();
        proof {
            assert(wf_board(fresh_board()));
        }
        let ghost before = self.boards@;
        match self.find_index(user_id) {
            Some(i) => {
                proof {
                    lemma_boards_map_update(self.boards@, i as int, board);
                }
                self.boards[i] = (user_id, board);
                proof {
                    assert(self.boards@ =~= before.update(i as int, (user_id, board)));
                    assert forall|j: int| 0 <= j < self.boards@.len() implies wf_board(
                        board_view(#[trigger] self.boards@[j].1),
                    ) by {
                        if j != i {
                            assert(self.boards@[j] == before[j]);
                        }
                    }
                }
            },
            None => {
                proof {
                    assert(self.boards@.push((user_id, board)).drop_last() =~= self.boards@);
                }
                self.boards.push((user_id, board));
                proof {
                    assert forall|j: int| 0 <= j < self.boards@.len() implies wf_board(
                        board_view(#[trigger] self.boards@[j].1),
                    ) by {
                        if j < before.len() {
                            assert(self.boards@[j] == before[j]);
                        }
                    }
                }
            },
        }
    }

    /// Validates and applies one move: the cell reference must be a digit,
    /// in range, and name a cell still holding its own digit; then the mark
    /// is written there. Exactly [`apply_move_spec`] happens to the mapping.
    pub fn apply_move(&mut self, user_id: u32, place: char, piece: char) -> (r: Result<
        bool,
        GameError,
    >)
        requires
            old(self).wf(),
            piece == 'X' || piece == 'O',
        ensures
            final(self).wf(),
            match r {
                Ok(b) => b && apply_move_spec(old(self)@, user_id, place, piece) == Ok::<
                    _,
                    GameError,
                >(final(self)@),
                Err(e) => apply_move_spec(old(self)@, user_id, place, piece) == Err::<
                    Map<u32, Seq<Seq<char>>>,
                    _,
                >(e) && final(self)@ == old(self)@,
            },
    {
        let i = match self.find_index(user_id) {
            Some(i) => i,
            None => {
                return Err(GameError::NoSuchGame);
            },
        };
        let p: u32 = match crate::strutil::exec_digit_of(place) {
            Some(d) => d,
            None => {
                return Err(GameError::InvalidInput);
            },
        };
        if p > 8 {
            return Err(GameError::IllegalMove);
        }
        let x = (p % 3) as usize;
        let y = (p / 3) as usize;
        proof {
            lemma_boards_map_keys(self.boards@, user_id);
            assert(wf_board(board_view(self.boards@[i as int].1)));
            assert(board_view(self.boards@[i as int].1)[y as int].len() == 3);
        }
        let pos = self.boards[i].1[y][x];
        if pos == place {
            let ghost before = self.boards@;
            let ghost oldboard = board_view(self.boards@[i as int].1);
            self.boards[i].1[y][x] = piece;
            proof {
                let newboard = board_view(self.boards@[i as int].1);
                assert(newboard =~= board_with(oldboard, p as int, piece));
                assert(self.boards@ =~= before.update(
                    i as int,
                    (user_id, self.boards@[i as int].1),
                ));
                lemma_boards_map_update(before, i as int, self.boards@[i as int].1);
            }
            Ok(true)
        } else {
            Err(GameError::IllegalMove)
        }
    }

    /// The user's board in its JSON form, or `NotFound` when the user has no
    /// board.
    pub fn get_serialized(&self, user_id: u32) -> (r: Result<String, GameError>)
        requires
            self.wf(),
        ensures
            match r {
                Ok(s) => self@.contains_key(user_id) && s@ == json_grid(self@[user_id]),
                Err(e) => e == GameError::NotFound && !self@.contains_key(user_id),
            },
    {
        match self.find_index(user_id) {
            Some(i) => {
                proof {
                    let b = self.boards@[i as int].1;
                    assert(wf_board(board_view(b)));
                    assert forall|y: int, x: int|
                        0 <= y < b@.len() && 0 <= x < b@[y]@.len() implies json_plain_char(
                        #[trigger] b@[y]@[x],
                    ) by {
                        assert(board_view(b)[y] == b@[y]@);
                        assert(cell_char(b@[y]@[x]));
                    }
                }
                Ok(encode_grid(&self.boards[i].1))
            },
            None => Err(GameError::NotFound),
        }
    }

    /// The lowest cell among 0 to 7 that still holds its own digit, from
    /// `from` up.
    pub open spec fn first_free_from(bd: Seq<Seq<char>>, from: int) -> Option<int>
        decreases 8 - from,
    {
        if from < 0 || from >= 8 {
            None
        } else if bd[from / 3][from % 3] == digit_char(from as nat) {
            Some(from)
        } else {
            Self::first_free_from(bd, from + 1)
        }
    }

    /// The machine's counter-move: it tries cells 0 through 7 in ascending
    /// order with its mark and keeps the first that is still free; cell 8 is
    /// never taken, and a board with no free cell among those is left alone,
    /// as is a user with no board.
    #[verifier::loop_isolation(false)]
    pub fn machine_move(&mut self, user_id: u32)
        requires
            old(self).wf(),
        ensures
            final(self).wf(),
            !old(self)@.contains_key(user_id) ==> final(self)@ == old(self)@,
            old(self)@.contains_key(user_id) ==> match Self::first_free_from(
                old(self)@[user_id],
                0,
            ) {
                None => final(self)@ == old(self)@,
                Some(p) => final(self)@ == old(self)@.insert(
                    user_id,
                    board_with(old(self)@[user_id], p, 'O'),
                ),
            },
    {
        let mut cpu: u32 = 0;
        while cpu < 8
            invariant
                cpu <= 8,
                self.wf(),
                self@ == old(self)@,
                old(self)@.contains_key(user_id) ==> Self::first_free_from(
                    old(self)@[user_id],
                    0,
                ) == Self::first_free_from(old(self)@[user_id], cpu as int),
            decreases 8 - cpu,
        {
            let ch = crate::strutil::char_of_digit(cpu);
            match self.apply_move(user_id, ch, 'O') {
                Ok(_) => {
                    return;
                },
                Err(_) => (),
            }
            cpu += 1;
        }
    }
}

/// A 3x3 character grid as the wire protocol ships it.
pub struct Grid {
    data: Vec<Vec<char>>,
}

fn make_fresh_board() -> (r: Vec<Vec<char>>)
    ensures
        board_view(r) == fresh_board(),
{
    let r = vec![vec!['0', '1', '2'], vec!['3', '4', '5'], vec!['6', '7', '8']];
    assert(board_view(r) =~= fresh_board());
    r
}

proof fn lemma_boards_map_keys(s: Seq<(u32, Vec<Vec<char>>)>, user_id: u32)
    requires
        forall|i: int, j: int| 0 <= i < j < s.len() ==> s[i].0 != s[j].0,
        exists|i: int| 0 <= i < s.len() && s[i].0 == user_id,
    ensures
        boards_map(s).contains_key(user_id),
        forall|i: int|
            0 <= i < s.len() && s[i].0 == user_id ==> boards_map(s)[user_id] == board_view(
                s[i].1,
            ),
    decreases s.len(),
{
    let i0 = choose|i0: int| 0 <= i0 < s.len() && s[i0].0 == user_id;
    if i0 < s.len() - 1 {
        assert(s.drop_last()[i0] == s[i0]);
        assert(exists|j: int| 0 <= j < s.drop_last().len() && s.drop_last()[j].0 == user_id);
        lemma_boards_map_keys(s.drop_last(), user_id);
    }
}

proof fn lemma_boards_map_covers(s: Seq<(u32, Vec<Vec<char>>)>, user_id: u32)
    requires
        boards_map(s).contains_key(user_id),
    ensures
        exists|i: int| 0 <= i < s.len() && s[i].0 == user_id,
    decreases s.len(),
{
    if s.len() > 0 && s.last().0 != user_id {
        lemma_boards_map_covers(s.drop_last(), user_id);
        let i0 = choose|i0: int|
            0 <= i0 < s.drop_last().len() && s.drop_last()[i0].0 == user_id;
        assert(s[i0].0 == user_id);
    }
}

proof fn lemma_boards_map_missing(s: Seq<(u32, Vec<Vec<char>>)>, user_id: u32)
    requires
        forall|i: int| 0 <= i < s.len() ==> s[i].0 != user_id,
    ensures
        !boards_map(s).contains_key(user_id),
    decreases s.len(),
{
    if s.len() > 0 {
        lemma_boards_map_missing(s.drop_last(), user_id);
    }
}

proof fn lemma_boards_map_update(s: Seq<(u32, Vec<Vec<char>>)>, i: int, b: Vec<Vec<char>>)
    requires
        0 <= i < s.len(),
        forall|x: int, j: int| 0 <= x < j < s.len() ==> s[x].0 != s[j].0,
    ensures
        boards_map(s.update(i, (s[i].0, b))) == boards_map(s).insert(s[i].0, board_view(b)),
    decreases s.len(),
{
    let t = s.update(i, (s[i].0, b));
    if i == s.len() - 1 {
        assert(t.drop_last() =~= s.drop_last());
        assert(t.last() == (s[i].0, b));
    } else {
        lemma_boards_map_update(s.drop_last(), i, b);
        assert(t.drop_last() =~= s.drop_last().update(i, (s[i].0, b)));
        assert(t.last() == s.last());
        assert(s[i].0 != s.last().0);
        assert(boards_map(s.drop_last()).insert(s[i].0, board_view(b)).insert(
            s.last().0,
            board_view(s.last().1),
        ) =~= boards_map(s.drop_last()).insert(s.last().0, board_view(s.last().1)).insert(
            s[i].0,
            board_view(b),
        ));
    }
}

/// One JSON-encoded cell: the character in double quotes.
pub open spec fn json_cell(c: char) -> Seq<char> {
    seq!['"', c, '"']
}

/// The comma-separated JSON cells of one row.
pub open spec fn json_cells(r: Seq<char>) -> Seq<char>
    decreases r.len(),
{
    if r.len() == 0 {
        Seq::empty()
    } else if r.len() == 1 {
        json_cell(r[0])
    } else {
        json_cells(r.drop_last()) + seq![','] + json_cell(r.last())
    }
}

/// One row as a JSON array of one-character strings.
pub open spec fn json_row(r: Seq<char>) -> Seq<char> {
    seq!['['] + json_cells(r) + seq![']']
}

/// The comma-separated JSON rows of a grid.
pub open spec fn json_rows(g: Seq<Seq<char>>) -> Seq<char>
    decreases g.len(),
{
    if g.len() == 0 {
        Seq::empty()
    } else if g.len() == 1 {
        json_row(g[0])
    } else {
        json_rows(g.drop_last()) + seq![','] + json_row(g.last())
    }
}

/// A grid as a JSON array of arrays of one-character strings, compactly
/// (no added whitespace).
pub open spec fn json_grid(g: Seq<Seq<char>>) -> Seq<char> {
    seq!['['] + json_rows(g) + seq![']']
}

/// A character the JSON string encoder passes through unchanged: not a
/// quote, not a backslash, not a control character.
pub open spec fn json_plain_char(c: char) -> bool {
    c != '"' && c != '\\' && c as u32 >= 0x20 && c as u32 != 0x7f
}

/// Relies on rustc_serialize's `json::encode` in its compact form: a
/// `Vec<Vec<char>>` encodes as a JSON array of arrays, each character as a
/// one-character string, characters outside the encoder's escape table
/// passing through unchanged. Encoding such a value into a string cannot
/// fail, so the error arm is never taken.
#[verifier::external_body]
fn encode_grid(b: &Vec<Vec<char>>) -> (r: String)
    requires
        forall|y: int, x: int|
            0 <= y < b@.len() && 0 <= x < b@[y]@.len() ==> json_plain_char(#[trigger] b@[y]@[x]),
    ensures
        r@ == json_grid(board_view(*b)),
{
    match rustc_serialize::json::encode(b) {
        Ok(s) => s,
        Err(_) => String::new(),
    }
}

} // verus!
