use vstd::prelude::*;
use rand::rngs::ThreadRng;
use crate::board::{Board, Direction, calculate_board_fullness};
use crate::game::{Game, GameMove, GameOutcome, direction_of};
use crate::piece::{PieceType, Player};
use crate::rng::{gen_range, gen_ratio, thread_rng};
use crate::road::adjacent;
use crate::stack::{seq_blocking, seq_controller};

verus! {

/// (`a`) comes before (`b`) in row-major order.
pub open spec fn row_major_before(a: (usize, usize), b: (usize, usize)) -> bool {
    a.0 < b.0 || (a.0 == b.0 && a.1 < b.1)
}

/// `p` owns the top stone of (`r`, `c`).
pub open spec fn controls(board: Board, r: int, c: int, p: Player) -> bool {
    board.cell(r, c).len() > 0 && seq_controller(board.cell(r, c)) == Some(p)
}

/// The squares next to (`r`, `c`) that a stack may move onto, with the
/// direction of each: north, south, east, west, each when it is on the
/// board and has no capstone on top.
pub open spec fn neighbour_list(board: Board, r: int, c: int) -> Seq<(usize, usize, Direction)> {
    let north = if r > 0 && !seq_blocking(board.cell(r - 1, c)) {
        seq![((r - 1) as usize, c as usize, Direction::North)]
    } else {
        Seq::empty()
    };
    let south = if r + 1 < board.size && !seq_blocking(board.cell(r + 1, c)) {
        seq![((r + 1) as usize, c as usize, Direction::South)]
    } else {
        Seq::empty()
    };
    let east = if c + 1 < board.size && !seq_blocking(board.cell(r, c + 1)) {
        seq![(r as usize, (c + 1) as usize, Direction::East)]
    } else {
        Seq::empty()
    };
    let west = if c > 0 && !seq_blocking(board.cell(r, c - 1)) {
        seq![(r as usize, (c - 1) as usize, Direction::West)]
    } else {
        Seq::empty()
    };
    north + south + east + west
}

/// The squares whose top stone `player` owns, in row-major order.
pub fn controlled_stacks(board: &Board, player: Player) -> (v: Vec<(usize, usize)>)
    requires
        board.wf(),
    ensures
        forall|i: int| 0 <= i < v@.len() ==> board.in_bounds(#[trigger] v@[i].0 as int, v@[i].1 as int)
            && controls(*board, v@[i].0 as int, v@[i].1 as int, player),
        forall|r: int, c: int| board.in_bounds(r, c) && #[trigger] controls(*board, r, c, player)
            ==> v@.contains((r as usize, c as usize)),
        forall|i: int, j: int| 0 <= i < j < v@.len() ==> row_major_before(#[trigger] v@[i], #[trigger] v@[j]),
{
    let n = board.size;
    let mut v: Vec<(usize, usize)> = Vec::new();
    let mut row: usize = 0;
    while row < n
        invariant
            board.wf(),
            n == board.size,
            row <= n,
            forall|i: int| 0 <= i < v@.len() ==> board.in_bounds(#[trigger] v@[i].0 as int, v@[i].1 as int)
                && controls(*board, v@[i].0 as int, v@[i].1 as int, player) && v@[i].0 < row,
            forall|r: int, c: int| 0 <= r < row && 0 <= c < n && #[trigger] controls(*board, r, c, player)
                ==> v@.contains((r as usize, c as usize)),
            forall|i: int, j: int| 0 <= i < j < v@.len() ==> row_major_before(#[trigger] v@[i], #[trigger] v@[j]),
        decreases n - row,
    {
        let mut col: usize = 0;
        while col < n
            invariant
                board.wf(),
                n == board.size,
                row < n,
                col <= n,
                forall|i: int| 0 <= i < v@.len() ==> board.in_bounds(#[trigger] v@[i].0 as int, v@[i].1 as int)
                    && controls(*board, v@[i].0 as int, v@[i].1 as int, player)
                    && row_major_before(v@[i], (row, col)),
                forall|r: int, c: int| 0 <= r < n && 0 <= c < n && row_major_before((r as usize, c as usize), (row, col))
                    && #[trigger] controls(*board, r, c, player) ==> v@.contains((r as usize, c as usize)),
                forall|i: int, j: int| 0 <= i < j < v@.len() ==> row_major_before(#[trigger] v@[i], #[trigger] v@[j]),
            decreases n - col,
        {
            let stack = &board.spaces[row][col];
            let owned = if stack.is_empty() {
                false
            } else {
                match stack.controller() {
                    Some(p) => p == player,
                    None => false,
                }
            };
            if owned {
                let ghost before = v@;
                v.push((row, col));
                assert forall|r: int, c: int| 0 <= r < n && 0 <= c < n
                    && row_major_before((r as usize, c as usize), (row, (col + 1) as usize))
                    && #[trigger] controls(*board, r, c, player) implies v@.contains((r as usize, c as usize)) by {
                    if r == row && c == col {
                        assert(v@[v@.len() - 1] == (r as usize, c as usize));
                    } else {
                        assert(before.contains((r as usize, c as usize)));
                        let k = choose|k: int| 0 <= k < before.len() && before[k] == (r as usize, c as usize);
                        assert(v@[k] == before[k]);
                    }
                }
            } else {
                assert(!controls(*board, row as int, col as int, player));
            }
            col = col + 1;
        }
        row = row + 1;
    }
    v
}

/// The first empty square in row-major order, or `None` when the board is full.
pub fn first_empty(board: &Board) -> (o: Option<(usize, usize)>)
    requires
        board.wf(),
    ensures
        o is None <==> board.full(),
        o matches Some(p) ==> board.in_bounds(p.0 as int, p.1 as int) && board.cell(p.0 as int, p.1 as int).len() == 0
            && forall|r: int, c: int| board.in_bounds(r, c) && row_major_before((r as usize, c as usize), p)
                ==> (#[trigger] board.cell(r, c)).len() > 0,
{
    let n = board.size;
    let mut row: usize = 0;
    while row < n
        invariant
            board.wf(),
            n == board.size,
            row <= n,
            forall|r: int, c: int| 0 <= r < row && 0 <= c < n ==> (#[trigger] board.cell(r, c)).len() > 0,
        decreases n - row,
    {
        let mut col: usize = 0;
        while col < n
            invariant
                board.wf(),
                n == board.size,
                row < n,
                col <= n,
                forall|r: int, c: int| 0 <= r < row && 0 <= c < n ==> (#[trigger] board.cell(r, c)).len() > 0,
                forall|c: int| 0 <= c < col ==> (#[trigger] board.cell(row as int, c)).len() > 0,
            decreases n - col,
        {
            if board.spaces[row][col].is_empty() {
                assert(board.in_bounds(row as int, col as int) && board.cell(row as int, col as int).len() == 0);
                return Some((row, col));
            }
            col = col + 1;
        }
        row = row + 1;
    }
    None
}

/// Every entry of the neighbour list is a square on the board without a
/// capstone, one step away in the direction it is listed with.
pub proof fn lemma_neighbour_list_sound(board: Board, r: int, c: int)
    requires
        board.wf(),
        board.in_bounds(r, c),
    ensures
        forall|i: int| 0 <= i < neighbour_list(board, r, c).len() ==> ({
            let (tr, tc, d) = #[trigger] neighbour_list(board, r, c)[i];
            &&& board.in_bounds(tr as int, tc as int)
            &&& !seq_blocking(board.cell(tr as int, tc as int))
            &&& direction_of(r, c, tr as int, tc as int) == d
            &&& Board::direction_ok(r, c, tr as int, tc as int, d)
        }),
{
    let north = if r > 0 && !seq_blocking(board.cell(r - 1, c)) {
        seq![((r - 1) as usize, c as usize, Direction::North)]
    } else {
        Seq::empty()
    };
    let south = if r + 1 < board.size && !seq_blocking(board.cell(r + 1, c)) {
        seq![((r + 1) as usize, c as usize, Direction::South)]
    } else {
        Seq::empty()
    };
    let east = if c + 1 < board.size && !seq_blocking(board.cell(r, c + 1)) {
        seq![(r as usize, (c + 1) as usize, Direction::East)]
    } else {
        Seq::empty()
    };
    let west = if c > 0 && !seq_blocking(board.cell(r, c - 1)) {
        seq![(r as usize, (c - 1) as usize, Direction::West)]
    } else {
        Seq::empty()
    };
    let all = neighbour_list(board, r, c);
    assert(all == north + south + east + west);
    assert forall|i: int| 0 <= i < all.len() implies ({
        let (tr, tc, d) = #[trigger] all[i];
        &&& board.in_bounds(tr as int, tc as int)
        &&& !seq_blocking(board.cell(tr as int, tc as int))
        &&& direction_of(r, c, tr as int, tc as int) == d
        &&& Board::direction_ok(r, c, tr as int, tc as int, d)
    }) by {
        let ns = north + south;
        let nse = ns + east;
        if i < north.len() {
            assert(all[i] == north[i]);
        } else if i < ns.len() {
            assert(all[i] == south[i - north.len()]);
        } else if i < nse.len() {
            assert(all[i] == east[i - ns.len()]);
        } else {
            assert(all[i] == west[i - nse.len()]);
        }
    }
}

/// The squares next to (`row`, `col`) that a stack may move onto, with the
/// direction of each, in the order north, south, east, west.
pub fn open_neighbours(board: &Board, row: usize, col: usize) -> (v: Vec<(usize, usize, Direction)>)
    requires
        board.wf(),
        board.in_bounds(row as int, col as int),
    ensures
        v@ == neighbour_list(*board, row as int, col as int),
        forall|i: int| 0 <= i < v@.len() ==> ({
            let (tr, tc, d) = #[trigger] v@[i];
            &&& board.in_bounds(tr as int, tc as int)
            &&& !seq_blocking(board.cell(tr as int, tc as int))
            &&& direction_of(row as int, col as int, tr as int, tc as int) == d
            &&& Board::direction_ok(row as int, col as int, tr as int, tc as int, d)
        }),
{
    let n = board.size;
    let mut v: Vec<(usize, usize, Direction)> = Vec::new();
    if row > 0 && !board.spaces[row - 1][col].is_blocking() {
        v.push((row - 1, col, Direction::North));
    }
    let ghost after_north = v@;
    if row + 1 < n && !board.spaces[row + 1][col].is_blocking() {
        v.push((row + 1, col, Direction::South));
    }
    let ghost after_south = v@;
    if col + 1 < n && !board.spaces[row][col + 1].is_blocking() {
        v.push((row, col + 1, Direction::East));
    }
    let ghost after_east = v@;
    if col > 0 && !board.spaces[row][col - 1].is_blocking() {
        v.push((row, col - 1, Direction::West));
    }
    proof {
        let r = row as int;
        let c = col as int;
        let north = if r > 0 && !seq_blocking(board.cell(r - 1, c)) {
            seq![((r - 1) as usize, c as usize, Direction::North)]
        } else {
            Seq::empty()
        };
        let south = if r + 1 < board.size && !seq_blocking(board.cell(r + 1, c)) {
            seq![((r + 1) as usize, c as usize, Direction::South)]
        } else {
            Seq::empty()
        };
        let east = if c + 1 < board.size && !seq_blocking(board.cell(r, c + 1)) {
            seq![(r as usize, (c + 1) as usize, Direction::East)]
        } else {
            Seq::empty()
        };
        let west = if c > 0 && !seq_blocking(board.cell(r, c - 1)) {
            seq![(r as usize, (c - 1) as usize, Direction::West)]
        } else {
            Seq::empty()
        };
        assert(after_north =~= north);
        assert(after_south =~= north + south);
        assert(after_east =~= north + south + east);
        assert(v@ =~= north + south + east + west);
        lemma_neighbour_list_sound(*board, r, c);
    }
    v
}

/// Picks one element of `v` at random, or `None` when `v` is empty.
pub fn choose_from<'a, T>(v: &'a Vec<T>, rng: &mut ThreadRng) -> (o: Option<&'a T>)
    ensures
        o is None <==> v@.len() == 0,
        o matches Some(x) ==> exists|i: int| 0 <= i < v@.len() && v@[i] == *x,
{
    if v.len() == 0 {
        None
    } else {
        let i = gen_range(rng, 0, v.len() - 1);
        Some(&v[i])
    }
}

/// A computer opponent of a given strength: 1 (easiest) to 3.
pub struct AIPlayer {
    pub player: Player,
    pub difficulty: usize,
}

/// The computer opponent for `player` is bound to move a stack in `game`:
/// the opening is over, the board is at least 70% full, and `player` owns a
/// stack and every stack it owns has a square it may move onto.
pub open spec fn must_move_stack(game: Game, player: Player) -> bool {
    let board = game.board;
    &&& game.turn_number > 2
    &&& 10 * board.occupied_count() >= 7 * (board.size * board.size)
    &&& exists|r: int, c: int| board.in_bounds(r, c) && #[trigger] controls(board, r, c, player)
    &&& forall|r: int, c: int| board.in_bounds(r, c) && #[trigger] controls(board, r, c, player)
        ==> neighbour_list(board, r, c).len() > 0
}

/// What holds of any move the computer opponent proposes for `player` in `game`.
pub open spec fn sound_ai_move(game: Game, player: Player, m: GameMove) -> bool {
    let board = game.board;
    match m {
        GameMove::Place { row, col, piece_type } => {
            &&& board.size > 0 ==> board.in_bounds(row as int, col as int)
            &&& !board.full() ==> board.cell(row as int, col as int).len() == 0
            &&& piece_type != PieceType::Standing
            &&& piece_type == PieceType::Capstone ==> player == game.current_player
                && board.caps_left(player) > 0 && game.turn_number > 2
        },
        GameMove::Move { from_row, from_col, to_row, to_col, count } => {
            &&& game.turn_number > 2
            &&& controls(board, from_row as int, from_col as int, player)
            &&& adjacent((from_row as int, from_col as int), (to_row as int, to_col as int))
            &&& !seq_blocking(board.cell(to_row as int, to_col as int))
            &&& count <= board.cell(from_row as int, from_col as int).len()
            &&& count <= board.size
            &&& count >= 1
            &&& board.move_refusal(player, m) is None
        },
    }
}

impl AIPlayer {
    /// An opponent for `player`, its difficulty clamped to 1..=3.
    pub fn new(player: Player, difficulty: usize) -> (a: Self)
        ensures
            a.player == player,
            a.difficulty == (if difficulty < 1 { 1 } else if difficulty > 3 { 3 } else { difficulty }),
    {
        let d = if difficulty < 1 {
            1
        } else if difficulty > 3 {
            3
        } else {
            difficulty
        };
        AIPlayer { player, difficulty: d }
    }

    /// How full the board is, as (occupied squares, all squares).
    pub fn calculate_board_fullness(&self, board: &Board) -> (f: (usize, usize))
        requires
            board.wf(),
            board.size * board.size <= usize::MAX,
        ensures
            f.0 == board.occupied_count(),
            f.1 == board.size * board.size,
    {
        calculate_board_fullness(board)
    }

    /// Proposes a move at random: mostly a placement (always in the first
    /// two turns), otherwise a move of one of its own stacks. Whatever comes
    /// out of the random draws, a placement is on the board and on an empty
    /// square whenever there is one, never a standing stone, a capstone only
    /// when one is in hand after the opening; a stack move takes one of its
    /// own stacks to a square beside it, and is one the board accepts. Once
    /// the board is at least 70% full after the opening it always moves a
    /// stack, when it owns one and each stack it owns has a square to go to.
    pub fn choose_move(&self, game: &Game) -> (m: GameMove)
        requires
            game.board.wf(),
            game.board.size > 0 || game.turn_number > 2,
            game.board.size * game.board.size <= usize::MAX,
        ensures
            sound_ai_move(*game, self.player, m),
            game.turn_number <= 2 ==> m is Place,
            must_move_stack(*game, self.player) ==> m is Move,
    {
        let mut rng = thread_rng();
        let opening_phase = game.turn_number <= 2;
        let board_size = game.board.size;
        let (occupied, total) = self.calculate_board_fullness(&game.board);
        let prefer_placement = gen_ratio(&mut rng, 4, 5) && (occupied as u128) * 10 < (total as u128) * 7;
        proof {
            if must_move_stack(*game, self.player) {
                assert(!prefer_placement);
            }
            if board_size == 0 {
                assert(board_size * board_size == 0) by (nonlinear_arith)
                    requires
                        board_size == 0,
                ;
                assert(!prefer_placement);
            }
        }
        if opening_phase || prefer_placement {
            let piece_type = if self.player == game.current_player && gen_ratio(&mut rng, 1, 10)
                && game.board.remaining_pieces(self.player).1 > 0 && !opening_phase {
                PieceType::Capstone
            } else {
                PieceType::Flat
            };
            if self.difficulty >= 2 && gen_ratio(&mut rng, 7, 10) {
                let center = board_size / 2;
                let range: usize = if board_size >= 5 { 2 } else { 1 };
                let mut attempt: usize = 0;
                while attempt < 5
                    invariant
                        game.board.wf(),
                        board_size == game.board.size,
                        board_size > 0,
                        center == board_size / 2,
                        range <= 2,
                        !must_move_stack(*game, self.player),
                        piece_type != PieceType::Standing,
                    piece_type == PieceType::Capstone ==> self.player == game.current_player
                            && game.board.caps_left(self.player) > 0 && game.turn_number > 2,
                    decreases 5 - attempt,
                {
                    let min_row = if center > range { center - range } else { 0 };
                    let max_row = if center + range < board_size - 1 { center + range } else { board_size - 1 };
                    let min_col = if center > range { center - range } else { 0 };
                    let max_col = if center + range < board_size - 1 { center + range } else { board_size - 1 };
                    let row = gen_range(&mut rng, min_row, max_row);
                    let col = gen_range(&mut rng, min_col, max_col);
                    if game.board.spaces[row][col].is_empty() {
                        return GameMove::Place { row, col, piece_type };
                    }
                    attempt = attempt + 1;
                }
            }
            let mut attempt: usize = 0;
            while attempt < 20
                invariant
                    game.board.wf(),
                    board_size == game.board.size,
                    board_size > 0,
                    !must_move_stack(*game, self.player),
                    piece_type != PieceType::Standing,
                    piece_type == PieceType::Capstone ==> self.player == game.current_player
                        && game.board.caps_left(self.player) > 0 && game.turn_number > 2,
                decreases 20 - attempt,
            {
                let row = gen_range(&mut rng, 0, board_size - 1);
                let col = gen_range(&mut rng, 0, board_size - 1);
                if game.board.spaces[row][col].is_empty() {
                    return GameMove::Place { row, col, piece_type };
                }
                attempt = attempt + 1;
            }
            if let Some((row, col)) = first_empty(&game.board) {
                return GameMove::Place { row, col, piece_type };
            }
            let row = gen_range(&mut rng, 0, board_size - 1);
            let col = gen_range(&mut rng, 0, board_size - 1);
            return GameMove::Place { row, col, piece_type };
        } else {
            let controlled = controlled_stacks(&game.board, self.player);
            proof {
                if must_move_stack(*game, self.player) {
                    let (r, c) = choose|r: int, c: int| game.board.in_bounds(r, c) && #[trigger] controls(game.board, r, c, self.player);
                    assert(controlled@.contains((r as usize, c as usize)));
                }
            }
            if controlled.len() == 0 {
                if let Some((row, col)) = first_empty(&game.board) {
                    return GameMove::Place { row, col, piece_type: PieceType::Flat };
                }
            }
            if let Some(source) = choose_from(&controlled, &mut rng) {
                let from_row = source.0;
                let from_col = source.1;
                let stack_height = game.board.height_at(from_row, from_col);
                let count = if stack_height > 1 {
                    let most = if stack_height < board_size { stack_height } else { board_size };
                    gen_range(&mut rng, 1, most)
                } else {
                    1
                };
                let neighbours = open_neighbours(&game.board, from_row, from_col);
                proof {
                    if must_move_stack(*game, self.player) {
                        assert(controls(game.board, from_row as int, from_col as int, self.player));
                        assert(neighbours@.len() > 0);
                    }
                }
                if let Some(target) = choose_from(&neighbours, &mut rng) {
                    let to_row = target.0;
                    let to_col = target.1;
                    return GameMove::Move { from_row, from_col, to_row, to_col, count };
                }
            }
            if let Some((row, col)) = first_empty(&game.board) {
                return GameMove::Place { row, col, piece_type: PieceType::Flat };
            }
            return GameMove::Place { row: 0, col: 0, piece_type: PieceType::Flat };
        }
    }
}

impl Game {
    /// A move to suggest to the side to move when it asks for a hint: what
    /// a computer opponent of the highest difficulty proposes for it.
    pub fn suggest_move(&self) -> (m: GameMove)
        requires
            self.board.wf(),
            self.board.size > 0 || self.turn_number > 2,
            self.board.size * self.board.size <= usize::MAX,
        ensures
            sound_ai_move(*self, self.current_player, m),
            self.turn_number <= 2 ==> m is Place,
            must_move_stack(*self, self.current_player) ==> m is Move,
    {
        AIPlayer::new(self.current_player, 3).choose_move(self)
    }
}

/// What happened in one turn of a game between two computer opponents.
pub struct AiTurn {
    /// The side that moved.
    pub mover: Player,
    /// The move its opponent program proposed.
    pub chosen: GameMove,
    /// How the game took that move.
    pub result: Result<(), &'static str>,
    /// When the move was refused: how the game took the stand-in move,
    /// a flat stone on (0, 0).
    pub fallback: Option<Result<(), &'static str>>,
    /// Where the game stands after the turn.
    pub outcome: GameOutcome,
    /// The game stops here: the stand-in move was refused too, someone has
    /// a road, the game is decided on flats, or turn 100 is past.
    pub ends_game: bool,
}

/// The stand-in move when a computer opponent's move is refused.
pub open spec fn stand_in_move() -> GameMove {
    GameMove::Place { row: 0, col: 0, piece_type: PieceType::Flat }
}

impl Game {
    /// Plays one turn between two computer opponents: the side to move
    /// proposes a move; if the game refuses it, a flat stone on (0, 0) is
    /// tried instead. Reports what happened and whether the game stops.
    pub fn play_ai_turn(&mut self, white_ai: &AIPlayer, black_ai: &AIPlayer) -> (t: AiTurn)
        requires
            old(self).board.wf(),
            old(self).board.size > 0 || old(self).turn_number > 2,
            old(self).board.size * old(self).board.size <= usize::MAX,
            old(self).current_player == Player::Black ==> old(self).turn_number < usize::MAX,
        ensures
            t.mover == old(self).current_player,
            sound_ai_move(
                *old(self),
                if t.mover == Player::White { white_ai.player } else { black_ai.player },
                t.chosen,
            ),
            t.result is Ok <==> old(self).board.move_refusal(t.mover, t.chosen) is None,
            t.result matches Err(m) ==> m@ == old(self).board.move_refusal(t.mover, t.chosen)->0,
            t.result is Ok ==> t.fallback is None && final(self).is_turn_played(*old(self), t.chosen),
            t.result is Err ==> (t.fallback matches Some(f) && (f is Ok <==> old(self).board.move_refusal(
                t.mover,
                stand_in_move(),
            ) is None)),
            t.fallback matches Some(Ok(_)) ==> final(self).is_turn_played(*old(self), stand_in_move()),
            t.fallback matches Some(Err(_)) ==> *final(self) == *old(self),
            t.outcome == final(self).board.outcome_of(),
            t.ends_game == (t.fallback matches Some(Err(_)) || t.outcome != GameOutcome::InProgress
                || final(self).turn_number > 100),
            final(self).board.wf(),
    {
        let mover = self.current_player;
        let chosen = match mover {
            Player::White => white_ai.choose_move(self),
            Player::Black => black_ai.choose_move(self),
        };
        let result = self.make_move(chosen);
        let fallback = match result {
            Ok(()) => None,
            Err(_) => Some(self.make_move(GameMove::Place { row: 0, col: 0, piece_type: PieceType::Flat })),
        };
        let outcome = self.board.outcome();
        let fallback_failed = match fallback {
            Some(Err(_)) => true,
            _ => false,
        };
        let ends_game = fallback_failed || outcome != GameOutcome::InProgress || self.turn_number > 100;
        AiTurn { mover, chosen, result, fallback, outcome, ends_game }
    }
}

} // verus!
