use vstd::prelude::*;
use crate::piece::{Piece, PieceType, Player, other_player};
use crate::board::{Board, Direction};

verus! {

/// A turn: put a new stone on an empty square, or move the top stones of a
/// stack onto a neighbouring square.
#[derive(Clone, Copy, PartialEq, Eq, Structural, Debug)]
pub enum GameMove {
    Place { row: usize, col: usize, piece_type: PieceType },
    Move { from_row: usize, from_col: usize, to_row: usize, to_col: usize, count: usize },
}

/// Where the game stands after a turn, in the order the game checks it.
#[derive(Clone, Copy, PartialEq, Eq, Structural, Debug)]
pub enum GameOutcome {
    /// White has a road.
    WhiteRoad,
    /// Black has a road (and White has none).
    BlackRoad,
    /// No road, the board is full or a side has placed all its stones, and
    /// this side has more flats on top.
    FlatWin(Player),
    /// As for a flat win, with as many flats on top for both sides.
    Draw,
    /// The game goes on.
    InProgress,
}

/// The direction a move from (`fr`, `fc`) to (`tr`, `tc`) is read as:
/// rows decide first, then columns.
pub open spec fn direction_of(fr: int, fc: int, tr: int, tc: int) -> Direction {
    if tr < fr {
        Direction::North
    } else if tr > fr {
        Direction::South
    } else if tc > fc {
        Direction::East
    } else {
        Direction::West
    }
}

/// The direction a move from (`from_row`, `from_col`) to (`to_row`, `to_col`) is read as.
pub fn direction_between(from_row: usize, from_col: usize, to_row: usize, to_col: usize) -> (d: Direction)
    ensures
        d == direction_of(from_row as int, from_col as int, to_row as int, to_col as int),
{
    if to_row < from_row {
        Direction::North
    } else if to_row > from_row {
        Direction::South
    } else if to_col > from_col {
        Direction::East
    } else {
        Direction::West
    }
}

impl Board {
    /// Why `mv` by `player` is refused, or `None` when it is allowed.
    pub open spec fn move_refusal(&self, player: Player, mv: GameMove) -> Option<Seq<char>> {
        match mv {
            GameMove::Place { row, col, piece_type } => self.place_error(row as int, col as int, player, piece_type),
            GameMove::Move { from_row, from_col, to_row, to_col, count } => self.move_error(
                from_row as int,
                from_col as int,
                to_row as int,
                to_col as int,
                count as int,
                direction_of(from_row as int, from_col as int, to_row as int, to_col as int),
            ),
        }
    }

    /// `self` is `old` after `player` played `mv`.
    pub open spec fn is_played(&self, old: Board, player: Player, mv: GameMove) -> bool {
        match mv {
            GameMove::Place { row, col, piece_type } => self.is_placed(old, row as int, col as int, Piece { player, piece_type }),
            GameMove::Move { from_row, from_col, to_row, to_col, count } => self.is_moved(
                old,
                from_row as int,
                from_col as int,
                to_row as int,
                to_col as int,
                count as int,
            ),
        }
    }

    /// The outcome the game reads off the board: a White road first, then a
    /// Black road; otherwise, once the board is full or a side has placed all
    /// its stones, the side with more flats on top wins, or it is a draw.
    pub open spec fn outcome_of(&self) -> GameOutcome {
        if self.has_road(Player::White) {
            GameOutcome::WhiteRoad
        } else if self.has_road(Player::Black) {
            GameOutcome::BlackRoad
        } else if self.flats_decide() {
            if self.flat_tops(Player::White) > self.flat_tops(Player::Black) {
                GameOutcome::FlatWin(Player::White)
            } else if self.flat_tops(Player::Black) > self.flat_tops(Player::White) {
                GameOutcome::FlatWin(Player::Black)
            } else {
                GameOutcome::Draw
            }
        } else {
            GameOutcome::InProgress
        }
    }

    /// Plays `mv` for `player` on the board alone. On refusal the board is
    /// left as it was and the reason is returned.
    pub fn apply_move(&mut self, player: Player, mv: GameMove) -> (r: Result<(), &'static str>)
        requires
            old(self).wf(),
        ensures
            r is Ok <==> old(self).move_refusal(player, mv) is None,
            r matches Err(m) ==> m@ == old(self).move_refusal(player, mv)->0 && *final(self) == *old(self),
            r is Ok ==> final(self).is_played(*old(self), player, mv),
            r is Ok ==> forall|p: Player, k: PieceType| #[trigger] final(self).kind_total(p, k) == old(self).kind_total(p, k),
    {
        match mv {
            GameMove::Place { row, col, piece_type } => self.place_piece(row, col, player, piece_type),
            GameMove::Move { from_row, from_col, to_row, to_col, count } => {
                let direction = direction_between(from_row, from_col, to_row, to_col);
                self.move_stack(from_row, from_col, to_row, to_col, count, direction)
            },
        }
    }

    /// Where the game stands: a White road, a Black road, a win or draw on
    /// flats, or still in progress.
    pub fn outcome(&self) -> (o: GameOutcome)
        requires
            self.wf(),
        ensures
            o == self.outcome_of(),
    {
        if self.check_road_win(Player::White) {
            GameOutcome::WhiteRoad
        } else if self.check_road_win(Player::Black) {
            GameOutcome::BlackRoad
        } else if self.is_board_full() || self.is_hand_empty(Player::White) || self.is_hand_empty(Player::Black) {
            let white = self.flat_count(Player::White);
            let black = self.flat_count(Player::Black);
            if white > black {
                GameOutcome::FlatWin(Player::White)
            } else if black > white {
                GameOutcome::FlatWin(Player::Black)
            } else {
                GameOutcome::Draw
            }
        } else {
            GameOutcome::InProgress
        }
    }
}

/// A game in progress: the board, whose turn it is, and the turn number
/// (it goes up after Black plays).
#[derive(Clone, Debug)]
pub struct Game {
    pub board: Board,
    pub current_player: Player,
    pub turn_number: usize,
}

impl Game {
    /// After the side to move in `old` played: the turn passes to the other
    /// side (the turn number going up after Black) unless the mover now has a
    /// road or the game is decided on flats.
    pub open spec fn turn_passed(&self, old: Game) -> bool {
        let mover = old.current_player;
        if self.board.has_road(mover) || self.board.flats_decide() {
            self.current_player == mover && self.turn_number == old.turn_number
        } else {
            &&& self.current_player == other_player(mover)
            &&& self.turn_number == old.turn_number + (if mover == Player::Black { 1int } else { 0int })
        }
    }

    /// `self` is `old` after the side to move played `mv`: the board took the
    /// move, each side keeps all its stones of each kind, and the turn passes
    /// as `turn_passed` says.
    pub open spec fn is_turn_played(&self, old: Game, mv: GameMove) -> bool {
        &&& self.board.is_played(old.board, old.current_player, mv)
        &&& forall|p: Player, k: PieceType| #[trigger] self.board.kind_total(p, k) == old.board.kind_total(p, k)
        &&& self.turn_passed(old)
    }

    /// A new game on an empty board of `board_size`, White to play turn 1.
    pub fn new(board_size: usize) -> (g: Self)
        ensures
            g.board.size == board_size,
            g.board.wf(),
            forall|r: int, c: int| g.board.in_bounds(r, c) ==> (#[trigger] g.board.cell(r, c)).len() == 0,
            forall|p: Player| #[trigger] g.board.flats_left(p) == crate::board::starting_reserve(board_size as int).0,
            forall|p: Player| #[trigger] g.board.caps_left(p) == crate::board::starting_reserve(board_size as int).1,
            g.current_player == Player::White,
            g.turn_number == 1,
    {
        Game { board: Board::new(board_size), current_player: Player::White, turn_number: 1 }
    }

    /// Plays `mv` for the side to move. If the mover then has a road, or the
    /// board is full, or a side has placed all its stones, the turn stays
    /// with the mover; otherwise it passes to
    /// the other side, and the turn number goes up after Black. A refused
    /// move leaves the game as it was and returns the reason.
    pub fn make_move(&mut self, game_move: GameMove) -> (r: Result<(), &'static str>)
        requires
            old(self).board.wf(),
            old(self).current_player == Player::Black ==> old(self).turn_number < usize::MAX,
        ensures
            r is Ok <==> old(self).board.move_refusal(old(self).current_player, game_move) is None,
            r matches Err(m) ==> m@ == old(self).board.move_refusal(old(self).current_player, game_move)->0
                && *final(self) == *old(self),
            r is Ok ==> final(self).is_turn_played(*old(self), game_move),
    {
        let mover = self.current_player;
        let result = self.board.apply_move(mover, game_move);
        match result {
            Err(m) => {
                return Err(m);
            },
            Ok(()) => {},
        }
        self.pass_turn(mover);
        Ok(())
    }

    /// Passes the turn after `mover` played, unless `mover` now has a road
    /// or the game is decided on flats.
    pub(crate) fn pass_turn(&mut self, mover: Player)
        requires
            old(self).board.wf(),
            mover == old(self).current_player,
            old(self).current_player == Player::Black ==> old(self).turn_number < usize::MAX,
        ensures
            final(self).board == old(self).board,
            final(self).turn_passed(*old(self)),
    {
        if self.board.check_road_win(mover) {
            return;
        }
        if self.board.is_board_full() || self.board.is_hand_empty(Player::White) || self.board.is_hand_empty(Player::Black) {
            return;
        }
        self.current_player = match self.current_player {
            Player::White => Player::Black,
            Player::Black => {
                self.turn_number = self.turn_number + 1;
                Player::White
            },
        };
    }
}

/// With the board not full and no road on it, the game goes on exactly while
/// each side still holds a stone, a flat or a capstone: a side that has
/// placed its flats but keeps its capstone has not placed all its stones.
pub proof fn lemma_game_goes_on_while_both_hold_stones(b: Board)
    requires
        !b.full(),
        !b.has_road(Player::White),
        !b.has_road(Player::Black),
    ensures
        b.outcome_of() == GameOutcome::InProgress <==> (b.flats_left(Player::White) + b.caps_left(Player::White) > 0
            && b.flats_left(Player::Black) + b.caps_left(Player::Black) > 0),
{
}

/// After a move that leaves the board not full, gives the mover no road and
/// leaves each side a stone in hand (a flat or a capstone), the turn passes
/// to the other side.
pub proof fn lemma_turn_passes_while_both_hold_stones(new: Game, old: Game)
    requires
        new.turn_passed(old),
        !new.board.full(),
        !new.board.has_road(old.current_player),
        new.board.flats_left(Player::White) + new.board.caps_left(Player::White) > 0,
        new.board.flats_left(Player::Black) + new.board.caps_left(Player::Black) > 0,
    ensures
        new.current_player == other_player(old.current_player),
        new.turn_number == old.turn_number + (if old.current_player == Player::Black { 1int } else { 0int }),
{
}

/// When the flats decide, the side with strictly more flat stones on top
/// wins, and equal counts are a draw.
pub proof fn lemma_flat_win_goes_to_more_flats(b: Board, p: Player)
    requires
        !b.has_road(Player::White),
        !b.has_road(Player::Black),
        b.flats_decide(),
    ensures
        b.outcome_of() == GameOutcome::FlatWin(p) <==> b.flat_tops(p) > b.flat_tops(other_player(p)),
        b.outcome_of() == GameOutcome::Draw <==> b.flat_tops(p) == b.flat_tops(other_player(p)),
{
}

/// A move the board accepts goes from a stack to a square sharing a side
/// with it, in the direction the game reads from the two squares, and
/// carries no more stones than the stack holds or the board is wide.
pub proof fn lemma_accepted_move_is_one_step(b: Board, fr: int, fc: int, tr: int, tc: int, count: int, d: Direction)
    requires
        b.move_error(fr, fc, tr, tc, count, d) is None,
    ensures
        crate::road::adjacent((fr, fc), (tr, tc)),
        direction_of(fr, fc, tr, tc) == d,
        b.cell(fr, fc).len() > 0,
        count <= b.cell(fr, fc).len(),
        count <= b.size,
{
}

/// Flat and standing stones come from the same supply: a square takes one
/// exactly when it takes the other, and a capstone is refused for want of
/// stones only when the capstones have run out.
pub proof fn lemma_flat_and_standing_share_a_supply(b: Board, row: int, col: int, p: Player)
    ensures
        b.place_error(row, col, p, PieceType::Flat) == b.place_error(row, col, p, PieceType::Standing),
        b.in_bounds(row, col) && b.cell(row, col).len() == 0 ==> (b.place_error(row, col, p, PieceType::Capstone) is None
            <==> b.caps_left(p) > 0),
        b.in_bounds(row, col) && b.cell(row, col).len() == 0 ==> (b.place_error(row, col, p, PieceType::Flat) is None
            <==> b.flats_left(p) > 0),
{
}

} // verus!
