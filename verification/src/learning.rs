use vstd::prelude::*;
use rand::rngs::ThreadRng;
use crate::ai::{choose_from, controlled_stacks, controls, first_empty, row_major_before};
use crate::board::{Board, Direction};
use crate::game::{GameMove, GameOutcome, direction_of};
use crate::piece::{Piece, PieceType, Player};
use crate::rng::gen_range;

verus! {

/// The part of the board a learning opponent aims a placement at.
#[derive(Clone, Copy, PartialEq, Eq, Structural, Debug)]
pub enum Zone {
    Center,
    Edge,
    Corner,
    Middle,
}

/// (`r`, `c`) lies in `zone` of a board of `size`.
pub open spec fn in_zone(size: int, zone: Zone, r: int, c: int) -> bool {
    let center = size / 2;
    match zone {
        Zone::Center => {
            let reach = if size >= 4 { 1int } else { 0int };
            let lo = if center >= reach { center - reach } else { 0 };
            let hi = if center + reach < size - 1 { center + reach } else { size - 1 };
            lo <= r <= hi && lo <= c <= hi
        },
        Zone::Edge => (r == 0 || r == size - 1 || c == 0 || c == size - 1) && !(r == 0 && c == 0) && !(r == 0
            && c == size - 1) && !(r == size - 1 && c == 0) && !(r == size - 1 && c == size - 1),
        Zone::Corner => (r == 0 || r == size - 1) && (c == 0 || c == size - 1),
        Zone::Middle => 1 <= r < size - 1 && 1 <= c < size - 1 && !((r == center || r == center - 1 || r
            == center + 1) && (c == center || c == center - 1 || c == center + 1)),
    }
}

/// The empty corners in the order (0, 0), (0, n-1), (n-1, 0), (n-1, n-1);
/// on a 1x1 board the one square is listed four times.
pub open spec fn corner_list(board: Board) -> Seq<(usize, usize)> {
    let n = board.size as int;
    let at = |r: int, c: int|
        if board.cell(r, c).len() == 0 { seq![(r as usize, c as usize)] } else { Seq::<(usize, usize)>::empty() };
    at(0, 0) + at(0, n - 1) + at(n - 1, 0) + at(n - 1, n - 1)
}

/// Whether (`r`, `c`) lies in `zone` of a board of `size`.
fn in_zone_exec(size: usize, zone: Zone, r: usize, c: usize) -> (b: bool)
    requires
        size >= 1,
        r < size,
        c < size,
    ensures
        b == in_zone(size as int, zone, r as int, c as int),
{
    let center = size / 2;
    match zone {
        Zone::Center => {
            let reach: usize = if size >= 4 { 1 } else { 0 };
            let lo = if center >= reach { center - reach } else { 0 };
            let hi = if center + reach < size - 1 { center + reach } else { size - 1 };
            lo <= r && r <= hi && lo <= c && c <= hi
        },
        Zone::Edge => (r == 0 || r == size - 1 || c == 0 || c == size - 1) && !(r == 0 && c == 0) && !(r == 0
            && c == size - 1) && !(r == size - 1 && c == 0) && !(r == size - 1 && c == size - 1),
        Zone::Corner => (r == 0 || r == size - 1) && (c == 0 || c == size - 1),
        Zone::Middle => 1 <= r && r < size - 1 && 1 <= c && c < size - 1 && !((r == center || r + 1 == center
            || r == center + 1) && (c == center || c + 1 == center || c == center + 1)),
    }
}

/// The empty squares, in row-major order, that lie in `zone` (every empty
/// square when `zone` is `None`).
pub fn empty_cells_in(board: &Board, zone: Option<Zone>) -> (v: Vec<(usize, usize)>)
    requires
        board.wf(),
    ensures
        forall|i: int| 0 <= i < v@.len() ==> board.in_bounds(#[trigger] v@[i].0 as int, v@[i].1 as int)
            && board.cell(v@[i].0 as int, v@[i].1 as int).len() == 0
            && (zone matches Some(z) ==> in_zone(board.size as int, z, v@[i].0 as int, v@[i].1 as int)),
        forall|r: int, c: int| board.in_bounds(r, c) && (#[trigger] board.cell(r, c)).len() == 0
            && (zone matches Some(z) ==> in_zone(board.size as int, z, r, c))
            ==> v@.contains((r as usize, c as usize)),
        forall|i: int, j: int| 0 <= i < j < v@.len() ==> row_major_before(#[trigger] v@[i], #[trigger] v@[j]),
{
    let n = board.size;
    let mut v: Vec<(usize, usize)> = Vec::new();
    let mut row: usize = 0;
    while row < n
        invariant
            board.wf(),
            n == board.size,
            row <= n,
            forall|i: int| 0 <= i < v@.len() ==> board.in_bounds(#[trigger] v@[i].0 as int, v@[i].1 as int)
                && board.cell(v@[i].0 as int, v@[i].1 as int).len() == 0
                && (zone matches Some(z) ==> in_zone(n as int, z, v@[i].0 as int, v@[i].1 as int))
                && v@[i].0 < row,
            forall|r: int, c: int| 0 <= r < row && 0 <= c < n && (#[trigger] board.cell(r, c)).len() == 0
                && (zone matches Some(z) ==> in_zone(n as int, z, r, c)) ==> v@.contains((r as usize, c as usize)),
            forall|i: int, j: int| 0 <= i < j < v@.len() ==> row_major_before(#[trigger] v@[i], #[trigger] v@[j]),
        decreases n - row,
    {
        let mut col: usize = 0;
        while col < n
            invariant
                board.wf(),
                n == board.size,
                row < n,
                col <= n,
                forall|i: int| 0 <= i < v@.len() ==> board.in_bounds(#[trigger] v@[i].0 as int, v@[i].1 as int)
                    && board.cell(v@[i].0 as int, v@[i].1 as int).len() == 0
                    && (zone matches Some(z) ==> in_zone(n as int, z, v@[i].0 as int, v@[i].1 as int))
                    && row_major_before(v@[i], (row, col)),
                forall|r: int, c: int| 0 <= r < n && 0 <= c < n && row_major_before((r as usize, c as usize), (row, col))
                    && (#[trigger] board.cell(r, c)).len() == 0 && (zone matches Some(z) ==> in_zone(n as int, z, r, c))
                    ==> v@.contains((r as usize, c as usize)),
                forall|i: int, j: int| 0 <= i < j < v@.len() ==> row_major_before(#[trigger] v@[i], #[trigger] v@[j]),
            decreases n - col,
        {
            let wanted = match zone {
                None => true,
                Some(z) => in_zone_exec(n, z, row, col),
            };
            if wanted && board.spaces[row][col].is_empty() {
                let ghost before = v@;
                v.push((row, col));
                assert forall|r: int, c: int| 0 <= r < n && 0 <= c < n
                    && row_major_before((r as usize, c as usize), (row, (col + 1) as usize))
                    && (#[trigger] board.cell(r, c)).len() == 0 && (zone matches Some(z) ==> in_zone(n as int, z, r, c))
                    implies v@.contains((r as usize, c as usize)) by {
                    if r == row && c == col {
                        assert(v@[v@.len() - 1] == (r as usize, c as usize));
                    } else {
                        assert(before.contains((r as usize, c as usize)));
                        let k = choose|k: int| 0 <= k < before.len() && before[k] == (r as usize, c as usize);
                        assert(v@[k] == before[k]);
                    }
                }
            }
            col = col + 1;
        }
        row = row + 1;
    }
    v
}

/// The empty squares a learning opponent considers for `zone`: the empty
/// corners (in the order of `corner_list`), or the empty squares of the zone
/// in row-major order.
pub fn zone_candidates(board: &Board, zone: Zone) -> (v: Vec<(usize, usize)>)
    requires
        board.wf(),
        zone == Zone::Corner ==> board.size >= 1,
    ensures
        zone == Zone::Corner ==> v@ == corner_list(*board),
        zone != Zone::Corner ==> {
            &&& forall|i: int| 0 <= i < v@.len() ==> board.in_bounds(#[trigger] v@[i].0 as int, v@[i].1 as int)
                && board.cell(v@[i].0 as int, v@[i].1 as int).len() == 0
                && in_zone(board.size as int, zone, v@[i].0 as int, v@[i].1 as int)
            &&& forall|r: int, c: int| board.in_bounds(r, c) && (#[trigger] board.cell(r, c)).len() == 0
                && in_zone(board.size as int, zone, r, c) ==> v@.contains((r as usize, c as usize))
            &&& forall|i: int, j: int| 0 <= i < j < v@.len() ==> row_major_before(#[trigger] v@[i], #[trigger] v@[j])
        },
        forall|i: int| 0 <= i < v@.len() ==> board.in_bounds(#[trigger] v@[i].0 as int, v@[i].1 as int)
            && board.cell(v@[i].0 as int, v@[i].1 as int).len() == 0
            && in_zone(board.size as int, zone, v@[i].0 as int, v@[i].1 as int),
        (exists|r: int, c: int| board.in_bounds(r, c) && (#[trigger] board.cell(r, c)).len() == 0
            && in_zone(board.size as int, zone, r, c)) ==> v@.len() > 0,
{
    match zone {
        Zone::Corner => {
            let n = board.size;
            let mut v: Vec<(usize, usize)> = Vec::new();
            if board.spaces[0][0].is_empty() {
                v.push((0, 0));
            }
            let ghost v1 = v@;
            if board.spaces[0][n - 1].is_empty() {
                v.push((0, n - 1));
            }
            let ghost v2 = v@;
            if board.spaces[n - 1][0].is_empty() {
                v.push((n - 1, 0));
            }
            let ghost v3 = v@;
            if board.spaces[n - 1][n - 1].is_empty() {
                v.push((n - 1, n - 1));
            }
            proof {
                let m = n as int;
                let at = |r: int, c: int|
                    if board.cell(r, c).len() == 0 { seq![(r as usize, c as usize)] } else { Seq::<(usize, usize)>::empty() };
                assert(v1 =~= at(0, 0));
                assert(v2 =~= at(0, 0) + at(0, m - 1));
                assert(v3 =~= at(0, 0) + at(0, m - 1) + at(m - 1, 0));
                assert(v@ =~= at(0, 0) + at(0, m - 1) + at(m - 1, 0) + at(m - 1, m - 1));
                assert(v@ == corner_list(*board));
                assert forall|i: int| 0 <= i < v@.len() implies board.in_bounds(#[trigger] v@[i].0 as int, v@[i].1 as int)
                    && board.cell(v@[i].0 as int, v@[i].1 as int).len() == 0
                    && in_zone(m, zone, v@[i].0 as int, v@[i].1 as int) by {
                    let a = at(0, 0);
                    let b = a + at(0, m - 1);
                    let c = b + at(m - 1, 0);
                    if i < a.len() {
                        assert(v@[i] == a[i]);
                    } else if i < b.len() {
                        assert(v@[i] == at(0, m - 1)[i - a.len()]);
                    } else if i < c.len() {
                        assert(v@[i] == at(m - 1, 0)[i - b.len()]);
                    } else {
                        assert(v@[i] == at(m - 1, m - 1)[i - c.len()]);
                    }
                }
                if exists|r: int, c: int| board.in_bounds(r, c) && (#[trigger] board.cell(r, c)).len() == 0
                    && in_zone(m, zone, r, c) {
                    let (r, c) = choose|r: int, c: int| board.in_bounds(r, c) && (#[trigger] board.cell(r, c)).len() == 0
                        && in_zone(m, zone, r, c);
                    assert(at(r, c).len() == 1);
                }
            }
            v
        },
        _ => empty_cells_in(board, Some(zone)),
    }
}

/// The stone a learning opponent places: a capstone when its draw said so,
/// one is in hand and the opening (turns 1 and 2) is over; a flat otherwise.
pub open spec fn learned_piece_type(board: Board, player: Player, turn_number: int, capstone_roll: bool) -> PieceType {
    if capstone_roll && board.caps_left(player) > 0 && turn_number > 2 {
        PieceType::Capstone
    } else {
        PieceType::Flat
    }
}

/// A learning opponent's placement once its weighted draws chose `zone` and
/// whether to try a capstone: a random empty square of the zone, or of the
/// whole board when the zone has none.
pub fn learned_placement(
    board: &Board,
    player: Player,
    turn_number: usize,
    zone: Zone,
    capstone_roll: bool,
    rng: &mut ThreadRng,
) -> (m: GameMove)
    requires
        board.wf(),
        board.size >= 1 || zone == Zone::Edge,
    ensures
        m matches GameMove::Place { row, col, piece_type } && {
            &&& board.size >= 1 ==> board.in_bounds(row as int, col as int)
            &&& !board.full() ==> board.cell(row as int, col as int).len() == 0
                && piece_type == learned_piece_type(*board, player, turn_number as int, capstone_roll)
            &&& board.full() ==> row == 0 && col == 0 && piece_type == PieceType::Flat
            &&& turn_number <= 2 ==> piece_type == PieceType::Flat
            &&& piece_type != PieceType::Standing
            &&& piece_type == PieceType::Capstone ==> capstone_roll && board.caps_left(player) > 0 && turn_number > 2
            &&& (exists|r: int, c: int| board.in_bounds(r, c) && (#[trigger] board.cell(r, c)).len() == 0
                && in_zone(board.size as int, zone, r, c)) ==> in_zone(board.size as int, zone, row as int, col as int)
        },
{
    let piece_type = if capstone_roll && board.remaining_pieces(player).1 > 0 && turn_number > 2 {
        PieceType::Capstone
    } else {
        PieceType::Flat
    };
    let zoned = zone_candidates(board, zone);
    let candidates = if zoned.len() == 0 {
        empty_cells_in(board, None)
    } else {
        zoned
    };
    if candidates.len() > 0 {
        let idx = gen_range(rng, 0, candidates.len() - 1);
        let (row, col) = candidates[idx];
        return GameMove::Place { row, col, piece_type };
    }
    proof {
        if !board.full() {
            let (r, c) = choose|r: int, c: int| board.in_bounds(r, c) && (#[trigger] board.cell(r, c)).len() == 0;
            assert(board.cell(r, c).len() == 0);
        }
    }
    match first_empty(board) {
        Some((row, col)) => GameMove::Place { row, col, piece_type },
        None => GameMove::Place { row: 0, col: 0, piece_type: PieceType::Flat },
    }
}

/// How many stones a learning opponent moves from a stack it may move at
/// most `max_move` stones of: one when it prefers small moves or only one
/// may move, two when exactly two may, and otherwise a random number from
/// the upper half, `max_move / 2 + 1` to `max_move`.
pub fn learned_move_count(max_move: usize, prefer_small: bool, rng: &mut ThreadRng) -> (n: usize)
    ensures
        prefer_small || max_move <= 1 ==> n == 1,
        !prefer_small && max_move == 2 ==> n == 2,
        !prefer_small && max_move > 2 ==> max_move / 2 + 1 <= n <= max_move,
{
    if prefer_small || max_move <= 1 {
        1
    } else if max_move == 2 {
        2
    } else {
        let small_end = if max_move / 2 > 1 { max_move / 2 } else { 1 };
        let large_start = max_move / 2 + 1;
        if prefer_small && small_end >= 1 {
            gen_range(rng, 1, small_end)
        } else if max_move >= large_start {
            gen_range(rng, large_start, max_move)
        } else {
            1
        }
    }
}

/// The name of the strategy a move shows, the key under which a learning
/// opponent files it.
pub open spec fn strategy_of(board_size: int, mv: GameMove) -> Seq<char> {
    match mv {
        GameMove::Place { row, col, piece_type } => {
            let center = board_size / 2;
            let is_center = -1 <= row - center <= 1 && -1 <= col - center <= 1;
            let is_edge = row == 0 || row == board_size - 1 || col == 0 || col == board_size - 1;
            let is_corner = (row == 0 || row == board_size - 1) && (col == 0 || col == board_size - 1);
            match piece_type {
                PieceType::Capstone => "use_capstone"@,
                _ => if is_corner {
                    "place_corner"@
                } else if is_edge {
                    "place_edge"@
                } else if is_center {
                    "place_center"@
                } else {
                    "place_middle"@
                },
            }
        },
        GameMove::Move { from_row, from_col, to_row, to_col, count } => {
            let small = count <= board_size / 2;
            if to_row < from_row {
                if small { "stack_move_small_move_north"@ } else { "stack_move_large_move_north"@ }
            } else if to_row > from_row {
                if small { "stack_move_small_move_south"@ } else { "stack_move_large_move_south"@ }
            } else if to_col > from_col {
                if small { "stack_move_small_move_east"@ } else { "stack_move_large_move_east"@ }
            } else {
                if small { "stack_move_small_move_west"@ } else { "stack_move_large_move_west"@ }
            }
        },
    }
}

/// The name of the strategy `mv` shows on a board of `board_size`.
pub fn strategy_name(board_size: usize, mv: &GameMove) -> (s: &'static str)
    requires
        mv matches GameMove::Place { row, col, .. } ==> 1 <= board_size <= i32::MAX && row <= i32::MAX
            && col <= i32::MAX,
    ensures
        s@ == strategy_of(board_size as int, *mv),
{
    match mv {
        GameMove::Place { row, col, piece_type } => {
            let center = board_size / 2;
            let row = *row;
            let col = *col;
            let is_center = row + 1 >= center && row <= center + 1 && col + 1 >= center && col <= center + 1;
            let is_edge = row == 0 || row == board_size - 1 || col == 0 || col == board_size - 1;
            let is_corner = (row == 0 || row == board_size - 1) && (col == 0 || col == board_size - 1);
            match piece_type {
                PieceType::Capstone => "use_capstone",
                _ => if is_corner {
                    "place_corner"
                } else if is_edge {
                    "place_edge"
                } else if is_center {
                    "place_center"
                } else {
                    "place_middle"
                },
            }
        },
        GameMove::Move { from_row, from_col, to_row, to_col, count } => {
            let small = *count <= board_size / 2;
            if *to_row < *from_row {
                if small { "stack_move_small_move_north" } else { "stack_move_large_move_north" }
            } else if *to_row > *from_row {
                if small { "stack_move_small_move_south" } else { "stack_move_large_move_south" }
            } else if *to_col > *from_col {
                if small { "stack_move_small_move_east" } else { "stack_move_large_move_east" }
            } else {
                if small { "stack_move_small_move_west" } else { "stack_move_large_move_west" }
            }
        },
    }
}

/// How a training game stands after a turn.
#[derive(Clone, Copy, PartialEq, Eq, Structural, Debug)]
pub enum TrainingStatus {
    /// The game goes on with the other side.
    Continue,
    /// This side has a road, or wins on flats.
    Won(Player),
    /// The game ends on flats without a winner.
    Draw,
    /// The move was refused and no flat stone could be placed instead.
    NoValidMove,
    /// The turn limit is past.
    TurnLimit,
}

/// What happened in one turn of a training game.
pub struct TrainingTurn {
    /// How the board took the proposed move.
    pub result: Result<(), &'static str>,
    /// When the move was refused: the empty squares a flat stone was tried
    /// on, in order; only the last can have taken it.
    pub fallback_tries: Vec<(usize, usize)>,
    /// How the game stands now.
    pub status: TrainingStatus,
}

/// The empty squares of `board` listed exactly, in row-major order.
pub open spec fn lists_empty_squares(board: Board, v: Seq<(usize, usize)>) -> bool {
    &&& forall|i: int| 0 <= i < v.len() ==> board.in_bounds(#[trigger] v[i].0 as int, v[i].1 as int)
        && board.cell(v[i].0 as int, v[i].1 as int).len() == 0
    &&& forall|r: int, c: int| board.in_bounds(r, c) && (#[trigger] board.cell(r, c)).len() == 0
        ==> v.contains((r as usize, c as usize))
    &&& forall|i: int, j: int| 0 <= i < j < v.len() ==> row_major_before(#[trigger] v[i], #[trigger] v[j])
}

/// `p` is the first empty square of `board` in row-major order.
pub open spec fn is_first_empty(board: Board, p: (usize, usize)) -> bool {
    &&& board.in_bounds(p.0 as int, p.1 as int)
    &&& board.cell(p.0 as int, p.1 as int).len() == 0
    &&& forall|r: int, c: int| board.in_bounds(r, c) && row_major_before((r as usize, c as usize), p)
        ==> (#[trigger] board.cell(r, c)).len() > 0
}

/// Tries a flat stone of `player` on each empty square in turn until one is
/// taken. Returns the squares tried and whether one took the stone: it does
/// exactly when some square is empty and `player` has a flat in hand, and
/// then it is the first empty square.
pub fn place_first_flat(board: &mut Board, player: Player) -> (res: (Vec<(usize, usize)>, bool))
    requires
        old(board).wf(),
    ensures
        res.1 <==> !old(board).full() && old(board).flats_left(player) > 0,
        res.1 ==> res.0@.len() == 1 && is_first_empty(*old(board), res.0@[0])
            && final(board).is_placed(*old(board), res.0@[0].0 as int, res.0@[0].1 as int, Piece { player, piece_type: PieceType::Flat }),
        !res.1 ==> *final(board) == *old(board) && lists_empty_squares(*old(board), res.0@),
        final(board).wf(),
        forall|p: Player, k: PieceType| #[trigger] final(board).kind_total(p, k) == old(board).kind_total(p, k),
{
    let n = board.size;
    let mut tries: Vec<(usize, usize)> = Vec::new();
    let mut row: usize = 0;
    while row < n
        invariant
            *board == *old(board),
            board.wf(),
            n == board.size,
            row <= n,
            tries@.len() > 0 ==> board.flats_left(player) == 0,
            forall|i: int| 0 <= i < tries@.len() ==> board.in_bounds(#[trigger] tries@[i].0 as int, tries@[i].1 as int)
                && board.cell(tries@[i].0 as int, tries@[i].1 as int).len() == 0 && tries@[i].0 < row,
            forall|r: int, c: int| 0 <= r < row && 0 <= c < n && (#[trigger] board.cell(r, c)).len() == 0
                ==> tries@.contains((r as usize, c as usize)),
            forall|i: int, j: int| 0 <= i < j < tries@.len() ==> row_major_before(#[trigger] tries@[i], #[trigger] tries@[j]),
        decreases n - row,
    {
        let mut col: usize = 0;
        while col < n
            invariant
                *board == *old(board),
                board.wf(),
                n == board.size,
                row < n,
                col <= n,
                tries@.len() > 0 ==> board.flats_left(player) == 0,
                forall|i: int| 0 <= i < tries@.len() ==> board.in_bounds(#[trigger] tries@[i].0 as int, tries@[i].1 as int)
                    && board.cell(tries@[i].0 as int, tries@[i].1 as int).len() == 0
                    && row_major_before(tries@[i], (row, col)),
                forall|r: int, c: int| 0 <= r < n && 0 <= c < n && row_major_before((r as usize, c as usize), (row, col))
                    && (#[trigger] board.cell(r, c)).len() == 0 ==> tries@.contains((r as usize, c as usize)),
                forall|i: int, j: int| 0 <= i < j < tries@.len() ==> row_major_before(#[trigger] tries@[i], #[trigger] tries@[j]),
            decreases n - col,
        {
            if board.spaces[row][col].is_empty() {
                let ghost before = tries@;
                tries.push((row, col));
                let placed = board.place_piece(row, col, player, PieceType::Flat);
                if placed.is_ok() {
                    proof {
                        assert(before.len() == 0);
                        assert(tries@ =~= seq![(row, col)]);
                        assert forall|r: int, c: int| old(board).in_bounds(r, c) && row_major_before((r as usize, c as usize), (row, col))
                            implies (#[trigger] old(board).cell(r, c)).len() > 0 by {
                            if old(board).cell(r, c).len() == 0 {
                                assert(before.contains((r as usize, c as usize)));
                            }
                        }
                    }
                    return (tries, true);
                }
                assert forall|r: int, c: int| 0 <= r < n && 0 <= c < n
                    && row_major_before((r as usize, c as usize), (row, (col + 1) as usize))
                    && (#[trigger] board.cell(r, c)).len() == 0 implies tries@.contains((r as usize, c as usize)) by {
                    if r == row && c == col {
                        assert(tries@[tries@.len() - 1] == (r as usize, c as usize));
                    } else {
                        assert(before.contains((r as usize, c as usize)));
                        let k = choose|k: int| 0 <= k < before.len() && before[k] == (r as usize, c as usize);
                        assert(tries@[k] == before[k]);
                    }
                }
            }
            col = col + 1;
        }
        row = row + 1;
    }
    proof {
        if !board.full() {
            let (r, c) = choose|r: int, c: int| board.in_bounds(r, c) && (#[trigger] board.cell(r, c)).len() == 0;
            assert(tries@.contains((r as usize, c as usize)));
        }
    }
    (tries, false)
}

/// Plays one turn of a training game for the side to move with the move
/// its learning opponent proposed. A refused move is replaced by a flat
/// stone on the first empty square that takes it; when none does, the game
/// ends. Otherwise a road (White's checked first) wins, a full board or an
/// empty hand decides the game on flats, passing `max_turns` stops the game, and else the turn passes to
/// the other side, the turn number going up after Black.
pub fn training_turn(
    board: &mut Board,
    current_player: &mut Player,
    turn_number: &mut usize,
    max_turns: usize,
    ai_move: GameMove,
) -> (t: TrainingTurn)
    requires
        old(board).wf(),
        *old(current_player) == Player::Black ==> *old(turn_number) < usize::MAX,
    ensures
        final(board).wf(),
        t.result is Ok <==> old(board).move_refusal(*old(current_player), ai_move) is None,
        t.result matches Err(m) ==> m@ == old(board).move_refusal(*old(current_player), ai_move)->0,
        t.result is Ok ==> t.fallback_tries@.len() == 0 && final(board).is_played(*old(board), *old(current_player), ai_move),
        t.result is Err && t.status != TrainingStatus::NoValidMove ==> t.fallback_tries@.len() == 1
            && is_first_empty(*old(board), t.fallback_tries@[0])
            && final(board).is_placed(*old(board), t.fallback_tries@[0].0 as int, t.fallback_tries@[0].1 as int,
                Piece { player: *old(current_player), piece_type: PieceType::Flat }),
        t.status == TrainingStatus::NoValidMove <==> t.result is Err && (old(board).full()
            || old(board).flats_left(*old(current_player)) == 0),
        t.status == TrainingStatus::NoValidMove ==> *final(board) == *old(board)
            && lists_empty_squares(*old(board), t.fallback_tries@),
        forall|p: Player, k: PieceType| #[trigger] final(board).kind_total(p, k) == old(board).kind_total(p, k),
        t.status != TrainingStatus::NoValidMove ==> t.status == (match final(board).outcome_of() {
            GameOutcome::WhiteRoad => TrainingStatus::Won(Player::White),
            GameOutcome::BlackRoad => TrainingStatus::Won(Player::Black),
            GameOutcome::FlatWin(p) => TrainingStatus::Won(p),
            GameOutcome::Draw => TrainingStatus::Draw,
            GameOutcome::InProgress => if *old(turn_number) > max_turns {
                TrainingStatus::TurnLimit
            } else {
                TrainingStatus::Continue
            },
        }),
        t.status == TrainingStatus::Continue ==> *final(current_player) == crate::piece::other_player(*old(current_player))
            && *final(turn_number) == *old(turn_number) + (if *old(current_player) == Player::Black { 1int } else { 0int }),
        t.status != TrainingStatus::Continue ==> *final(current_player) == *old(current_player)
            && *final(turn_number) == *old(turn_number),
{
    let mover = *current_player;
    let result = board.apply_move(mover, ai_move);
    let mut fallback_tries: Vec<(usize, usize)> = Vec::new();
    if result.is_err() {
        let (tries, placed) = place_first_flat(board, mover);
        fallback_tries = tries;
        if !placed {
            return TrainingTurn { result, fallback_tries, status: TrainingStatus::NoValidMove };
        }
    }
    let status = match board.outcome() {
        GameOutcome::WhiteRoad => TrainingStatus::Won(Player::White),
        GameOutcome::BlackRoad => TrainingStatus::Won(Player::Black),
        GameOutcome::FlatWin(p) => TrainingStatus::Won(p),
        GameOutcome::Draw => TrainingStatus::Draw,
        GameOutcome::InProgress => if *turn_number > max_turns {
            TrainingStatus::TurnLimit
        } else {
            TrainingStatus::Continue
        },
    };
    if status == TrainingStatus::Continue {
        *current_player = match mover {
            Player::White => Player::Black,
            Player::Black => {
                *turn_number = *turn_number + 1;
                Player::White
            },
        };
    }
    TrainingTurn { result, fallback_tries, status }
}

/// The stack a learning opponent moves and how many stones it takes: a
/// random stack of its own, and a count from `learned_move_count` with at
/// most the stack's height and the board's size. `None` when it has no
/// stack.
pub fn learned_stack_choice(board: &Board, player: Player, prefer_small: bool, rng: &mut ThreadRng) -> (o: Option<(usize, usize, usize)>)
    requires
        board.wf(),
    ensures
        o is None <==> !exists|r: int, c: int| board.in_bounds(r, c) && #[trigger] controls(*board, r, c, player),
        o matches Some((fr, fc, count)) ==> {
            let h = board.cell(fr as int, fc as int).len() as int;
            let most = if h < board.size { h } else { board.size as int };
            &&& board.in_bounds(fr as int, fc as int)
            &&& controls(*board, fr as int, fc as int, player)
            &&& 1 <= count <= most
            &&& (prefer_small || most <= 1) ==> count == 1
            &&& (!prefer_small && most == 2) ==> count == 2
            &&& (!prefer_small && most > 2) ==> most / 2 + 1 <= count
        },
{
    let stacks = controlled_stacks(board, player);
    proof {
        if exists|r: int, c: int| board.in_bounds(r, c) && #[trigger] controls(*board, r, c, player) {
            let (r, c) = choose|r: int, c: int| board.in_bounds(r, c) && #[trigger] controls(*board, r, c, player);
            assert(stacks@.contains((r as usize, c as usize)));
        }
    }
    match choose_from(&stacks, rng) {
        None => None,
        Some(source) => {
            let from_row = source.0;
            let from_col = source.1;
            let height = board.height_at(from_row, from_col);
            let most = if height < board.size { height } else { board.size };
            let count = learned_move_count(most, prefer_small, rng);
            Some((from_row, from_col, count))
        },
    }
}

/// In the opening (turns 1 and 2) a learning opponent places a flat stone
/// whatever its capstone draw; later it places a capstone exactly when the
/// draw asks for one and one is in hand, and never a standing stone.
pub proof fn lemma_learned_piece_type_opening(board: Board, player: Player, turn_number: int, capstone_roll: bool)
    ensures
        turn_number <= 2 ==> learned_piece_type(board, player, turn_number, capstone_roll) == PieceType::Flat,
        turn_number > 2 ==> (learned_piece_type(board, player, turn_number, capstone_roll) == PieceType::Capstone
            <==> capstone_roll && board.caps_left(player) > 0),
        learned_piece_type(board, player, turn_number, capstone_roll) != PieceType::Standing,
{
}

/// Swapping row and column does not change a placement's strategy name.
pub proof fn lemma_strategy_transpose(board_size: int, row: usize, col: usize, piece_type: PieceType)
    ensures
        strategy_of(board_size, GameMove::Place { row, col, piece_type })
            == strategy_of(board_size, GameMove::Place { row: col, col: row, piece_type }),
{
}

/// On a board of odd size, turning it half round (row `r` to `size - 1 - r`,
/// column `c` to `size - 1 - c`) does not change a placement's strategy name.
pub proof fn lemma_strategy_half_turn(board_size: usize, row: usize, col: usize, piece_type: PieceType)
    requires
        board_size % 2 == 1,
        row < board_size,
        col < board_size,
    ensures
        strategy_of(board_size as int, GameMove::Place { row, col, piece_type }) == strategy_of(
            board_size as int,
            GameMove::Place { row: (board_size - 1 - row) as usize, col: (board_size - 1 - col) as usize, piece_type },
        ),
{
    let n = board_size as int;
    let center = n / 2;
    assert(n == 2 * center + 1);
    let r2 = (board_size - 1 - row) as usize;
    let c2 = (board_size - 1 - col) as usize;
    assert(r2 == n - 1 - row);
    assert(c2 == n - 1 - col);
    assert(r2 - center == center - row);
    assert(c2 - center == center - col);
}

/// A capstone placement is filed as "use_capstone"; any other placement on
/// one of the four corners as "place_corner", and on the rest of the rim as
/// "place_edge".
pub proof fn lemma_strategy_of_rim(board_size: int, row: usize, col: usize, piece_type: PieceType)
    requires
        row < board_size,
        col < board_size,
    ensures
        piece_type == PieceType::Capstone ==> strategy_of(board_size, GameMove::Place { row, col, piece_type }) == "use_capstone"@,
        piece_type != PieceType::Capstone && in_zone(board_size, Zone::Corner, row as int, col as int)
            ==> strategy_of(board_size, GameMove::Place { row, col, piece_type }) == "place_corner"@,
        piece_type != PieceType::Capstone && in_zone(board_size, Zone::Edge, row as int, col as int)
            ==> strategy_of(board_size, GameMove::Place { row, col, piece_type }) == "place_edge"@,
{
}

/// A placement of a flat or standing stone away from the rim is filed as
/// "place_center" on the squares of the centre zone and as "place_middle"
/// elsewhere.
pub proof fn lemma_strategy_of_inside(board_size: int, row: usize, col: usize, piece_type: PieceType)
    requires
        board_size >= 3,
        1 <= row < board_size - 1,
        1 <= col < board_size - 1,
        piece_type != PieceType::Capstone,
    ensures
        in_zone(board_size, Zone::Center, row as int, col as int)
            ==> strategy_of(board_size, GameMove::Place { row, col, piece_type }) == "place_center"@,
        !in_zone(board_size, Zone::Center, row as int, col as int)
            ==> strategy_of(board_size, GameMove::Place { row, col, piece_type }) == "place_middle"@,
{
}

/// A stack move is filed by the direction the game reads it in and by
/// whether it carries at most half the board's width.
pub proof fn lemma_strategy_of_move(board_size: int, fr: usize, fc: usize, tr: usize, tc: usize, count: usize)
    ensures
        ({
            let name = strategy_of(board_size, GameMove::Move { from_row: fr, from_col: fc, to_row: tr, to_col: tc, count });
            let d = direction_of(fr as int, fc as int, tr as int, tc as int);
            let small = 2 * count <= board_size;
            &&& d == Direction::North && small ==> name == "stack_move_small_move_north"@
            &&& d == Direction::North && !small ==> name == "stack_move_large_move_north"@
            &&& d == Direction::South && small ==> name == "stack_move_small_move_south"@
            &&& d == Direction::South && !small ==> name == "stack_move_large_move_south"@
            &&& d == Direction::East && small ==> name == "stack_move_small_move_east"@
            &&& d == Direction::East && !small ==> name == "stack_move_large_move_east"@
            &&& d == Direction::West && small ==> name == "stack_move_small_move_west"@
            &&& d == Direction::West && !small ==> name == "stack_move_large_move_west"@
        }),
{
    assert(count <= board_size / 2 <==> 2 * count <= board_size);
}

} // verus!
