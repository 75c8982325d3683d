use vstd::prelude::*;
use crate::piece::{Piece, PieceType, Player};
use crate::stack::{Stack, count_of, lemma_count_of_add, seq_blocking, seq_controller};
use crate::count::{sum_range, sum_square, lemma_sum_square_one, lemma_sum_square_two, lemma_sum_square_zero};

verus! {

/// The way a stack moves, one square along a row or a column.
#[derive(Clone, Copy, PartialEq, Eq, Structural, Debug)]
pub enum Direction {
    North,
    South,
    East,
    West,
}

/// The square board: `size` rows of `size` stacks, and the stones each
/// side still has in hand.
#[derive(Clone, Debug)]
pub struct Board {
    pub size: usize,
    pub spaces: Vec<Vec<Stack>>,
    pub white_pieces: usize,
    pub black_pieces: usize,
    pub white_caps: usize,
    pub black_caps: usize,
}

/// Flat stones and capstones each side starts with on a board of `size`.
pub open spec fn starting_reserve(size: int) -> (int, int) {
    if size == 3 {
        (10, 0)
    } else if size == 4 {
        (15, 0)
    } else if size == 5 {
        (21, 1)
    } else if size == 6 {
        (30, 1)
    } else if size == 7 {
        (40, 2)
    } else if size == 8 {
        (50, 2)
    } else {
        (21, 1)
    }
}

impl Board {
    /// `size` rows of `size` stacks each.
    pub open spec fn wf(&self) -> bool {
        &&& self.spaces@.len() == self.size
        &&& forall|r: int| 0 <= r < self.size ==> (#[trigger] self.spaces@[r])@.len() == self.size
    }

    /// The square at row `r`, column `c`.
    pub open spec fn in_bounds(&self, r: int, c: int) -> bool {
        0 <= r < self.size && 0 <= c < self.size
    }

    /// The stones on square (`r`, `c`), bottom first.
    pub open spec fn cell(&self, r: int, c: int) -> Seq<Piece> {
        self.spaces@[r]@[c]@
    }

    /// Flat stones `p` still has in hand.
    pub open spec fn flats_left(&self, p: Player) -> int {
        match p {
            Player::White => self.white_pieces as int,
            Player::Black => self.black_pieces as int,
        }
    }

    /// Capstones `p` still has in hand.
    pub open spec fn caps_left(&self, p: Player) -> int {
        match p {
            Player::White => self.white_caps as int,
            Player::Black => self.black_caps as int,
        }
    }

    /// Every square is occupied.
    pub open spec fn full(&self) -> bool {
        forall|r: int, c: int| self.in_bounds(r, c) ==> (#[trigger] self.cell(r, c)).len() > 0
    }

    /// (`r`, `c`) counts for a road of `p`: its top stone is a flat stone or a
    /// capstone of `p`.
    pub open spec fn road_square(&self, r: int, c: int, p: Player) -> bool {
        let s = self.cell(r, c);
        s.len() > 0 && s.last().piece_type != PieceType::Standing && seq_controller(s) == Some(p)
    }

    /// (`r`, `c`) has a flat stone of `p` on top.
    pub open spec fn flat_square(&self, r: int, c: int, p: Player) -> bool {
        let s = self.cell(r, c);
        s.len() > 0 && s.last().piece_type == PieceType::Flat && seq_controller(s) == Some(p)
    }

    /// The number of `p`'s stones of kind `k` on the board.
    pub open spec fn stones_on_board(&self, p: Player, k: PieceType) -> int {
        sum_square(|r: int, c: int| count_of(self.cell(r, c), p, k) as int, self.size as int)
    }

    /// All of `p`'s stones from the supply that stones of kind `k` are
    /// drawn from, on the board and in hand: capstones from the capstones,
    /// flat and standing stones alike from the flats.
    pub open spec fn kind_total(&self, p: Player, k: PieceType) -> int {
        match k {
            PieceType::Capstone => self.stones_on_board(p, PieceType::Capstone) + self.caps_left(p),
            _ => self.stones_on_board(p, PieceType::Flat) + self.stones_on_board(p, PieceType::Standing) + self.flats_left(p),
        }
    }

    /// The number of squares among the first `k` of row `r` with a flat of
    /// `p` on top.
    pub open spec fn flat_tops_in_row(&self, r: int, k: int, p: Player) -> int
        decreases k,
    {
        if k <= 0 {
            0
        } else {
            self.flat_tops_in_row(r, k - 1, p) + if self.flat_square(r, k - 1, p) { 1int } else { 0int }
        }
    }

    /// The number of squares in the first `k` rows with a flat of `p` on top.
    pub open spec fn flat_tops_in_rows(&self, k: int, p: Player) -> int
        decreases k,
    {
        if k <= 0 {
            0
        } else {
            self.flat_tops_in_rows(k - 1, p) + self.flat_tops_in_row(k - 1, self.size as int, p)
        }
    }

    /// The number of squares with a flat of `p` on top.
    pub open spec fn flat_tops(&self, p: Player) -> int {
        self.flat_tops_in_rows(self.size as int, p)
    }

    /// `p` has no stone left in hand.
    pub open spec fn hand_empty(&self, p: Player) -> bool {
        self.flats_left(p) == 0 && self.caps_left(p) == 0
    }

    /// The game is decided on flats: the board is full or a side has placed
    /// all its stones.
    pub open spec fn flats_decide(&self) -> bool {
        self.full() || self.hand_empty(Player::White) || self.hand_empty(Player::Black)
    }

    /// The number of occupied squares among the first `k` of row `r`.
    pub open spec fn occupied_in_row(&self, r: int, k: int) -> int
        decreases k,
    {
        if k <= 0 {
            0
        } else {
            self.occupied_in_row(r, k - 1) + if self.cell(r, k - 1).len() > 0 { 1int } else { 0int }
        }
    }

    /// The number of occupied squares in the first `k` rows.
    pub open spec fn occupied_in_rows(&self, k: int) -> int
        decreases k,
    {
        if k <= 0 {
            0
        } else {
            self.occupied_in_rows(k - 1) + self.occupied_in_row(k - 1, self.size as int)
        }
    }

    /// The number of occupied squares.
    pub open spec fn occupied_count(&self) -> int {
        self.occupied_in_rows(self.size as int)
    }

    /// Why placing a `pt` stone of `player` at (`row`, `col`) is refused, or
    /// `None` when it is allowed.
    pub open spec fn place_error(&self, row: int, col: int, player: Player, pt: PieceType) -> Option<Seq<char>> {
        if !self.in_bounds(row, col) {
            Some("Position out of bounds"@)
        } else if self.cell(row, col).len() > 0 {
            Some("Space already occupied"@)
        } else if pt == PieceType::Capstone && self.caps_left(player) == 0 {
            Some("No more capstones available"@)
        } else if pt != PieceType::Capstone && self.flats_left(player) == 0 {
            Some("No more flat stones available"@)
        } else {
            None
        }
    }

    /// `self` is `old` with `piece` added on top of (`row`, `col`) and taken
    /// from its owner's hand.
    pub open spec fn is_placed(&self, old: Board, row: int, col: int, piece: Piece) -> bool {
        &&& self.size == old.size
        &&& self.wf()
        &&& self.cell(row, col) == old.cell(row, col).push(piece)
        &&& forall|r: int, c: int| #![trigger self.cell(r, c)]
            old.in_bounds(r, c) && !(r == row && c == col) ==> self.cell(r, c) == old.cell(r, c)
        &&& forall|q: Player| #![trigger self.flats_left(q)]
            self.flats_left(q) == old.flats_left(q) - (if q == piece.player
                && piece.piece_type != PieceType::Capstone { 1int } else { 0int })
        &&& forall|q: Player| #![trigger self.caps_left(q)]
            self.caps_left(q) == old.caps_left(q) - (if q == piece.player
                && piece.piece_type == PieceType::Capstone { 1int } else { 0int })
    }

    /// (`tr`, `tc`) is the square one step from (`fr`, `fc`) the way `d`
    /// asks for: one row up or down in the same column for North or South,
    /// one column right or left in the same row for East or West.
    pub open spec fn direction_ok(fr: int, fc: int, tr: int, tc: int, d: Direction) -> bool {
        match d {
            Direction::North => fr > tr && fr - tr == 1 && fc == tc,
            Direction::South => fr < tr && tr - fr == 1 && fc == tc,
            Direction::East => fc < tc && tc - fc == 1 && fr == tr,
            Direction::West => fc > tc && fc - tc == 1 && fr == tr,
        }
    }

    /// Why moving the top `count` stones from (`fr`, `fc`) onto (`tr`, `tc`)
    /// is refused, or `None` when it is allowed.
    pub open spec fn move_error(&self, fr: int, fc: int, tr: int, tc: int, count: int, d: Direction) -> Option<Seq<char>> {
        if !self.in_bounds(fr, fc) || !self.in_bounds(tr, tc) {
            Some("Position out of bounds"@)
        } else if self.cell(fr, fc).len() == 0 {
            Some("No stack to move"@)
        } else if !Self::direction_ok(fr, fc, tr, tc, d) {
            Some("Invalid move distance or direction"@)
        } else if seq_blocking(self.cell(tr, tc)) {
            Some("Cannot move onto a blocking piece"@)
        } else if count > self.cell(fr, fc).len() {
            Some("Not enough pieces in stack to move"@)
        } else if count > self.size {
            Some("Cannot move more pieces than board size"@)
        } else {
            None
        }
    }

    /// `self` is `old` with the top `count` stones of (`fr`, `fc`) moved, in
    /// their order, on top of (`tr`, `tc`); the hands are unchanged.
    pub open spec fn is_moved(&self, old: Board, fr: int, fc: int, tr: int, tc: int, count: int) -> bool {
        let h = old.cell(fr, fc).len() as int;
        &&& self.size == old.size
        &&& self.wf()
        &&& self.cell(fr, fc) == old.cell(fr, fc).subrange(0, h - count)
        &&& self.cell(tr, tc) == old.cell(tr, tc) + old.cell(fr, fc).subrange(h - count, h)
        &&& forall|r: int, c: int| #![trigger self.cell(r, c)]
            old.in_bounds(r, c) && !(r == fr && c == fc) && !(r == tr && c == tc)
                ==> self.cell(r, c) == old.cell(r, c)
        &&& self.white_pieces == old.white_pieces
        &&& self.black_pieces == old.black_pieces
        &&& self.white_caps == old.white_caps
        &&& self.black_caps == old.black_caps
    }

    /// An empty board of `size` with the starting stones in each hand
    /// (sizes other than 3 to 8 get the 5x5 allotment).
    pub fn new(size: usize) -> (b: Self)
        ensures
            b.size == size,
            b.wf(),
            forall|r: int, c: int| b.in_bounds(r, c) ==> (#[trigger] b.cell(r, c)).len() == 0,
            forall|p: Player| #[trigger] b.flats_left(p) == starting_reserve(size as int).0,
            forall|p: Player| #[trigger] b.caps_left(p) == starting_reserve(size as int).1,
            forall|p: Player, k: PieceType| #[trigger] b.stones_on_board(p, k) == 0,
            forall|p: Player| #[trigger] b.kind_total(p, PieceType::Flat) == starting_reserve(size as int).0,
            forall|p: Player| #[trigger] b.kind_total(p, PieceType::Capstone) == starting_reserve(size as int).1,
    {
        let mut spaces: Vec<Vec<Stack>> = Vec::with_capacity(size);
        let mut i: usize = 0;
        while i < size
            invariant
                i <= size,
                spaces@.len() == i,
                forall|r: int| 0 <= r < i ==> (#[trigger] spaces@[r])@.len() == size,
                forall|r: int, c: int|
                    0 <= r < i && 0 <= c < size ==> (#[trigger] spaces@[r]@[c])@.len() == 0,
            decreases size - i,
        {
            let mut row: Vec<Stack> = Vec::with_capacity(size);
            let mut j: usize = 0;
            while j < size
                invariant
                    j <= size,
                    row@.len() == j,
                    forall|c: int| 0 <= c < j ==> (#[trigger] row@[c])@.len() == 0,
                decreases size - j,
            {
                row.push(Stack::new());
                j = j + 1;
            }
            spaces.push(row);
            i = i + 1;
        }
        let (pieces, caps): (usize, usize) = match size {
            3 => (10, 0),
            4 => (15, 0),
            5 => (21, 1),
            6 => (30, 1),
            7 => (40, 2),
            8 => (50, 2),
            _ => (21, 1),
        };
        let b = Board {
            size,
            spaces,
            white_pieces: pieces,
            black_pieces: pieces,
            white_caps: caps,
            black_caps: caps,
        };
        assert forall|p: Player, k: PieceType| #[trigger] b.stones_on_board(p, k) == 0 by {
            let f = |r: int, c: int| count_of(b.cell(r, c), p, k) as int;
            assert forall|r: int, c: int| 0 <= r < size && 0 <= c < size implies #[trigger] f(r, c) == 0 by {
                assert(b.cell(r, c).len() == 0);
            }
            lemma_sum_square_zero(f, size as int);
        }
        b
    }

    /// Places a `piece_type` stone of `player` on the empty square
    /// (`row`, `col`). On refusal the board is left as it was and the
    /// reason is returned.
    pub fn place_piece(&mut self, row: usize, col: usize, player: Player, piece_type: PieceType) -> (r: Result<(), &'static str>)
        requires
            old(self).wf(),
        ensures
            r is Ok <==> old(self).place_error(row as int, col as int, player, piece_type) is None,
            r matches Err(m) ==> m@ == old(self).place_error(row as int, col as int, player, piece_type)->0
                && *final(self) == *old(self),
            r is Ok ==> final(self).is_placed(*old(self), row as int, col as int, Piece { player, piece_type }),
            r is Ok ==> forall|p: Player, k: PieceType| #[trigger] final(self).kind_total(p, k) == old(self).kind_total(p, k),
    {
        if row >= self.size || col >= self.size {
            return Err("Position out of bounds");
        }
        if !self.spaces[row][col].is_empty() {
            return Err("Space already occupied");
        }
        let capstone = match piece_type {
            PieceType::Capstone => true,
            _ => false,
        };
        match player {
            Player::White => {
                if capstone && self.white_caps == 0 {
                    return Err("No more capstones available");
                } else if !capstone && self.white_pieces == 0 {
                    return Err("No more flat stones available");
                }
            },
            Player::Black => {
                if capstone && self.black_caps == 0 {
                    return Err("No more capstones available");
                } else if !capstone && self.black_pieces == 0 {
                    return Err("No more flat stones available");
                }
            },
        }
        match player {
            Player::White => {
                if capstone {
                    self.white_caps = self.white_caps - 1;
                } else {
                    self.white_pieces = self.white_pieces - 1;
                }
            },
            Player::Black => {
                if capstone {
                    self.black_caps = self.black_caps - 1;
                } else {
                    self.black_pieces = self.black_pieces - 1;
                }
            },
        }
        self.spaces[row][col].add_piece(Piece { player, piece_type });
        proof {
            assert forall|p: Player, k: PieceType| #[trigger] self.kind_total(p, k) == old(self).kind_total(p, k) by {
                lemma_place_conserves_stones(*old(self), *self, row as int, col as int, Piece { player, piece_type }, p, k);
            }
        }
        Ok(())
    }

    /// Moves the top `count` stones of (`from_row`, `from_col`) onto the
    /// neighbouring square (`to_row`, `to_col`) in `direction`. On refusal
    /// the board is left as it was and the reason is returned.
    pub fn move_stack(
        &mut self,
        from_row: usize,
        from_col: usize,
        to_row: usize,
        to_col: usize,
        count: usize,
        direction: Direction,
    ) -> (r: Result<(), &'static str>)
        requires
            old(self).wf(),
        ensures
            r is Ok <==> old(self).move_error(from_row as int, from_col as int, to_row as int, to_col as int, count as int, direction) is None,
            r matches Err(m) ==> m@ == old(self).move_error(from_row as int, from_col as int, to_row as int, to_col as int, count as int, direction)->0
                && *final(self) == *old(self),
            r is Ok ==> final(self).is_moved(*old(self), from_row as int, from_col as int, to_row as int, to_col as int, count as int),
            r is Ok ==> forall|p: Player, k: PieceType| #[trigger] final(self).stones_on_board(p, k) == old(self).stones_on_board(p, k)
                && final(self).kind_total(p, k) == old(self).kind_total(p, k),
    {
        if from_row >= self.size || from_col >= self.size || to_row >= self.size || to_col >= self.size {
            return Err("Position out of bounds");
        }
        if self.spaces[from_row][from_col].is_empty() {
            return Err("No stack to move");
        }
        let controller = match self.spaces[from_row][from_col].controller() {
            Some(c) => c,
            None => {
                return Err("Stack has no controller");
            },
        };
        match direction {
            Direction::North => {
                if from_row <= to_row || from_row - to_row != 1 || from_col != to_col {
                    return Err("Invalid move distance or direction");
                }
            },
            Direction::South => {
                if from_row >= to_row || to_row - from_row != 1 || from_col != to_col {
                    return Err("Invalid move distance or direction");
                }
            },
            Direction::East => {
                if from_col >= to_col || to_col - from_col != 1 || from_row != to_row {
                    return Err("Invalid move distance or direction");
                }
            },
            Direction::West => {
                if from_col <= to_col || from_col - to_col != 1 || from_row != to_row {
                    return Err("Invalid move distance or direction");
                }
            },
        }
        if self.spaces[to_row][to_col].is_blocking() {
            return Err("Cannot move onto a blocking piece");
        }
        let source_height = self.spaces[from_row][from_col].height();
        if count > source_height {
            return Err("Not enough pieces in stack to move");
        }
        match self.spaces[from_row][from_col].controller() {
            Some(c) => {
                if c != controller {
                    return Err("You don't control this stack");
                }
            },
            None => {
                return Err("You don't control this stack");
            },
        }
        if count > self.size {
            return Err("Cannot move more pieces than board size");
        }
        let pieces_to_move = self.spaces[from_row][from_col].take_n(count);
        let ghost mid = *self;
        assert forall|r: int, c: int| #![trigger mid.cell(r, c)]
            old(self).in_bounds(r, c) && !(r == from_row && c == from_col) implies mid.cell(r, c) == old(self).cell(r, c) by {
            if r == from_row {
                assert(mid.spaces@[r]@[c] == old(self).spaces@[r]@[c]);
            } else {
                assert(mid.spaces@[r] == old(self).spaces@[r]);
            }
        }
        assert(mid.wf()) by {
            assert forall|r: int| 0 <= r < mid.size implies (#[trigger] mid.spaces@[r])@.len() == mid.size by {
                if r != from_row {
                    assert(mid.spaces@[r] == old(self).spaces@[r]);
                }
            }
        }
        assert(pieces_to_move@ == old(self).cell(from_row as int, from_col as int).subrange(
            source_height - count,
            source_height as int,
        )) by {
            if count == source_height {
                assert(old(self).cell(from_row as int, from_col as int).subrange(0, source_height as int)
                    =~= old(self).cell(from_row as int, from_col as int));
            }
        }
        let mut i: usize = 0;
        while i < pieces_to_move.len()
            invariant
                self.wf(),
                self.size == old(self).size,
                self.white_pieces == old(self).white_pieces,
                self.black_pieces == old(self).black_pieces,
                self.white_caps == old(self).white_caps,
                self.black_caps == old(self).black_caps,
                mid.wf(),
                mid.size == self.size,
                to_row < self.size,
                to_col < self.size,
                i <= pieces_to_move@.len(),
                !(to_row == from_row && to_col == from_col),
                mid.cell(to_row as int, to_col as int) == old(self).cell(to_row as int, to_col as int),
                self.cell(to_row as int, to_col as int) == mid.cell(to_row as int, to_col as int)
                    + pieces_to_move@.subrange(0, i as int),
                forall|r: int, c: int| #![trigger self.cell(r, c)]
                    mid.in_bounds(r, c) && !(r == to_row && c == to_col) ==> self.cell(r, c) == mid.cell(r, c),
            decreases pieces_to_move@.len() - i,
        {
            let ghost before = *self;
            self.spaces[to_row][to_col].add_piece(pieces_to_move[i]);
            assert forall|r: int, c: int| #![trigger self.cell(r, c)]
                mid.in_bounds(r, c) && !(r == to_row && c == to_col) implies self.cell(r, c) == before.cell(r, c) by {
                if r == to_row {
                    assert(self.spaces@[r]@[c] == before.spaces@[r]@[c]);
                } else {
                    assert(self.spaces@[r] == before.spaces@[r]);
                }
            }
            assert(self.wf()) by {
                assert forall|r: int| 0 <= r < self.size implies (#[trigger] self.spaces@[r])@.len() == self.size by {
                    if r != to_row {
                        assert(self.spaces@[r] == before.spaces@[r]);
                    }
                }
            }
            assert(pieces_to_move@.subrange(0, i + 1) =~= pieces_to_move@.subrange(0, i as int).push(pieces_to_move@[i as int]));
            i = i + 1;
        }
        assert(pieces_to_move@.subrange(0, i as int) =~= pieces_to_move@);
        assert(mid.cell(from_row as int, from_col as int) =~= old(self).cell(from_row as int, from_col as int).subrange(0, source_height - count));
        assert(self.cell(from_row as int, from_col as int) == mid.cell(from_row as int, from_col as int));
        assert(self.cell(to_row as int, to_col as int) == old(self).cell(to_row as int, to_col as int) + pieces_to_move@);
        proof {
            assert forall|p: Player, k: PieceType| #[trigger] self.stones_on_board(p, k) == old(self).stones_on_board(p, k)
                && self.kind_total(p, k) == old(self).kind_total(p, k) by {
                lemma_move_conserves_stones(*old(self), *self, from_row as int, from_col as int, to_row as int, to_col as int, count as int, p, k);
            }
        }
        Ok(())
    }

    /// Whether (`row`, `col`) counts for a road of `player`.
    pub(crate) fn is_road_square(&self, row: usize, col: usize, player: Player) -> (b: bool)
        requires
            self.wf(),
            self.in_bounds(row as int, col as int),
        ensures
            b == self.road_square(row as int, col as int, player),
    {
        match self.spaces[row][col].top_piece() {
            None => false,
            Some(top) => match top.piece_type {
                PieceType::Standing => false,
                _ => top.player == player,
            },
        }
    }

    /// Whether (`row`, `col`) has a flat stone of `player` on top.
    fn is_flat_square(&self, row: usize, col: usize, player: Player) -> (b: bool)
        requires
            self.wf(),
            self.in_bounds(row as int, col as int),
        ensures
            b == self.flat_square(row as int, col as int, player),
    {
        match self.spaces[row][col].top_piece() {
            None => false,
            Some(top) => match top.piece_type {
                PieceType::Flat => top.player == player,
                _ => false,
            },
        }
    }

    /// The symbol the board display shows for the top stone of (`row`,
    /// `col`): "W" or "B" for a flat, "WS" or "BS" for a standing stone,
    /// "WC" or "BC" for a capstone, and "" for an empty square.
    pub fn cell_symbol(&self, row: usize, col: usize) -> (s: &'static str)
        requires
            self.wf(),
            self.in_bounds(row as int, col as int),
        ensures
            self.cell(row as int, col as int).len() == 0 ==> s@ == ""@,
            self.cell(row as int, col as int).len() > 0 ==> ({
                let top = self.cell(row as int, col as int).last();
                &&& top == Piece { player: Player::White, piece_type: PieceType::Flat } ==> s@ == "W"@
                &&& top == Piece { player: Player::Black, piece_type: PieceType::Flat } ==> s@ == "B"@
                &&& top == Piece { player: Player::White, piece_type: PieceType::Standing } ==> s@ == "WS"@
                &&& top == Piece { player: Player::Black, piece_type: PieceType::Standing } ==> s@ == "BS"@
                &&& top == Piece { player: Player::White, piece_type: PieceType::Capstone } ==> s@ == "WC"@
                &&& top == Piece { player: Player::Black, piece_type: PieceType::Capstone } ==> s@ == "BC"@
            }),
    {
        match self.spaces[row][col].top_piece() {
            None => "",
            Some(top) => match (top.player, top.piece_type) {
                (Player::White, PieceType::Flat) => "W",
                (Player::Black, PieceType::Flat) => "B",
                (Player::White, PieceType::Standing) => "WS",
                (Player::Black, PieceType::Standing) => "BS",
                (Player::White, PieceType::Capstone) => "WC",
                (Player::Black, PieceType::Capstone) => "BC",
            },
        }
    }

    /// The number of stones on (`row`, `col`).
    pub fn height_at(&self, row: usize, col: usize) -> (h: usize)
        requires
            self.wf(),
            self.in_bounds(row as int, col as int),
        ensures
            h == self.cell(row as int, col as int).len(),
    {
        self.spaces[row][col].height()
    }

    /// The number of squares with a flat of `player` on top.
    pub fn flat_count(&self, player: Player) -> (count: u128)
        requires
            self.wf(),
        ensures
            count == self.flat_tops(player),
    {
        let n = self.size;
        let mut count: u128 = 0;
        let mut row: usize = 0;
        while row < n
            invariant
                self.wf(),
                n == self.size,
                row <= n,
                count == self.flat_tops_in_rows(row as int, player),
                count <= row * n,
            decreases n - row,
        {
            let ghost start = count;
            let mut col: usize = 0;
            while col < n
                invariant
                    self.wf(),
                    n == self.size,
                    row < n,
                    col <= n,
                    start == self.flat_tops_in_rows(row as int, player),
                    start <= row * n,
                    count == start + self.flat_tops_in_row(row as int, col as int, player),
                    count <= start + col,
                decreases n - col,
            {
                assert(row * n + n <= usize::MAX * usize::MAX) by (nonlinear_arith)
                    requires
                        row < n,
                        n <= usize::MAX,
                ;
                if self.is_flat_square(row, col, player) {
                    count = count + 1;
                }
                col = col + 1;
            }
            assert((row + 1) * n == row * n + n) by (nonlinear_arith);
            row = row + 1;
        }
        count
    }

    /// Whether `player` has no stone left in hand.
    pub fn is_hand_empty(&self, player: Player) -> (b: bool)
        ensures
            b == self.hand_empty(player),
    {
        let (flats, caps) = self.remaining_pieces(player);
        flats == 0 && caps == 0
    }

    /// Whether every square is occupied.
    pub fn is_board_full(&self) -> (b: bool)
        requires
            self.wf(),
        ensures
            b == self.full(),
    {
        let mut row: usize = 0;
        while row < self.size
            invariant
                self.wf(),
                row <= self.size,
                forall|r: int, c: int| 0 <= r < row && 0 <= c < self.size ==> (#[trigger] self.cell(r, c)).len() > 0,
            decreases self.size - row,
        {
            let mut col: usize = 0;
            while col < self.size
                invariant
                    self.wf(),
                    row < self.size,
                    col <= self.size,
                    forall|r: int, c: int| 0 <= r < row && 0 <= c < self.size ==> (#[trigger] self.cell(r, c)).len() > 0,
                    forall|c: int| 0 <= c < col ==> (#[trigger] self.cell(row as int, c)).len() > 0,
                decreases self.size - col,
            {
                if self.spaces[row][col].is_empty() {
                    assert(self.in_bounds(row as int, col as int) && self.cell(row as int, col as int).len() == 0);
                    return false;
                }
                col = col + 1;
            }
            row = row + 1;
        }
        true
    }

    /// The (flat stones, capstones) `player` still has in hand.
    pub fn remaining_pieces(&self, player: Player) -> (n: (usize, usize))
        ensures
            n.0 == self.flats_left(player),
            n.1 == self.caps_left(player),
    {
        match player {
            Player::White => (self.white_pieces, self.white_caps),
            Player::Black => (self.black_pieces, self.black_caps),
        }
    }
}

/// How full the board is, as the fraction (occupied squares, all squares).
pub fn calculate_board_fullness(board: &Board) -> (f: (usize, usize))
    requires
        board.wf(),
        board.size * board.size <= usize::MAX,
    ensures
        f.0 == board.occupied_count(),
        f.1 == board.size * board.size,
        f.0 <= f.1,
{
    let n = board.size;
    let total = n * n;
    let mut occupied: usize = 0;
    let mut row: usize = 0;
    while row < n
        invariant
            board.wf(),
            n == board.size,
            total == n * n,
            total <= usize::MAX,
            row <= n,
            occupied == board.occupied_in_rows(row as int),
            occupied <= row * n,
        decreases n - row,
    {
        let mut col: usize = 0;
        let ghost start = occupied;
        while col < n
            invariant
                board.wf(),
                n == board.size,
                total == n * n,
                total <= usize::MAX,
                row < n,
                col <= n,
                start == board.occupied_in_rows(row as int),
                start <= row * n,
                occupied == start + board.occupied_in_row(row as int, col as int),
                occupied <= start + col,
            decreases n - col,
        {
            assert((row + 1) * n == row * n + n) by (nonlinear_arith);
            assert(row * n + n <= n * n) by (nonlinear_arith)
                requires
                    row < n,
            ;
            if !board.spaces[row][col].is_empty() {
                occupied = occupied + 1;
            }
            col = col + 1;
        }
        assert((row + 1) * n == row * n + n) by (nonlinear_arith);
        row = row + 1;
    }
    (occupied, total)
}

/// Placing `piece` adds one stone of its owner and kind to the board and
/// changes no other count of stones on the board.
pub proof fn lemma_place_adds_stone(old: Board, new: Board, row: int, col: int, piece: Piece, p: Player, k: PieceType)
    requires
        old.wf(),
        old.in_bounds(row, col),
        new.is_placed(old, row, col, piece),
    ensures
        new.stones_on_board(p, k) == old.stones_on_board(p, k) + (if piece.player == p && piece.piece_type == k { 1int } else { 0int }),
{
    let f = |r: int, c: int| count_of(old.cell(r, c), p, k) as int;
    let g = |r: int, c: int| count_of(new.cell(r, c), p, k) as int;
    assert forall|r: int, c: int| 0 <= r < old.size && 0 <= c < old.size && !(r == row && c == col) implies #[trigger] f(r, c) == g(r, c) by {
        assert(new.cell(r, c) == old.cell(r, c));
    }
    lemma_sum_square_one(f, g, old.size as int, row, col);
    lemma_count_of_add(old.cell(row, col), seq![piece], p, k);
    assert(old.cell(row, col).push(piece) =~= old.cell(row, col) + seq![piece]);
    assert(count_of(seq![piece], p, k) == if piece.player == p && piece.piece_type == k { 1nat } else { 0nat }) by {
        assert(seq![piece].drop_last() =~= Seq::<Piece>::empty());
        assert(count_of(Seq::<Piece>::empty(), p, k) == 0);
    }
}

/// Placing a stone takes it from its owner's supply and puts it on the
/// board: for each side, the capstones on the board and in hand, and the
/// flat and standing stones on the board together with the flats in hand,
/// stay the same.
pub proof fn lemma_place_conserves_stones(old: Board, new: Board, row: int, col: int, piece: Piece, p: Player, k: PieceType)
    requires
        old.wf(),
        old.in_bounds(row, col),
        new.is_placed(old, row, col, piece),
    ensures
        new.kind_total(p, k) == old.kind_total(p, k),
{
    lemma_place_adds_stone(old, new, row, col, piece, p, PieceType::Flat);
    lemma_place_adds_stone(old, new, row, col, piece, p, PieceType::Standing);
    lemma_place_adds_stone(old, new, row, col, piece, p, PieceType::Capstone);
    assert(new.flats_left(p) == old.flats_left(p) - (if p == piece.player
        && piece.piece_type != PieceType::Capstone { 1int } else { 0int }));
    assert(new.caps_left(p) == old.caps_left(p) - (if p == piece.player
        && piece.piece_type == PieceType::Capstone { 1int } else { 0int }));
}

/// Moving stones between squares keeps the number of each side's stones of
/// each kind on the board.
pub proof fn lemma_move_keeps_board_count(old: Board, new: Board, fr: int, fc: int, tr: int, tc: int, count: int, p: Player, k: PieceType)
    requires
        old.wf(),
        old.in_bounds(fr, fc),
        old.in_bounds(tr, tc),
        !(fr == tr && fc == tc),
        0 <= count <= old.cell(fr, fc).len(),
        new.is_moved(old, fr, fc, tr, tc, count),
    ensures
        new.stones_on_board(p, k) == old.stones_on_board(p, k),
{
    let f = |r: int, c: int| count_of(old.cell(r, c), p, k) as int;
    let g = |r: int, c: int| count_of(new.cell(r, c), p, k) as int;
    assert forall|r: int, c: int|
        0 <= r < old.size && 0 <= c < old.size && !(r == fr && c == fc) && !(r == tr && c == tc)
        implies #[trigger] f(r, c) == g(r, c) by {
        assert(new.cell(r, c) == old.cell(r, c));
    }
    lemma_sum_square_two(f, g, old.size as int, fr, fc, tr, tc);
    let s = old.cell(fr, fc);
    let h = s.len() as int;
    lemma_count_of_add(s.subrange(0, h - count), s.subrange(h - count, h), p, k);
    assert(s.subrange(0, h - count) + s.subrange(h - count, h) =~= s);
    lemma_count_of_add(old.cell(tr, tc), s.subrange(h - count, h), p, k);
}

/// Moving stones between squares changes neither side's stones of any
/// kind on the board nor in hand.
pub proof fn lemma_move_conserves_stones(old: Board, new: Board, fr: int, fc: int, tr: int, tc: int, count: int, p: Player, k: PieceType)
    requires
        old.wf(),
        old.in_bounds(fr, fc),
        old.in_bounds(tr, tc),
        !(fr == tr && fc == tc),
        0 <= count <= old.cell(fr, fc).len(),
        new.is_moved(old, fr, fc, tr, tc, count),
    ensures
        new.stones_on_board(p, k) == old.stones_on_board(p, k),
        new.kind_total(p, k) == old.kind_total(p, k),
{
    lemma_move_keeps_board_count(old, new, fr, fc, tr, tc, count, p, PieceType::Flat);
    lemma_move_keeps_board_count(old, new, fr, fc, tr, tc, count, p, PieceType::Standing);
    lemma_move_keeps_board_count(old, new, fr, fc, tr, tc, count, p, PieceType::Capstone);
    assert(new.flats_left(p) == old.flats_left(p));
    assert(new.caps_left(p) == old.caps_left(p));
}

/// Moving the same number of stones straight back undoes a move: every
/// square and both hands are as they were before.
pub proof fn lemma_move_back_restores(
    b0: Board,
    b1: Board,
    b2: Board,
    fr: int,
    fc: int,
    tr: int,
    tc: int,
    count: int,
)
    requires
        b0.wf(),
        b0.in_bounds(fr, fc),
        b0.in_bounds(tr, tc),
        !(fr == tr && fc == tc),
        0 <= count <= b0.cell(fr, fc).len(),
        b1.is_moved(b0, fr, fc, tr, tc, count),
        b2.is_moved(b1, tr, tc, fr, fc, count),
    ensures
        b2.size == b0.size,
        b2.wf(),
        forall|r: int, c: int| b0.in_bounds(r, c) ==> #[trigger] b2.cell(r, c) == b0.cell(r, c),
        forall|p: Player| #[trigger] b2.flats_left(p) == b0.flats_left(p) && b2.caps_left(p) == b0.caps_left(p),
{
    let s = b0.cell(fr, fc);
    let d = b0.cell(tr, tc);
    let h = s.len() as int;
    let moved = s.subrange(h - count, h);
    assert(b1.cell(tr, tc) == d + moved);
    let l = (d + moved).len() as int;
    assert((d + moved).subrange(0, l - count) =~= d);
    assert((d + moved).subrange(l - count, l) =~= moved);
    assert(s.subrange(0, h - count) + moved =~= s);
    assert forall|r: int, c: int| b0.in_bounds(r, c) implies #[trigger] b2.cell(r, c) == b0.cell(r, c) by {
        if !(r == fr && c == fc) && !(r == tr && c == tc) {
            assert(b1.cell(r, c) == b0.cell(r, c));
        }
    }
}

/// On a full board every placement is refused.
pub proof fn lemma_full_board_refuses_placement(b: Board, row: int, col: int, player: Player, pt: PieceType)
    requires
        b.wf(),
        b.full(),
    ensures
        b.place_error(row, col, player, pt) is Some,
{
    if b.in_bounds(row, col) {
        assert(b.cell(row, col).len() > 0);
    }
}

/// 1 when the top stone of (`r`, `c`) is a flat stone of `p`, else 0.
pub open spec fn flat_top_indicator(b: Board, p: Player) -> spec_fn(int, int) -> int {
    |r: int, c: int| if b.cell(r, c).len() > 0 && b.cell(r, c).last() == (Piece { player: p, piece_type: PieceType::Flat }) {
        1int
    } else {
        0int
    }
}

proof fn lemma_flat_tops_row_sum(b: Board, p: Player, r: int, k: int)
    ensures
        b.flat_tops_in_row(r, k, p) == sum_range(|c: int| flat_top_indicator(b, p)(r, c), k),
    decreases k,
{
    if k > 0 {
        lemma_flat_tops_row_sum(b, p, r, k - 1);
    }
}

proof fn lemma_flat_tops_rows_sum(b: Board, p: Player, k: int)
    ensures
        b.flat_tops_in_rows(k, p) == sum_range(
            |r: int| sum_range(|c: int| flat_top_indicator(b, p)(r, c), b.size as int),
            k,
        ),
    decreases k,
{
    if k > 0 {
        lemma_flat_tops_rows_sum(b, p, k - 1);
        lemma_flat_tops_row_sum(b, p, k - 1, b.size as int);
    }
}

/// The flat count of `p` is the number of squares whose top stone is a
/// flat stone of `p`: squares topped by a standing stone or a capstone, and
/// stones under the top, count for no one.
pub proof fn lemma_flat_tops_counts_flat_top_squares(b: Board, p: Player)
    ensures
        b.flat_tops(p) == sum_square(flat_top_indicator(b, p), b.size as int),
{
    lemma_flat_tops_rows_sum(b, p, b.size as int);
}

/// Placing a stone on an empty square adds one to the flat count of its
/// owner when it is a flat stone, and changes no flat count otherwise: a
/// standing stone or a capstone is no flat.
pub proof fn lemma_place_changes_flat_count(old: Board, new: Board, row: int, col: int, piece: Piece, q: Player)
    requires
        old.wf(),
        old.in_bounds(row, col),
        old.cell(row, col).len() == 0,
        new.is_placed(old, row, col, piece),
    ensures
        new.flat_tops(q) == old.flat_tops(q) + (if piece.piece_type == PieceType::Flat && piece.player == q { 1int } else { 0int }),
{
    let f = flat_top_indicator(old, q);
    let g = flat_top_indicator(new, q);
    lemma_flat_tops_counts_flat_top_squares(old, q);
    lemma_flat_tops_counts_flat_top_squares(new, q);
    assert forall|r: int, c: int| 0 <= r < old.size && 0 <= c < old.size && !(r == row && c == col) implies #[trigger] f(r, c) == g(r, c) by {
        assert(new.cell(r, c) == old.cell(r, c));
    }
    lemma_sum_square_one(f, g, old.size as int, row, col);
    assert(new.cell(row, col) =~= seq![piece]);
}

/// A new board has no flat on top for either side.
pub proof fn lemma_new_board_has_no_flats(b: Board, p: Player)
    requires
        b.wf(),
        forall|r: int, c: int| b.in_bounds(r, c) ==> (#[trigger] b.cell(r, c)).len() == 0,
    ensures
        b.flat_tops(p) == 0,
{
    let f = flat_top_indicator(b, p);
    lemma_flat_tops_counts_flat_top_squares(b, p);
    assert forall|r: int, c: int| 0 <= r < b.size && 0 <= c < b.size implies #[trigger] f(r, c) == 0 by {
        assert(b.in_bounds(r, c));
    }
    lemma_sum_square_zero(f, b.size as int);
}

} // verus!
