use vstd::prelude::*;

verus! {

/// The three kinds of stone. A flat stone counts for a road and for the
/// count of flats; a standing stone blocks movement onto its square and
/// counts for neither; a capstone blocks movement onto its square and counts
/// for a road. Flat and standing stones come from the same supply of flats.
#[derive(Clone, Copy, PartialEq, Eq, Structural, Debug)]
pub enum PieceType {
    Flat,
    Standing,
    Capstone,
}

/// The two sides.
#[derive(Clone, Copy, PartialEq, Eq, Structural, Debug)]
pub enum Player {
    White,
    Black,
}

/// One stone on the board.
#[derive(Clone, Copy, PartialEq, Eq, Structural, Debug)]
pub struct Piece {
    pub player: Player,
    pub piece_type: PieceType,
}

/// The side that plays after `p`.
pub open spec fn other_player(p: Player) -> Player {
    match p {
        Player::White => Player::Black,
        Player::Black => Player::White,
    }
}

impl Player {
    /// The player's name as the game prints it.
    pub fn name(&self) -> (s: &'static str)
        ensures
            *self == Player::White ==> s@ == "White"@,
            *self == Player::Black ==> s@ == "Black"@,
    {
        match self {
            Player::White => "White",
            Player::Black => "Black",
        }
    }

    /// The side that plays after this one.
    pub fn opponent(&self) -> (p: Player)
        ensures
            p == other_player(*self),
    {
        match self {
            Player::White => Player::Black,
            Player::Black => Player::White,
        }
    }
}

} // verus!
