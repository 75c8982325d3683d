use vstd::prelude::*;
use crate::piece::{Piece, PieceType, Player};

verus! {

/// The player whose stone is on top of `s`, if any.
pub open spec fn seq_controller(s: Seq<Piece>) -> Option<Player> {
    if s.len() == 0 {
        None
    } else {
        Some(s.last().player)
    }
}

/// `s` has a standing stone on top.
pub open spec fn seq_blocking(s: Seq<Piece>) -> bool {
    s.len() > 0 && s.last().piece_type != PieceType::Flat
}

/// The number of stones of `p` of kind `k` in `s`.
pub open spec fn count_of(s: Seq<Piece>, p: Player, k: PieceType) -> nat
    decreases s.len(),
{
    if s.len() == 0 {
        0
    } else {
        count_of(s.drop_last(), p, k) + if s.last().player == p && s.last().piece_type == k { 1nat } else { 0nat }
    }
}

/// Counting stones is additive over concatenation.
pub proof fn lemma_count_of_add(a: Seq<Piece>, b: Seq<Piece>, p: Player, k: PieceType)
    ensures
        count_of(a + b, p, k) == count_of(a, p, k) + count_of(b, p, k),
    decreases b.len(),
{
    if b.len() == 0 {
        assert(a + b =~= a);
    } else {
        assert((a + b).drop_last() =~= a + b.drop_last());
        lemma_count_of_add(a, b.drop_last(), p, k);
    }
}

/// A pile of stones on one square, bottom first.
#[derive(Clone, Debug)]
pub struct Stack(pub Vec<Piece>);

impl View for Stack {
    type V = Seq<Piece>;

    open spec fn view(&self) -> Seq<Piece> {
        self.0@
    }
}

impl Stack {
    /// An empty stack.
    pub fn new() -> (s: Self)
        ensures
            s@ == Seq::<Piece>::empty(),
    {
        Stack(Vec::new())
    }

    /// Whether no stone is on this square.
    pub fn is_empty(&self) -> (b: bool)
        ensures
            b == (self@.len() == 0),
    {
        self.0.len() == 0
    }

    /// The top stone, if any.
    pub fn top_piece(&self) -> (t: Option<&Piece>)
        ensures
            self@.len() == 0 ==> t is None,
            self@.len() > 0 ==> t == Some(&self@.last()),
    {
        let n = self.0.len();
        if n == 0 {
            None
        } else {
            Some(&self.0[n - 1])
        }
    }

    /// The owner of the top stone, if any.
    pub fn controller(&self) -> (c: Option<Player>)
        ensures
            c == seq_controller(self@),
    {
        match self.top_piece() {
            Some(p) => Some(p.player),
            None => None,
        }
    }

    /// Whether a standing stone is on top.
    pub fn is_blocking(&self) -> (b: bool)
        ensures
            b == seq_blocking(self@),
    {
        if let Some(piece) = self.top_piece() {
            match piece.piece_type {
                PieceType::Flat => false,
                PieceType::Standing => true,
                PieceType::Capstone => true,
            }
        } else {
            false
        }
    }

    /// Puts a stone on top.
    pub fn add_piece(&mut self, piece: Piece)
        ensures
            final(self)@ == old(self)@.push(piece),
    {
        self.0.push(piece);
    }

    /// Takes the top `n` stones off (all of them if `n` is at least the
    /// height) and returns them, bottom first. What stays, followed by
    /// what was taken, is the stack as it was.
    pub fn take_n(&mut self, n: usize) -> (taken: Vec<Piece>)
        ensures
            n >= old(self)@.len() ==> taken@ == old(self)@ && final(self)@.len() == 0,
            n < old(self)@.len() ==> taken@ == old(self)@.subrange(
                old(self)@.len() - n,
                old(self)@.len() as int,
            ) && final(self)@ == old(self)@.subrange(0, old(self)@.len() - n),
            final(self)@ + taken@ == old(self)@,
    {
        let stack_size = self.0.len();
        if n >= stack_size {
            let result = self.0.split_off(0);
            assert(self@ + result@ =~= old(self)@);
            result
        } else {
            let result = self.0.split_off(stack_size - n);
            assert(self@ + result@ =~= old(self)@);
            result
        }
    }

    /// The number of stones on this square.
    pub fn height(&self) -> (h: usize)
        ensures
            h == self@.len(),
    {
        self.0.len()
    }
}

} // verus!
