use vstd::prelude::*;
use vstd::string::StringExecFns;
use crate::board::Board;
use crate::piece::{Piece, PieceType, Player};

verus! {

/// The digit `d` (0 to 9) as text.
pub open spec fn digit_text(d: int) -> Seq<char> {
    if d == 0 { "0"@ } else if d == 1 { "1"@ } else if d == 2 { "2"@ } else if d == 3 { "3"@ } else if d == 4 {
        "4"@
    } else if d == 5 { "5"@ } else if d == 6 { "6"@ } else if d == 7 { "7"@ } else if d == 8 { "8"@ } else { "9"@ }
}

/// `n` written in decimal.
pub open spec fn decimal_text(n: nat) -> Seq<char>
    decreases n,
{
    if n < 10 {
        digit_text(n as int)
    } else {
        decimal_text(n / 10) + digit_text((n % 10) as int)
    }
}

/// The symbol shown for a stone on top of a square.
pub open spec fn symbol_text(p: Piece) -> Seq<char> {
    match (p.player, p.piece_type) {
        (Player::White, PieceType::Flat) => "W"@,
        (Player::Black, PieceType::Flat) => "B"@,
        (Player::White, PieceType::Standing) => "WS"@,
        (Player::Black, PieceType::Standing) => "BS"@,
        (Player::White, PieceType::Capstone) => "WC"@,
        (Player::Black, PieceType::Capstone) => "BC"@,
    }
}

/// A square as shown: "[ ]" when empty, otherwise the top stone's symbol,
/// followed by the height when more than one stone is there.
pub open spec fn cell_text(s: Seq<Piece>) -> Seq<char> {
    if s.len() == 0 {
        "[ ]"@
    } else if s.len() > 1 {
        "["@ + symbol_text(s.last()) + decimal_text(s.len()) + "]"@
    } else {
        "["@ + symbol_text(s.last()) + "]"@
    }
}

/// The column numbers 0 to `k - 1`, each as " i ".
pub open spec fn header_text(k: int) -> Seq<char>
    decreases k,
{
    if k <= 0 {
        Seq::empty()
    } else {
        header_text(k - 1) + " "@ + decimal_text((k - 1) as nat) + " "@
    }
}

/// One line per board row: its number, a space, its squares and a line end.
impl Board {
    /// The first `k` squares of row `r`, as shown.
    pub open spec fn row_text(&self, r: int, k: int) -> Seq<char>
        decreases k,
    {
        if k <= 0 {
            Seq::empty()
        } else {
            self.row_text(r, k - 1) + cell_text(self.cell(r, k - 1))
        }
    }

    /// The first `k` rows, as shown.
    pub open spec fn rows_text(&self, k: int) -> Seq<char>
        decreases k,
    {
        if k <= 0 {
            Seq::empty()
        } else {
            self.rows_text(k - 1) + decimal_text((k - 1) as nat) + " "@ + self.row_text(k - 1, self.size as int)
                + "\n"@
        }
    }

    /// The board as the game shows it: a line of column numbers, a line per
    /// row, and a line per side with the stones still in hand.
    pub open spec fn board_text(&self) -> Seq<char> {
        "  "@ + header_text(self.size as int) + "\n"@ + self.rows_text(self.size as int) + "White: "@
            + decimal_text(self.white_pieces as nat) + " flat, "@ + decimal_text(self.white_caps as nat)
            + " capstone\n"@ + "Black: "@ + decimal_text(self.black_pieces as nat) + " flat, "@
            + decimal_text(self.black_caps as nat) + " capstone\n"@
    }

    /// The board as the game shows it (see `board_text`).
    pub fn render(&self) -> (s: String)
        requires
            self.wf(),
        ensures
            s@ == self.board_text(),
    {
        let n = self.size;
        let mut s = String::new();
        s.append("  ");
        let mut i: usize = 0;
        while i < n
            invariant
                i <= n,
                s@ == "  "@ + header_text(i as int),
            decreases n - i,
        {
            s.append(" ");
            push_decimal(&mut s, i);
            s.append(" ");
            i = i + 1;
        }
        s.append("\n");
        let ghost head = s@;
        let mut row: usize = 0;
        while row < n
            invariant
                self.wf(),
                n == self.size,
                row <= n,
                s@ == head + self.rows_text(row as int),
            decreases n - row,
        {
            push_decimal(&mut s, row);
            s.append(" ");
            let mut col: usize = 0;
            let ghost line_start = s@;
            while col < n
                invariant
                    self.wf(),
                    n == self.size,
                    row < n,
                    col <= n,
                    s@ == line_start + self.row_text(row as int, col as int),
                decreases n - col,
            {
                let height = self.height_at(row, col);
                if height == 0 {
                    s.append("[ ]");
                } else {
                    s.append("[");
                    s.append(self.cell_symbol(row, col));
                    if height > 1 {
                        push_decimal(&mut s, height);
                    }
                    s.append("]");
                }
                col = col + 1;
            }
            s.append("\n");
            row = row + 1;
        }
        s.append("White: ");
        push_decimal(&mut s, self.white_pieces);
        s.append(" flat, ");
        push_decimal(&mut s, self.white_caps);
        s.append(" capstone\n");
        s.append("Black: ");
        push_decimal(&mut s, self.black_pieces);
        s.append(" flat, ");
        push_decimal(&mut s, self.black_caps);
        s.append(" capstone\n");
        s
    }
}

/// Appends `n` in decimal to `s`.
fn push_decimal(s: &mut String, n: usize)
    ensures
        final(s)@ == old(s)@ + decimal_text(n as nat),
    decreases n,
{
    if n >= 10 {
        push_decimal(s, n / 10);
    }
    let d = n % 10;
    if d == 0 {
        s.append("0");
    } else if d == 1 {
        s.append("1");
    } else if d == 2 {
        s.append("2");
    } else if d == 3 {
        s.append("3");
    } else if d == 4 {
        s.append("4");
    } else if d == 5 {
        s.append("5");
    } else if d == 6 {
        s.append("6");
    } else if d == 7 {
        s.append("7");
    } else if d == 8 {
        s.append("8");
    } else {
        s.append("9");
    }
}

} // verus!
