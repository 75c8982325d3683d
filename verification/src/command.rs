use vstd::prelude::*;
use crate::board::Direction;
use crate::game::GameMove;
use crate::piece::PieceType;

verus! {

/// A line typed by a player, read the way the game reads it.
#[derive(Clone, PartialEq, Eq, Debug)]
pub enum Command {
    /// Nothing but white space.
    Empty,
    /// "place" without exactly three arguments.
    PlaceWrongArity,
    /// "place" with a piece word other than "flat" or "cap".
    BadPieceType,
    /// "move" without exactly five arguments.
    MoveWrongArity,
    /// "quit".
    Quit,
    /// "hint": ask the computer for a suggestion.
    Hint,
    /// Any other first word.
    Unknown,
    /// A move to play.
    Play(GameMove),
    /// Carry `count` stones from (`row`, `col`) in `direction`, dropping
    /// `drops[0]` on the first square, `drops[1]` on the next, and so on.
    Spread { row: usize, col: usize, direction: Direction, count: usize, drops: Vec<usize> },
}

/// What a `Command` says, with the drops of a spread as a sequence.
pub enum CommandView {
    Empty,
    PlaceWrongArity,
    BadPieceType,
    MoveWrongArity,
    Quit,
    Hint,
    Unknown,
    Play(GameMove),
    Spread { row: usize, col: usize, direction: Direction, count: usize, drops: Seq<usize> },
}

impl View for Command {
    type V = CommandView;

    open spec fn view(&self) -> CommandView {
        match self {
            Command::Empty => CommandView::Empty,
            Command::PlaceWrongArity => CommandView::PlaceWrongArity,
            Command::BadPieceType => CommandView::BadPieceType,
            Command::MoveWrongArity => CommandView::MoveWrongArity,
            Command::Quit => CommandView::Quit,
            Command::Hint => CommandView::Hint,
            Command::Unknown => CommandView::Unknown,
            Command::Play(m) => CommandView::Play(*m),
            Command::Spread { row, col, direction, count, drops } => CommandView::Spread {
                row: *row,
                col: *col,
                direction: *direction,
                count: *count,
                drops: drops@,
            },
        }
    }
}

/// `ch` names a column: 'a' is column 0, 'b' column 1, and so on.
pub open spec fn is_column_letter(ch: char) -> bool {
    'a' <= ch && ch <= 'z'
}

/// `ch` is a digit from 1 to 9.
pub open spec fn is_nonzero_digit(ch: char) -> bool {
    '1' <= ch && ch <= '9'
}

/// The value of the digit `ch`.
pub open spec fn digit_value(ch: char) -> usize {
    ((ch as int) - ('0' as int)) as usize
}

/// The direction a move symbol names: '+' up the row numbers, so that
/// `a1+` goes to a2 (row index up by one, `South`); '-' down the row
/// numbers (`North`); '>' to the next column letter (`East`); '<' to the
/// previous one (`West`).
pub open spec fn direction_symbol(ch: char) -> Option<Direction> {
    if ch == '+' {
        Some(Direction::South)
    } else if ch == '-' {
        Some(Direction::North)
    } else if ch == '>' {
        Some(Direction::East)
    } else if ch == '<' {
        Some(Direction::West)
    } else {
        None
    }
}

/// `a` and `b` name a square: a column letter and a row number from 1 to 9.
pub open spec fn names_square(a: char, b: char) -> bool {
    is_column_letter(a) && is_nonzero_digit(b)
}

/// Every character of `t` is a digit from 1 to 9.
pub open spec fn all_nonzero_digits(t: Seq<char>) -> bool {
    forall|i: int| 0 <= i < t.len() ==> is_nonzero_digit(#[trigger] t[i])
}

/// The command a word in move notation stands for: `a1` places a flat
/// stone on column a, row 1 (row index 0); `Sa1` places a standing stone
/// and `Ca1` a capstone; `a1>` moves the top stone one square; `3a1>` moves three
/// stones one square; `3a1>12` carries three stones, dropping one on the
/// first square and two on the second. `None` for any other word.
pub open spec fn notation_command(t: Seq<char>) -> Option<CommandView> {
    if t.len() == 2 && names_square(t[0], t[1]) {
        Some(CommandView::Play(GameMove::Place {
            row: (digit_value(t[1]) - 1) as usize,
            col: ((t[0] as int) - ('a' as int)) as usize,
            piece_type: PieceType::Flat,
        }))
    } else if t.len() == 3 && (t[0] == 'S' || t[0] == 'C') && names_square(t[1], t[2]) {
        Some(CommandView::Play(GameMove::Place {
            row: (digit_value(t[2]) - 1) as usize,
            col: ((t[1] as int) - ('a' as int)) as usize,
            piece_type: if t[0] == 'S' { PieceType::Standing } else { PieceType::Capstone },
        }))
    } else if t.len() == 3 && names_square(t[0], t[1]) && direction_symbol(t[2]) is Some {
        Some(CommandView::Spread {
            row: (digit_value(t[1]) - 1) as usize,
            col: ((t[0] as int) - ('a' as int)) as usize,
            direction: direction_symbol(t[2])->0,
            count: 1,
            drops: seq![1usize],
        })
    } else if t.len() >= 4 && is_nonzero_digit(t[0]) && names_square(t[1], t[2]) && direction_symbol(t[3]) is Some
        && all_nonzero_digits(t.subrange(4, t.len() as int)) {
        Some(CommandView::Spread {
            row: (digit_value(t[2]) - 1) as usize,
            col: ((t[1] as int) - ('a' as int)) as usize,
            direction: direction_symbol(t[3])->0,
            count: digit_value(t[0]),
            drops: if t.len() == 4 {
                seq![digit_value(t[0])]
            } else {
                t.subrange(4, t.len() as int).map_values(|ch: char| digit_value(ch))
            },
        })
    } else {
        None
    }
}

/// `c` has the Unicode White_Space property.
pub open spec fn is_white_space(c: char) -> bool {
    ||| ('\u{9}' <= c && c <= '\u{d}')
    ||| c == ' '
    ||| c == '\u{85}'
    ||| c == '\u{a0}'
    ||| c == '\u{1680}'
    ||| ('\u{2000}' <= c && c <= '\u{200a}')
    ||| c == '\u{2028}'
    ||| c == '\u{2029}'
    ||| c == '\u{202f}'
    ||| c == '\u{205f}'
    ||| c == '\u{3000}'
}

/// The maximal runs of non-white-space characters of `s`, in order.
pub open spec fn words(s: Seq<char>) -> Seq<Seq<char>>
    decreases s.len(),
{
    if s.len() == 0 {
        Seq::empty()
    } else {
        let before = words(s.drop_last());
        let ch = s.last();
        if is_white_space(ch) {
            before
        } else if s.len() >= 2 && !is_white_space(s[s.len() - 2]) {
            before.update(before.len() - 1, before.last().push(ch))
        } else {
            before.push(seq![ch])
        }
    }
}

/// The value of the decimal digits `d`.
pub open spec fn decimal_value(d: Seq<char>) -> nat
    decreases d.len(),
{
    if d.len() == 0 {
        0
    } else {
        decimal_value(d.drop_last()) * 10 + ((d.last() as nat) - ('0' as nat)) as nat
    }
}

/// `c` is an ASCII digit.
pub open spec fn is_digit(c: char) -> bool {
    '0' <= c && c <= '9'
}

/// `t` without a leading '+'.
pub open spec fn unsigned_digits(t: Seq<char>) -> Seq<char> {
    if t.len() > 0 && t[0] == '+' {
        t.drop_first()
    } else {
        t
    }
}

/// Every character of `d` is an ASCII digit.
pub open spec fn all_digits(d: Seq<char>) -> bool {
    forall|i: int| 0 <= i < d.len() ==> is_digit(#[trigger] d[i])
}

/// What `usize::from_str` gives for `t`: an optional '+' followed by at
/// least one digit, with a value that fits.
pub open spec fn parsed_usize(t: Seq<char>) -> Option<usize> {
    let d = unsigned_digits(t);
    if d.len() == 0 || !all_digits(d) {
        None
    } else if decimal_value(d) > usize::MAX {
        None
    } else {
        Some(decimal_value(d) as usize)
    }
}

/// `t` read as a number, or `default` when it is not one.
pub open spec fn number_or_spec(t: Seq<char>, default: usize) -> usize {
    match parsed_usize(t) {
        Some(v) => v,
        None => default,
    }
}

/// The command a line with the words `w` stands for.
pub open spec fn command_of_words(w: Seq<Seq<char>>) -> CommandView {
    if w.len() == 0 {
        CommandView::Empty
    } else if w[0] == seq!['p', 'l', 'a', 'c', 'e'] {
        if w.len() != 4 {
            CommandView::PlaceWrongArity
        } else if w[3] == seq!['f', 'l', 'a', 't'] {
            CommandView::Play(GameMove::Place { row: number_or_spec(w[1], 999), col: number_or_spec(w[2], 999), piece_type: PieceType::Flat })
        } else if w[3] == seq!['c', 'a', 'p'] {
            CommandView::Play(GameMove::Place { row: number_or_spec(w[1], 999), col: number_or_spec(w[2], 999), piece_type: PieceType::Capstone })
        } else {
            CommandView::BadPieceType
        }
    } else if w[0] == seq!['m', 'o', 'v', 'e'] {
        if w.len() != 6 {
            CommandView::MoveWrongArity
        } else {
            CommandView::Play(GameMove::Move {
                from_row: number_or_spec(w[1], 999),
                from_col: number_or_spec(w[2], 999),
                to_row: number_or_spec(w[3], 999),
                to_col: number_or_spec(w[4], 999),
                count: number_or_spec(w[5], 0),
            })
        }
    } else if w[0] == seq!['q', 'u', 'i', 't'] {
        CommandView::Quit
    } else if w[0] == seq!['h', 'i', 'n', 't'] {
        CommandView::Hint
    } else if w.len() == 1 && notation_command(w[0]) is Some {
        notation_command(w[0])->0
    } else {
        CommandView::Unknown
    }
}

/// Whether `c` has the Unicode White_Space property.
pub fn is_whitespace_char(c: char) -> (b: bool)
    ensures
        b == is_white_space(c),
{
    ('\u{9}' <= c && c <= '\u{d}') || c == ' ' || c == '\u{85}' || c == '\u{a0}' || c == '\u{1680}'
        || ('\u{2000}' <= c && c <= '\u{200a}') || c == '\u{2028}' || c == '\u{2029}' || c == '\u{202f}'
        || c == '\u{205f}' || c == '\u{3000}'
}

/// The views of a list of words.
pub open spec fn views(v: Seq<Vec<char>>) -> Seq<Seq<char>> {
    v.map_values(|t: Vec<char>| t@)
}

/// Splits `line` into its words: the maximal runs of characters that are
/// not white space.
pub fn split_words(line: &str) -> (w: Vec<Vec<char>>)
    ensures
        views(w@) == words(line@),
{
    let mut w: Vec<Vec<char>> = Vec::new();
    let mut in_word = false;
    let ghost mut seen: Seq<char> = Seq::empty();
    for ch in it: line.chars()
        invariant
            it.seq() == line@,
            seen == line@.take(it.index() as int),
            views(w@) == words(seen),
            in_word == (seen.len() > 0 && !is_white_space(seen.last())),
            in_word ==> w@.len() > 0,
    {
        let ghost prev = seen;
        proof {
            seen = seen.push(ch);
            assert(seen.drop_last() =~= prev);
            assert(seen =~= line@.take(it.index() + 1));
        }
        if is_whitespace_char(ch) {
            in_word = false;
        } else if in_word {
            let last = w.len() - 1;
            let ghost before = w@;
            w[last].push(ch);
            assert(views(w@) =~= views(before).update(last as int, views(before)[last as int].push(ch)));
            in_word = true;
        } else {
            let ghost before = w@;
            let mut t: Vec<char> = Vec::new();
            t.push(ch);
            w.push(t);
            assert(t@ =~= seq![ch]);
            assert(views(w@) =~= views(before).push(seq![ch]));
            in_word = true;
        }
    }
    proof {
        assert(seen =~= line@);
    }
    w
}

/// `usize::from_str` on the characters `t`: an optional '+' and then
/// decimal digits whose value fits in `usize`.
pub fn parse_usize(t: &Vec<char>) -> (o: Option<usize>)
    ensures
        o == parsed_usize(t@),
{
    let n = t.len();
    let start: usize = if n > 0 && t[0] == '+' { 1 } else { 0 };
    let ghost d = unsigned_digits(t@);
    assert(d =~= t@.subrange(start as int, n as int));
    if start == n {
        return None;
    }
    let mut acc: usize = 0;
    let mut overflow = false;
    let mut i: usize = start;
    while i < n
        invariant
            n == t@.len(),
            start <= i <= n,
            start < n,
            d == t@.subrange(start as int, n as int),
            d == unsigned_digits(t@),
            forall|j: int| start <= j < i ==> is_digit(#[trigger] t@[j]),
            !overflow ==> acc == decimal_value(t@.subrange(start as int, i as int)),
            overflow ==> decimal_value(t@.subrange(start as int, i as int)) > usize::MAX,
        decreases n - i,
    {
        let c = t[i];
        if !('0' <= c && c <= '9') {
            assert(d[i - start] == c);
            assert(!is_digit(d[i - start]));
            assert(d.len() > 0);
            return None;
        }
        let dig: usize = (c as u32 - 48) as usize;
        assert(t@.subrange(start as int, i + 1).drop_last() =~= t@.subrange(start as int, i as int));
        assert(dig == (c as nat) - ('0' as nat));
        if !overflow {
            if acc > (usize::MAX - dig) / 10 {
                assert(acc * 10 + dig > usize::MAX) by (nonlinear_arith)
                    requires
                        acc > (usize::MAX - dig) / 10,
                        dig <= 9,
                ;
                overflow = true;
            } else {
                assert(acc * 10 + dig <= usize::MAX) by (nonlinear_arith)
                    requires
                        acc <= (usize::MAX - dig) / 10,
                        dig <= 9,
                ;
                acc = acc * 10 + dig;
            }
        }
        i = i + 1;
    }
    assert(t@.subrange(start as int, n as int) == d);
    assert(forall|j: int| 0 <= j < d.len() ==> is_digit(#[trigger] d[j])) by {
        assert forall|j: int| 0 <= j < d.len() implies is_digit(#[trigger] d[j]) by {
            assert(d[j] == t@[start + j]);
        }
    }
    if overflow {
        None
    } else {
        Some(acc)
    }
}

/// `t` read as a number, or `default` when it is not one.
pub fn number_or(t: &Vec<char>, default: usize) -> (v: usize)
    ensures
        v == number_or_spec(t@, default),
{
    match parse_usize(t) {
        Some(v) => v,
        None => default,
    }
}

/// Whether the characters of `t` are those of `w`.
fn same_chars(t: &Vec<char>, w: &Vec<char>) -> (b: bool)
    ensures
        b == (t@ == w@),
{
    if t.len() != w.len() {
        return false;
    }
    let mut i: usize = 0;
    while i < t.len()
        invariant
            t@.len() == w@.len(),
            i <= t@.len(),
            forall|j: int| 0 <= j < i ==> t@[j] == w@[j],
        decreases t@.len() - i,
    {
        if t[i] != w[i] {
            return false;
        }
        i = i + 1;
    }
    assert(t@ =~= w@);
    true
}

/// Reads a typed line as the game does: "place ROW COL flat|cap",
/// "move FROM_ROW FROM_COL TO_ROW TO_COL COUNT", "quit", "hint", or one
/// word of move notation (see `notation_command`). Numbers that do not
/// parse become 999 (or 0 for a count).
pub fn parse_command(line: &str) -> (c: Command)
    ensures
        c@ == command_of_words(words(line@)),
{
    let w = split_words(line);
    let ghost ws = words(line@);
    assert(ws.len() == w@.len());
    assert(forall|i: int| 0 <= i < w@.len() ==> #[trigger] ws[i] == w@[i]@);
    if w.len() == 0 {
        return Command::Empty;
    }
    let place: Vec<char> = vec!['p', 'l', 'a', 'c', 'e'];
    let mv: Vec<char> = vec!['m', 'o', 'v', 'e'];
    let quit: Vec<char> = vec!['q', 'u', 'i', 't'];
    let flat: Vec<char> = vec!['f', 'l', 'a', 't'];
    let cap: Vec<char> = vec!['c', 'a', 'p'];
    let hint: Vec<char> = vec!['h', 'i', 'n', 't'];
    assert(hint@ =~= seq!['h', 'i', 'n', 't']);
    assert(place@ =~= seq!['p', 'l', 'a', 'c', 'e']);
    assert(mv@ =~= seq!['m', 'o', 'v', 'e']);
    assert(quit@ =~= seq!['q', 'u', 'i', 't']);
    assert(flat@ =~= seq!['f', 'l', 'a', 't']);
    assert(cap@ =~= seq!['c', 'a', 'p']);
    if same_chars(&w[0], &place) {
        if w.len() != 4 {
            return Command::PlaceWrongArity;
        }
        let row = number_or(&w[1], 999);
        let col = number_or(&w[2], 999);
        if same_chars(&w[3], &flat) {
            Command::Play(GameMove::Place { row, col, piece_type: PieceType::Flat })
        } else if same_chars(&w[3], &cap) {
            Command::Play(GameMove::Place { row, col, piece_type: PieceType::Capstone })
        } else {
            Command::BadPieceType
        }
    } else if same_chars(&w[0], &mv) {
        if w.len() != 6 {
            return Command::MoveWrongArity;
        }
        let from_row = number_or(&w[1], 999);
        let from_col = number_or(&w[2], 999);
        let to_row = number_or(&w[3], 999);
        let to_col = number_or(&w[4], 999);
        let count = number_or(&w[5], 0);
        Command::Play(GameMove::Move { from_row, from_col, to_row, to_col, count })
    } else if same_chars(&w[0], &quit) {
        Command::Quit
    } else if same_chars(&w[0], &hint) {
        Command::Hint
    } else if w.len() == 1 {
        match parse_notation(&w[0]) {
            Some(c) => c,
            None => Command::Unknown,
        }
    } else {
        Command::Unknown
    }
}

/// The direction a move symbol names, if it is one.
fn direction_of_symbol(ch: char) -> (d: Option<Direction>)
    ensures
        d == direction_symbol(ch),
{
    if ch == '+' {
        Some(Direction::South)
    } else if ch == '-' {
        Some(Direction::North)
    } else if ch == '>' {
        Some(Direction::East)
    } else if ch == '<' {
        Some(Direction::West)
    } else {
        None
    }
}

/// Whether `a` and `b` name a square.
fn is_square_name(a: char, b: char) -> (r: bool)
    ensures
        r == names_square(a, b),
{
    'a' <= a && a <= 'z' && '1' <= b && b <= '9'
}

/// Reads one word of move notation (see `notation_command`).
pub fn parse_notation(t: &Vec<char>) -> (o: Option<Command>)
    ensures
        o is None <==> notation_command(t@) is None,
        o matches Some(c) ==> Some(c@) == notation_command(t@),
{
    let n = t.len();
    if n == 2 && is_square_name(t[0], t[1]) {
        let row = (t[1] as u32 - 49) as usize;
        let col = (t[0] as u32 - 97) as usize;
        return Some(Command::Play(GameMove::Place { row, col, piece_type: PieceType::Flat }));
    }
    if n == 3 && (t[0] == 'S' || t[0] == 'C') && is_square_name(t[1], t[2]) {
        let row = (t[2] as u32 - 49) as usize;
        let col = (t[1] as u32 - 97) as usize;
        let piece_type = if t[0] == 'S' { PieceType::Standing } else { PieceType::Capstone };
        return Some(Command::Play(GameMove::Place { row, col, piece_type }));
    }
    if n == 3 && is_square_name(t[0], t[1]) {
        if let Some(direction) = direction_of_symbol(t[2]) {
            let row = (t[1] as u32 - 49) as usize;
            let col = (t[0] as u32 - 97) as usize;
            let mut drops: Vec<usize> = Vec::new();
            drops.push(1);
            assert(drops@ =~= seq![1usize]);
            return Some(Command::Spread { row, col, direction, count: 1, drops });
        }
    }
    if n >= 4 && '1' <= t[0] && t[0] <= '9' && is_square_name(t[1], t[2]) {
        if let Some(direction) = direction_of_symbol(t[3]) {
            let count = (t[0] as u32 - 48) as usize;
            let row = (t[2] as u32 - 49) as usize;
            let col = (t[1] as u32 - 97) as usize;
            let mut drops: Vec<usize> = Vec::new();
            if n == 4 {
                drops.push(count);
                assert(drops@ =~= seq![count]);
                return Some(Command::Spread { row, col, direction, count, drops });
            }
            let ghost tail = t@.subrange(4, n as int);
            let mut i: usize = 4;
            while i < n
                invariant
                    4 <= i <= n,
                    n == t@.len(),
                    tail == t@.subrange(4, n as int),
                    drops@ == tail.subrange(0, i - 4).map_values(|ch: char| digit_value(ch)),
                    all_nonzero_digits(tail.subrange(0, i - 4)),
                decreases n - i,
            {
                let ch = t[i];
                if !('1' <= ch && ch <= '9') {
                    assert(tail[i - 4] == ch);
                    assert(!is_nonzero_digit(tail[i - 4]));
                    return None;
                }
                drops.push((ch as u32 - 48) as usize);
                assert(tail.subrange(0, i + 1 - 4) =~= tail.subrange(0, i - 4).push(ch));
                assert(drops@ =~= tail.subrange(0, i + 1 - 4).map_values(|ch: char| digit_value(ch)));
                i = i + 1;
            }
            assert(tail.subrange(0, n - 4) =~= tail);
            return Some(Command::Spread { row, col, direction, count, drops });
        }
    }
    None
}

/// Appending a word without white space to text that is empty or ends in
/// white space adds that word at the end of its words.
proof fn lemma_words_push_word(s: Seq<char>, t: Seq<char>)
    requires
        t.len() > 0,
        forall|i: int| 0 <= i < t.len() ==> !is_white_space(#[trigger] t[i]),
        s.len() == 0 || is_white_space(s.last()),
    ensures
        words(s + t) == words(s).push(t),
    decreases t.len(),
{
    let u = s + t;
    assert(u.last() == t.last());
    if t.len() == 1 {
        assert(u.drop_last() =~= s);
        assert(t =~= seq![t[0]]);
        if s.len() > 0 {
            assert(u[u.len() - 2] == s.last());
        }
    } else {
        let t0 = t.drop_last();
        assert(u.drop_last() =~= s + t0);
        lemma_words_push_word(s, t0);
        assert(u[u.len() - 2] == t[t.len() - 2]);
        assert(!is_white_space(t[t.len() - 2]));
        let before = words(s).push(t0);
        assert(t0.push(t.last()) =~= t);
        assert(before.update(before.len() - 1, before.last().push(t.last())) =~= words(s).push(t));
    }
}

/// A trailing space adds no word.
proof fn lemma_words_space(s: Seq<char>)
    ensures
        words(s + seq![' ']) == words(s),
{
    assert((s + seq![' ']).drop_last() =~= s);
}

/// `t` is a number word: one or more decimal digits whose value fits.
pub open spec fn is_number_word(t: Seq<char>) -> bool {
    t.len() > 0 && all_digits(t) && decimal_value(t) <= usize::MAX
}

proof fn lemma_number_word(t: Seq<char>)
    requires
        is_number_word(t),
    ensures
        forall|i: int| 0 <= i < t.len() ==> !is_white_space(#[trigger] t[i]),
        number_or_spec(t, 999) == decimal_value(t) as usize,
        number_or_spec(t, 0) == decimal_value(t) as usize,
{
    assert(is_digit(t[0]));
    assert(unsigned_digits(t) == t);
    assert forall|i: int| 0 <= i < t.len() implies !is_white_space(#[trigger] t[i]) by {
        assert(is_digit(t[i]));
    }
}

/// The line "move a b c d e", its numbers separated by single spaces, reads
/// as the move of the top `e` stones from row `a`, column `b` to row `c`,
/// column `d`: every field takes the number at its own place.
pub proof fn lemma_move_line_fields(a: Seq<char>, b: Seq<char>, c: Seq<char>, d: Seq<char>, e: Seq<char>)
    requires
        is_number_word(a),
        is_number_word(b),
        is_number_word(c),
        is_number_word(d),
        is_number_word(e),
    ensures
        command_of_words(words(seq!['m', 'o', 'v', 'e'] + seq![' '] + a + seq![' '] + b + seq![' '] + c + seq![' '] + d
            + seq![' '] + e)) == CommandView::Play(GameMove::Move {
            from_row: decimal_value(a) as usize,
            from_col: decimal_value(b) as usize,
            to_row: decimal_value(c) as usize,
            to_col: decimal_value(d) as usize,
            count: decimal_value(e) as usize,
        }),
{
    let sp = seq![' '];
    let mv = seq!['m', 'o', 'v', 'e'];
    lemma_number_word(a);
    lemma_number_word(b);
    lemma_number_word(c);
    lemma_number_word(d);
    lemma_number_word(e);
    assert(Seq::<char>::empty() + mv =~= mv);
    assert forall|i: int| 0 <= i < mv.len() implies !is_white_space(#[trigger] mv[i]) by {}
    lemma_words_push_word(Seq::<char>::empty(), mv);
    assert(words(Seq::<char>::empty()) =~= Seq::<Seq<char>>::empty());
    let l1 = mv + sp;
    lemma_words_space(mv);
    lemma_words_push_word(l1, a);
    let l2 = l1 + a + sp;
    lemma_words_space(l1 + a);
    lemma_words_push_word(l2, b);
    let l3 = l2 + b + sp;
    lemma_words_space(l2 + b);
    lemma_words_push_word(l3, c);
    let l4 = l3 + c + sp;
    lemma_words_space(l3 + c);
    lemma_words_push_word(l4, d);
    let l5 = l4 + d + sp;
    lemma_words_space(l4 + d);
    lemma_words_push_word(l5, e);
    let w = words(l5 + e);
    assert(w =~= seq![mv, a, b, c, d, e]);
    assert(w[0] =~= seq!['m', 'o', 'v', 'e']);
    assert(w[0] != seq!['p', 'l', 'a', 'c', 'e']);
}

/// The line "place a b flat" places a flat stone at row `a`, column `b`, and
/// "place a b cap" a capstone there: the row comes first, then the column.
pub proof fn lemma_place_line_fields(a: Seq<char>, b: Seq<char>)
    requires
        is_number_word(a),
        is_number_word(b),
    ensures
        command_of_words(words(seq!['p', 'l', 'a', 'c', 'e'] + seq![' '] + a + seq![' '] + b + seq![' '] + seq!['f', 'l', 'a', 't']))
            == CommandView::Play(GameMove::Place { row: decimal_value(a) as usize, col: decimal_value(b) as usize, piece_type: PieceType::Flat }),
        command_of_words(words(seq!['p', 'l', 'a', 'c', 'e'] + seq![' '] + a + seq![' '] + b + seq![' '] + seq!['c', 'a', 'p']))
            == CommandView::Play(GameMove::Place { row: decimal_value(a) as usize, col: decimal_value(b) as usize, piece_type: PieceType::Capstone }),
{
    let sp = seq![' '];
    let pl = seq!['p', 'l', 'a', 'c', 'e'];
    let fl = seq!['f', 'l', 'a', 't'];
    let cp = seq!['c', 'a', 'p'];
    lemma_number_word(a);
    lemma_number_word(b);
    assert(Seq::<char>::empty() + pl =~= pl);
    assert forall|i: int| 0 <= i < pl.len() implies !is_white_space(#[trigger] pl[i]) by {}
    assert forall|i: int| 0 <= i < fl.len() implies !is_white_space(#[trigger] fl[i]) by {}
    assert forall|i: int| 0 <= i < cp.len() implies !is_white_space(#[trigger] cp[i]) by {}
    lemma_words_push_word(Seq::<char>::empty(), pl);
    assert(words(Seq::<char>::empty()) =~= Seq::<Seq<char>>::empty());
    let l1 = pl + sp;
    lemma_words_space(pl);
    lemma_words_push_word(l1, a);
    let l2 = l1 + a + sp;
    lemma_words_space(l1 + a);
    lemma_words_push_word(l2, b);
    let l3 = l2 + b + sp;
    lemma_words_space(l2 + b);
    lemma_words_push_word(l3, fl);
    lemma_words_push_word(l3, cp);
    assert(words(l3 + fl) =~= seq![pl, a, b, fl]);
    assert(words(l3 + cp) =~= seq![pl, a, b, cp]);
    assert(fl != cp);
}

/// In move notation the prefix only chooses the stone: `xy`, `Sxy` and
/// `Cxy` all place on the square `xy` names (a flat, a standing stone and a
/// capstone), and `xy>` carries one stone from that same square.
pub proof fn lemma_notation_names_one_square(x: char, y: char)
    requires
        names_square(x, y),
    ensures
        notation_command(seq![x, y]) matches Some(CommandView::Play(GameMove::Place { row, col, piece_type }))
            && piece_type == PieceType::Flat
            && notation_command(seq!['S', x, y]) == Some(CommandView::Play(GameMove::Place { row, col, piece_type: PieceType::Standing }))
            && notation_command(seq!['C', x, y]) == Some(CommandView::Play(GameMove::Place { row, col, piece_type: PieceType::Capstone }))
            && notation_command(seq![x, y, '>']) == Some(CommandView::Spread { row, col, direction: Direction::East, count: 1, drops: seq![1usize] })
            && row as int == y as int - '1' as int
            && col as int == x as int - 'a' as int,
{
}

} // verus!
