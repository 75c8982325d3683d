use tak::board::{calculate_board_fullness, Board, Direction};
use tak::piece::{Piece, PieceType, Player};
use tak::stack::Stack;

fn place(b: &mut Board, r: usize, c: usize, p: Player, t: PieceType) {
    assert_eq!(b.place_piece(r, c, p, t), Ok(()));
}

fn on_board(b: &Board, p: Player, k: PieceType) -> usize {
    let mut n = 0;
    for row in &b.spaces {
        for s in row {
            n += s.0.iter().filter(|x| x.player == p && x.piece_type == k).count();
        }
    }
    n
}

fn total(b: &Board, p: Player) -> usize {
    let (f, c) = b.remaining_pieces(p);
    on_board(b, p, PieceType::Flat) + on_board(b, p, PieceType::Standing) + on_board(b, p, PieceType::Capstone) + f + c
}

fn kind_totals(b: &Board, p: Player) -> (usize, usize) {
    let (f, c) = b.remaining_pieces(p);
    (on_board(b, p, PieceType::Flat) + on_board(b, p, PieceType::Standing) + f, on_board(b, p, PieceType::Capstone) + c)
}

#[test]
fn new_board_allotments_follow_size() {
    let cases = [(3, 10, 0), (4, 15, 0), (5, 21, 1), (6, 30, 1), (7, 40, 2), (8, 50, 2), (2, 21, 1), (9, 21, 1)];
    for (size, flats, caps) in cases {
        let b = Board::new(size);
        assert_eq!(b.size, size);
        assert_eq!(b.spaces.len(), size);
        assert!(b.spaces.iter().all(|r| r.len() == size && r.iter().all(|s| s.is_empty())));
        assert_eq!(b.remaining_pieces(Player::White), (flats, caps));
        assert_eq!(b.remaining_pieces(Player::Black), (flats, caps));
    }
}

#[test]
fn place_piece_takes_from_hand() {
    let mut b = Board::new(5);
    place(&mut b, 2, 3, Player::White, PieceType::Flat);
    assert_eq!(b.remaining_pieces(Player::White), (20, 1));
    assert_eq!(b.remaining_pieces(Player::Black), (21, 1));
    place(&mut b, 0, 0, Player::Black, PieceType::Capstone);
    assert_eq!(b.remaining_pieces(Player::Black), (21, 0));
    assert_eq!(b.height_at(2, 3), 1);
    assert_eq!(b.cell_symbol(2, 3), "W");
    assert_eq!(b.cell_symbol(0, 0), "BC");
    assert_eq!(b.cell_symbol(1, 1), "");
}

#[test]
fn place_piece_errors() {
    let mut b = Board::new(3);
    assert_eq!(b.place_piece(3, 0, Player::White, PieceType::Flat), Err("Position out of bounds"));
    assert_eq!(b.place_piece(0, 7, Player::White, PieceType::Flat), Err("Position out of bounds"));
    place(&mut b, 1, 1, Player::White, PieceType::Flat);
    assert_eq!(b.place_piece(1, 1, Player::Black, PieceType::Flat), Err("Space already occupied"));
    assert_eq!(b.place_piece(0, 0, Player::Black, PieceType::Capstone), Err("No more capstones available"));
    assert_eq!(b.remaining_pieces(Player::Black), (10, 0));
    assert!(b.spaces[0][0].is_empty());
}

#[test]
fn place_piece_runs_out_of_flats() {
    let mut b = Board::new(4);
    let mut placed = 0;
    'outer: for r in 0..4 {
        for c in 0..4 {
            if placed == 15 {
                assert_eq!(b.place_piece(r, c, Player::White, PieceType::Flat), Err("No more flat stones available"));
                break 'outer;
            }
            place(&mut b, r, c, Player::White, PieceType::Flat);
            placed += 1;
        }
    }
    assert_eq!(b.remaining_pieces(Player::White), (0, 0));
}

#[test]
fn move_stack_moves_top_stones_in_order() {
    let mut b = Board::new(5);
    place(&mut b, 2, 2, Player::White, PieceType::Flat);
    place(&mut b, 2, 3, Player::Black, PieceType::Flat);
    assert_eq!(b.move_stack(2, 3, 2, 2, 1, Direction::West), Ok(()));
    assert_eq!(b.height_at(2, 2), 2);
    assert!(b.spaces[2][3].is_empty());
    assert_eq!(b.move_stack(2, 2, 1, 2, 1, Direction::North), Ok(()));
    assert_eq!(b.spaces[1][2].0, vec![Piece { player: Player::Black, piece_type: PieceType::Flat }]);
    assert_eq!(b.spaces[2][2].0, vec![Piece { player: Player::White, piece_type: PieceType::Flat }]);
    assert_eq!(b.move_stack(1, 2, 2, 2, 1, Direction::South), Ok(()));
    assert_eq!(b.move_stack(2, 2, 2, 3, 2, Direction::East), Ok(()));
    assert_eq!(
        b.spaces[2][3].0,
        vec![
            Piece { player: Player::White, piece_type: PieceType::Flat },
            Piece { player: Player::Black, piece_type: PieceType::Flat },
        ]
    );
}

#[test]
fn move_stack_errors() {
    let mut b = Board::new(3);
    assert_eq!(b.move_stack(0, 0, 3, 0, 1, Direction::South), Err("Position out of bounds"));
    assert_eq!(b.move_stack(0, 0, 1, 0, 1, Direction::South), Err("No stack to move"));
    place(&mut b, 1, 1, Player::White, PieceType::Flat);
    assert_eq!(b.move_stack(1, 1, 0, 1, 1, Direction::South), Err("Invalid move distance or direction"));
    assert_eq!(b.move_stack(1, 1, 1, 1, 1, Direction::East), Err("Invalid move distance or direction"));
    let mut b5 = Board::new(5);
    place(&mut b5, 1, 1, Player::White, PieceType::Flat);
    place(&mut b5, 1, 2, Player::Black, PieceType::Capstone);
    assert_eq!(b5.move_stack(1, 1, 1, 2, 1, Direction::East), Err("Cannot move onto a blocking piece"));
    assert_eq!(b5.move_stack(1, 1, 2, 1, 2, Direction::South), Err("Not enough pieces in stack to move"));
    assert_eq!(b5.height_at(1, 1), 1);
}

#[test]
fn move_stack_limits_count_to_board_size() {
    let mut b = Board::new(2);
    place(&mut b, 0, 0, Player::White, PieceType::Flat);
    place(&mut b, 0, 1, Player::Black, PieceType::Flat);
    place(&mut b, 1, 0, Player::White, PieceType::Flat);
    assert_eq!(b.move_stack(0, 1, 0, 0, 1, Direction::West), Ok(()));
    assert_eq!(b.move_stack(1, 0, 0, 0, 1, Direction::North), Ok(()));
    assert_eq!(b.height_at(0, 0), 3);
    assert_eq!(b.move_stack(0, 0, 1, 0, 3, Direction::South), Err("Cannot move more pieces than board size"));
    assert_eq!(b.move_stack(0, 0, 1, 0, 0, Direction::South), Ok(()));
    assert_eq!(b.height_at(0, 0), 3);
}

#[test]
fn moves_go_one_square_straight() {
    let mut b = Board::new(5);
    place(&mut b, 2, 0, Player::White, PieceType::Flat);
    assert_eq!(b.move_stack(2, 0, 1, 4, 1, Direction::North), Err("Invalid move distance or direction"));
    assert_eq!(b.move_stack(2, 0, 0, 0, 1, Direction::North), Err("Invalid move distance or direction"));
    assert_eq!(b.move_stack(2, 0, 3, 1, 1, Direction::East), Err("Invalid move distance or direction"));
    assert_eq!(b.height_at(2, 0), 1);
    assert_eq!(b.height_at(1, 4), 0);
    let mut b = Board::new(3);
    place(&mut b, 1, 0, Player::White, PieceType::Flat);
    assert_eq!(b.move_stack(1, 0, 0, 1, 1, Direction::North), Err("Invalid move distance or direction"));
    assert_eq!(b.spaces[1][0].0.len(), 1);
    assert_eq!(b.spaces[0][1].0.len(), 0);
    assert_eq!(b.move_stack(1, 0, 0, 0, 1, Direction::North), Ok(()));
    assert_eq!(b.spaces[0][0].0.len(), 1);
}

#[test]
fn stones_are_conserved() {
    let mut b = Board::new(5);
    let start_w = total(&b, Player::White);
    let start_b = total(&b, Player::Black);
    assert_eq!(start_w, 22);
    place(&mut b, 0, 0, Player::White, PieceType::Flat);
    place(&mut b, 0, 1, Player::Black, PieceType::Flat);
    place(&mut b, 1, 1, Player::White, PieceType::Capstone);
    assert_eq!(b.move_stack(0, 1, 0, 0, 1, Direction::West), Ok(()));
    let _ = b.move_stack(0, 0, 1, 0, 2, Direction::South);
    let _ = b.place_piece(0, 0, Player::Black, PieceType::Flat);
    assert_eq!(total(&b, Player::White), start_w);
    assert_eq!(total(&b, Player::Black), start_b);
}

#[test]
fn each_kind_of_stone_is_conserved() {
    let mut b = Board::new(6);
    assert_eq!(kind_totals(&b, Player::White), (30, 1));
    assert_eq!(kind_totals(&b, Player::Black), (30, 1));
    place(&mut b, 2, 2, Player::White, PieceType::Flat);
    place(&mut b, 2, 3, Player::Black, PieceType::Flat);
    place(&mut b, 2, 4, Player::White, PieceType::Flat);
    assert_eq!(b.move_stack(2, 3, 2, 2, 1, Direction::West), Ok(()));
    assert_eq!(b.move_stack(2, 4, 2, 3, 1, Direction::West), Ok(()));
    assert_eq!(b.spread_stack(2, 2, Direction::South, 2, &vec![1, 1]), Ok(()));
    place(&mut b, 0, 0, Player::Black, PieceType::Capstone);
    place(&mut b, 0, 1, Player::White, PieceType::Standing);
    let _ = b.place_piece(0, 0, Player::White, PieceType::Capstone);
    let _ = b.place_piece(5, 5, Player::Black, PieceType::Capstone);
    let _ = b.spread_stack(2, 3, Direction::North, 1, &vec![1, 1]);
    assert_eq!(kind_totals(&b, Player::White), (30, 1));
    assert_eq!(kind_totals(&b, Player::Black), (30, 1));
    assert_eq!(b.remaining_pieces(Player::Black), (29, 0));
    assert_eq!(b.remaining_pieces(Player::White), (27, 1));
}

#[test]
fn standing_stones_come_from_the_flats_and_block() {
    let mut b = Board::new(3);
    place(&mut b, 1, 1, Player::White, PieceType::Standing);
    assert_eq!(b.remaining_pieces(Player::White), (9, 0));
    assert_eq!(b.cell_symbol(1, 1), "WS");
    assert!(b.spaces[1][1].is_blocking());
    place(&mut b, 0, 1, Player::Black, PieceType::Flat);
    assert_eq!(b.move_stack(0, 1, 1, 1, 1, Direction::South), Err("Cannot move onto a blocking piece"));
    assert_eq!(b.move_stack(1, 1, 0, 1, 1, Direction::North), Ok(()));
    assert_eq!(b.cell_symbol(0, 1), "WS");
    let mut b = Board::new(4);
    for c in 0..4 {
        place(&mut b, 0, c, Player::Black, PieceType::Standing);
    }
    assert_eq!(b.remaining_pieces(Player::Black), (11, 0));
    assert_eq!(b.place_piece(1, 0, Player::Black, PieceType::Capstone), Err("No more capstones available"));
    for c in 0..4 {
        for r in 1..4 {
            if b.remaining_pieces(Player::Black).0 > 0 {
                place(&mut b, r, c, Player::Black, PieceType::Standing);
            }
        }
    }
    assert_eq!(b.remaining_pieces(Player::Black), (0, 0));
    assert_eq!(b.place_piece(3, 3, Player::Black, PieceType::Standing), Err("No more flat stones available"));
}

#[test]
fn moving_back_restores_the_board() {
    let mut b = Board::new(4);
    place(&mut b, 1, 1, Player::White, PieceType::Flat);
    place(&mut b, 1, 2, Player::Black, PieceType::Flat);
    assert_eq!(b.move_stack(1, 2, 1, 1, 1, Direction::West), Ok(()));
    place(&mut b, 0, 1, Player::White, PieceType::Flat);
    let before: Vec<Vec<Vec<Piece>>> = b.spaces.iter().map(|r| r.iter().map(|s| s.0.clone()).collect()).collect();
    assert_eq!(b.move_stack(1, 1, 0, 1, 2, Direction::North), Ok(()));
    assert_eq!(b.move_stack(0, 1, 1, 1, 2, Direction::South), Ok(()));
    let after: Vec<Vec<Vec<Piece>>> = b.spaces.iter().map(|r| r.iter().map(|s| s.0.clone()).collect()).collect();
    assert_eq!(before, after);
}

#[test]
fn stack_operations() {
    let mut s = Stack::new();
    assert!(s.is_empty());
    assert!(s.top_piece().is_none());
    assert_eq!(s.controller(), None);
    assert!(!s.is_blocking());
    let w = Piece { player: Player::White, piece_type: PieceType::Flat };
    let b = Piece { player: Player::Black, piece_type: PieceType::Capstone };
    s.add_piece(w);
    s.add_piece(w);
    s.add_piece(b);
    assert_eq!(s.height(), 3);
    assert_eq!(s.controller(), Some(Player::Black));
    assert!(s.is_blocking());
    let top = s.take_n(2);
    assert_eq!(top, vec![w, b]);
    assert_eq!(s.0, vec![w]);
    let rest = s.take_n(5);
    assert_eq!(rest, vec![w]);
    assert!(s.is_empty());
    let none = s.take_n(0);
    assert!(none.is_empty());
}

#[test]
fn roads_join_opposite_sides() {
    let mut b = Board::new(3);
    for c in 0..3 {
        place(&mut b, 1, c, Player::White, PieceType::Flat);
    }
    assert!(b.check_road_win(Player::White));
    assert!(!b.check_road_win(Player::Black));

    let mut b = Board::new(3);
    for r in 0..3 {
        place(&mut b, r, 2, Player::Black, PieceType::Flat);
    }
    assert!(b.check_road_win(Player::Black));
    assert!(!b.check_road_win(Player::White));
}

#[test]
fn a_bent_path_is_a_road() {
    let mut b = Board::new(3);
    for (r, c) in [(0, 0), (1, 0), (1, 1), (2, 1)] {
        place(&mut b, r, c, Player::White, PieceType::Flat);
    }
    assert!(b.check_road_win(Player::White));

    let mut b = Board::new(5);
    for (r, c) in [(3, 0), (3, 1), (2, 1), (1, 1), (1, 2), (1, 3), (2, 3), (2, 4)] {
        place(&mut b, r, c, Player::Black, PieceType::Flat);
    }
    assert!(b.check_road_win(Player::Black));
    assert!(!b.check_road_win(Player::White));
}

#[test]
fn diagonal_steps_do_not_make_a_road() {
    let mut b = Board::new(4);
    for i in 0..4 {
        place(&mut b, i, i, Player::White, PieceType::Flat);
    }
    assert!(!b.check_road_win(Player::White));

    let mut b = Board::new(4);
    for i in 0..4 {
        place(&mut b, i, 3 - i, Player::Black, PieceType::Flat);
    }
    assert!(!b.check_road_win(Player::Black));

    let mut b = Board::new(3);
    for (r, c) in [(0, 0), (1, 1), (2, 2), (1, 0)] {
        place(&mut b, r, c, Player::White, PieceType::Flat);
    }
    assert!(!b.check_road_win(Player::White));
}

#[test]
fn stones_under_the_top_do_not_count_for_a_road() {
    let mut b = Board::new(3);
    place(&mut b, 0, 1, Player::White, PieceType::Flat);
    place(&mut b, 1, 1, Player::White, PieceType::Flat);
    place(&mut b, 2, 1, Player::White, PieceType::Flat);
    assert!(b.check_road_win(Player::White));
    place(&mut b, 1, 0, Player::Black, PieceType::Flat);
    assert_eq!(b.move_stack(1, 0, 1, 1, 1, Direction::East), Ok(()));
    assert!(!b.check_road_win(Player::White));
    assert!(!b.check_road_win(Player::Black));
}

#[test]
fn capstones_and_gaps_break_roads() {
    let mut b = Board::new(5);
    for c in 0..4 {
        place(&mut b, 0, c, Player::White, PieceType::Flat);
    }
    assert!(!b.check_road_win(Player::White));
    place(&mut b, 0, 4, Player::White, PieceType::Standing);
    assert!(!b.check_road_win(Player::White));
    let mut b = Board::new(3);
    place(&mut b, 0, 0, Player::White, PieceType::Flat);
    place(&mut b, 0, 1, Player::White, PieceType::Flat);
    place(&mut b, 0, 2, Player::Black, PieceType::Flat);
    assert!(!b.check_road_win(Player::White));
    assert_eq!(b.move_stack(0, 1, 0, 2, 1, Direction::East), Ok(()));
    assert!(!b.check_road_win(Player::White));
}

#[test]
fn capstones_count_for_a_road() {
    let mut b = Board::new(5);
    for c in 0..4 {
        place(&mut b, 2, c, Player::Black, PieceType::Flat);
    }
    assert!(!b.check_road_win(Player::Black));
    place(&mut b, 2, 4, Player::Black, PieceType::Capstone);
    assert!(b.check_road_win(Player::Black));
    assert_eq!(b.flat_count(Player::Black), 4);
}

#[test]
fn empty_board_of_size_zero_has_no_road_and_is_full() {
    let b = Board::new(0);
    assert!(!b.check_road_win(Player::White));
    assert!(b.is_board_full());
}

#[test]
fn full_board_detection_and_fullness() {
    let mut b = Board::new(3);
    assert!(!b.is_board_full());
    assert_eq!(calculate_board_fullness(&b), (0, 9));
    let mut turn = Player::White;
    for r in 0..3 {
        for c in 0..3 {
            place(&mut b, r, c, turn, PieceType::Flat);
            turn = turn.opponent();
        }
    }
    assert!(b.is_board_full());
    assert_eq!(calculate_board_fullness(&b), (9, 9));
    for p in [Player::White, Player::Black] {
        assert!(b.place_piece(1, 1, p, PieceType::Flat).is_err());
    }
}

#[test]
fn player_names_and_opponents() {
    assert_eq!(Player::White.name(), "White");
    assert_eq!(Player::Black.name(), "Black");
    assert_eq!(Player::White.opponent(), Player::Black);
    assert_eq!(Player::Black.opponent(), Player::White);
}

#[test]
fn render_shows_squares_heights_and_hands() {
    let b = Board::new(3);
    assert_eq!(
        b.render(),
        "   0  1  2 \n0 [ ][ ][ ]\n1 [ ][ ][ ]\n2 [ ][ ][ ]\nWhite: 10 flat, 0 capstone\nBlack: 10 flat, 0 capstone\n"
    );
    let mut b = Board::new(5);
    place(&mut b, 0, 0, Player::White, PieceType::Flat);
    place(&mut b, 0, 1, Player::Black, PieceType::Flat);
    place(&mut b, 4, 4, Player::Black, PieceType::Capstone);
    assert_eq!(b.move_stack(0, 1, 0, 0, 1, Direction::West), Ok(()));
    let text = b.render();
    let lines: Vec<&str> = text.lines().collect();
    assert_eq!(lines[0], "   0  1  2  3  4 ");
    assert_eq!(lines[1], "0 [B2][ ][ ][ ][ ]");
    assert_eq!(lines[5], "4 [ ][ ][ ][ ][BC]");
    assert_eq!(lines[6], "White: 20 flat, 1 capstone");
    assert_eq!(lines[7], "Black: 20 flat, 0 capstone");
    let b = Board::new(0);
    assert_eq!(b.render(), "  \nWhite: 21 flat, 1 capstone\nBlack: 21 flat, 1 capstone\n");
}
