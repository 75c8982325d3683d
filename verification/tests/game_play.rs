use tak::ai::{choose_from, controlled_stacks, first_empty, open_neighbours, AIPlayer};
use tak::board::{Board, Direction};
use tak::command::{parse_command, Command};
use tak::game::{direction_between, Game, GameMove, GameOutcome};
use tak::piece::{PieceType, Player};

#[test]
fn turns_alternate_and_count_after_black() {
    let mut g = Game::new(5);
    assert_eq!(g.current_player, Player::White);
    assert_eq!(g.turn_number, 1);
    assert_eq!(g.make_move(GameMove::Place { row: 0, col: 0, piece_type: PieceType::Flat }), Ok(()));
    assert_eq!((g.current_player, g.turn_number), (Player::Black, 1));
    assert_eq!(g.make_move(GameMove::Place { row: 4, col: 4, piece_type: PieceType::Flat }), Ok(()));
    assert_eq!((g.current_player, g.turn_number), (Player::White, 2));
}

#[test]
fn refused_move_leaves_game_unchanged() {
    let mut g = Game::new(5);
    assert_eq!(g.make_move(GameMove::Place { row: 9, col: 0, piece_type: PieceType::Flat }), Err("Position out of bounds"));
    assert_eq!((g.current_player, g.turn_number), (Player::White, 1));
    assert_eq!(
        g.make_move(GameMove::Move { from_row: 0, from_col: 0, to_row: 0, to_col: 1, count: 1 }),
        Err("No stack to move")
    );
    assert_eq!(g.board.remaining_pieces(Player::White), (21, 1));
}

#[test]
fn winning_move_keeps_the_turn() {
    let mut g = Game::new(3);
    let moves = [(0, 0), (2, 0), (0, 1), (2, 1)];
    for (r, c) in moves {
        assert_eq!(g.make_move(GameMove::Place { row: r, col: c, piece_type: PieceType::Flat }), Ok(()));
    }
    assert_eq!(g.make_move(GameMove::Place { row: 0, col: 2, piece_type: PieceType::Flat }), Ok(()));
    assert!(g.board.check_road_win(Player::White));
    assert_eq!(g.current_player, Player::White);
    assert_eq!(g.turn_number, 3);
    assert_eq!(g.board.outcome(), GameOutcome::WhiteRoad);
}

#[test]
fn move_direction_is_read_rows_first() {
    assert_eq!(direction_between(2, 2, 1, 5), Direction::North);
    assert_eq!(direction_between(2, 2, 3, 0), Direction::South);
    assert_eq!(direction_between(2, 2, 2, 3), Direction::East);
    assert_eq!(direction_between(2, 2, 2, 1), Direction::West);
    assert_eq!(direction_between(2, 2, 2, 2), Direction::West);
}

#[test]
fn game_move_through_make_move() {
    let mut g = Game::new(4);
    g.make_move(GameMove::Place { row: 1, col: 1, piece_type: PieceType::Flat }).unwrap();
    g.make_move(GameMove::Place { row: 3, col: 3, piece_type: PieceType::Flat }).unwrap();
    assert_eq!(g.make_move(GameMove::Move { from_row: 1, from_col: 1, to_row: 2, to_col: 1, count: 1 }), Ok(()));
    assert_eq!(g.board.height_at(2, 1), 1);
    assert_eq!(g.current_player, Player::Black);
}

#[test]
fn apply_move_ignores_whose_turn_it_is() {
    let mut b = Board::new(3);
    assert_eq!(b.apply_move(Player::Black, GameMove::Place { row: 0, col: 0, piece_type: PieceType::Flat }), Ok(()));
    assert_eq!(b.remaining_pieces(Player::Black), (9, 0));
    assert_eq!(
        b.apply_move(Player::White, GameMove::Move { from_row: 0, from_col: 0, to_row: 0, to_col: 1, count: 1 }),
        Ok(())
    );
    assert_eq!(b.height_at(0, 1), 1);
}

#[test]
fn outcome_on_a_full_board_goes_by_flats() {
    let mut b = Board::new(2);
    assert_eq!(b.outcome(), GameOutcome::InProgress);
    b.place_piece(0, 0, Player::White, PieceType::Flat).unwrap();
    b.place_piece(1, 1, Player::White, PieceType::Flat).unwrap();
    b.place_piece(0, 1, Player::Black, PieceType::Flat).unwrap();
    assert_eq!(b.outcome(), GameOutcome::InProgress);
    b.place_piece(1, 0, Player::Black, PieceType::Capstone).unwrap();
    assert_eq!(b.outcome(), GameOutcome::FlatWin(Player::White));
    let mut b = Board::new(2);
    b.place_piece(0, 0, Player::White, PieceType::Flat).unwrap();
    b.place_piece(1, 1, Player::Black, PieceType::Flat).unwrap();
    b.place_piece(0, 1, Player::Black, PieceType::Standing).unwrap();
    b.place_piece(1, 0, Player::White, PieceType::Standing).unwrap();
    assert_eq!(b.outcome(), GameOutcome::Draw);
    let mut b = Board::new(2);
    b.place_piece(0, 0, Player::Black, PieceType::Flat).unwrap();
    b.place_piece(1, 1, Player::Black, PieceType::Flat).unwrap();
    b.place_piece(0, 1, Player::White, PieceType::Flat).unwrap();
    b.place_piece(1, 0, Player::White, PieceType::Capstone).unwrap();
    assert_eq!(b.outcome(), GameOutcome::FlatWin(Player::Black));
    assert_eq!(b.flat_count(Player::Black), 2);
    assert_eq!(b.flat_count(Player::White), 1);
}

#[test]
fn an_empty_hand_ends_the_game_on_flats() {
    let mut g = Game::new(3);
    for _ in 0..10 {
        g.board.place_piece(1, 1, Player::White, PieceType::Flat).unwrap();
        if g.board.remaining_pieces(Player::White).0 > 0 {
            g.board.move_stack(1, 1, 0, 1, 1, Direction::North).unwrap();
        }
    }
    assert!(g.board.is_hand_empty(Player::White));
    assert!(!g.board.is_board_full());
    assert_eq!(g.board.flat_count(Player::White), 2);
    assert_eq!(g.board.outcome(), GameOutcome::FlatWin(Player::White));
}

#[test]
fn the_turn_stays_once_flats_decide() {
    let mut g = Game::new(3);
    for _ in 0..9 {
        g.board.place_piece(1, 1, Player::White, PieceType::Flat).unwrap();
        g.board.move_stack(1, 1, 0, 1, 1, Direction::North).unwrap();
    }
    assert_eq!(g.board.remaining_pieces(Player::White), (1, 0));
    assert_eq!(g.make_move(GameMove::Place { row: 2, col: 2, piece_type: PieceType::Flat }), Ok(()));
    assert!(g.board.is_hand_empty(Player::White));
    assert_eq!((g.current_player, g.turn_number), (Player::White, 1));
    assert_eq!(g.board.outcome(), GameOutcome::FlatWin(Player::White));
}

#[test]
fn flat_count_counts_flat_tops_only() {
    let mut b = Board::new(4);
    assert_eq!(b.flat_count(Player::White), 0);
    b.place_piece(0, 0, Player::White, PieceType::Flat).unwrap();
    b.place_piece(0, 1, Player::White, PieceType::Flat).unwrap();
    b.place_piece(3, 3, Player::Black, PieceType::Flat).unwrap();
    b.place_piece(2, 2, Player::White, PieceType::Capstone).unwrap_err();
    assert_eq!(b.flat_count(Player::White), 2);
    assert_eq!(b.move_stack(0, 1, 0, 0, 1, Direction::West), Ok(()));
    assert_eq!(b.flat_count(Player::White), 1);
    assert_eq!(b.flat_count(Player::Black), 1);
    assert!(!b.is_hand_empty(Player::White));
}

#[test]
fn spread_drops_stones_along_the_way() {
    let mut g = Game::new(5);
    for (r, c) in [(0, 0), (0, 1), (0, 2), (4, 4)] {
        assert_eq!(g.make_move(GameMove::Place { row: r, col: c, piece_type: PieceType::Flat }), Ok(()));
    }
    // White to move: stack the three stones of row 0 on (0, 2).
    assert_eq!(g.make_move(GameMove::Move { from_row: 0, from_col: 0, to_row: 0, to_col: 1, count: 1 }), Ok(()));
    assert_eq!(g.make_move(GameMove::Place { row: 4, col: 3, piece_type: PieceType::Flat }), Ok(()));
    assert_eq!(g.make_move(GameMove::Move { from_row: 0, from_col: 1, to_row: 0, to_col: 2, count: 2 }), Ok(()));
    assert_eq!(g.board.height_at(0, 2), 3);
    let bottom_to_top = g.board.spaces[0][2].0.clone();
    assert_eq!(g.current_player, Player::Black);
    assert_eq!(g.make_spread(0, 2, Direction::South, 3, &vec![1, 2]), Ok(()));
    assert_eq!(g.board.height_at(0, 2), 0);
    assert_eq!(g.board.spaces[1][2].0, vec![bottom_to_top[0]]);
    assert_eq!(g.board.spaces[2][2].0, vec![bottom_to_top[1], bottom_to_top[2]]);
    assert_eq!((g.current_player, g.turn_number), (Player::White, 5));
}

#[test]
fn spread_keeps_the_rest_of_the_stack() {
    let mut b = Board::new(4);
    b.place_piece(1, 0, Player::White, PieceType::Flat).unwrap();
    b.place_piece(1, 1, Player::Black, PieceType::Flat).unwrap();
    b.place_piece(1, 2, Player::White, PieceType::Flat).unwrap();
    b.move_stack(1, 0, 1, 1, 1, Direction::East).unwrap();
    b.move_stack(1, 1, 1, 2, 2, Direction::East).unwrap();
    assert_eq!(b.height_at(1, 2), 3);
    assert_eq!(b.spread_stack(1, 2, Direction::West, 2, &vec![2]), Ok(()));
    assert_eq!(b.height_at(1, 2), 1);
    assert_eq!(b.height_at(1, 1), 2);
    assert_eq!(b.spaces[1][2].0[0].player, Player::White);
}

#[test]
fn spread_refusals() {
    let mut b = Board::new(3);
    b.place_piece(1, 1, Player::White, PieceType::Flat).unwrap();
    b.place_piece(0, 0, Player::Black, PieceType::Flat).unwrap();
    b.move_stack(0, 0, 0, 1, 1, Direction::East).unwrap();
    b.move_stack(0, 1, 1, 1, 1, Direction::South).unwrap();
    assert_eq!(b.height_at(1, 1), 2);
    let before = b.clone();
    let same = |x: &Board, y: &Board| {
        x.spaces.iter().zip(y.spaces.iter()).all(|(r1, r2)| r1.iter().zip(r2.iter()).all(|(s1, s2)| s1.0 == s2.0))
            && x.remaining_pieces(Player::White) == y.remaining_pieces(Player::White)
            && x.remaining_pieces(Player::Black) == y.remaining_pieces(Player::Black)
    };
    assert_eq!(b.spread_stack(1, 1, Direction::East, 2, &vec![]), Err("Invalid drop counts"));
    assert_eq!(b.spread_stack(1, 1, Direction::East, 2, &vec![1, 0, 1]), Err("Invalid drop counts"));
    assert_eq!(b.spread_stack(1, 1, Direction::East, 2, &vec![1]), Err("Invalid drop counts"));
    assert_eq!(b.spread_stack(1, 1, Direction::East, 2, &vec![1, 1]), Err("Position out of bounds"));
    assert_eq!(b.spread_stack(1, 1, Direction::North, 2, &vec![1, 1]), Err("Position out of bounds"));
    assert_eq!(b.spread_stack(3, 1, Direction::North, 1, &vec![1]), Err("Position out of bounds"));
    assert_eq!(b.spread_stack(0, 0, Direction::South, 1, &vec![1]), Err("No stack to move"));
    assert_eq!(b.spread_stack(1, 1, Direction::East, 3, &vec![3]), Err("Not enough pieces in stack to move"));
    b.place_piece(2, 1, Player::Black, PieceType::Capstone).unwrap_err();
    let mut b5 = Board::new(5);
    b5.place_piece(2, 2, Player::White, PieceType::Flat).unwrap();
    b5.place_piece(2, 4, Player::Black, PieceType::Capstone).unwrap();
    assert_eq!(b5.spread_stack(2, 2, Direction::East, 1, &vec![1]), Ok(()));
    assert_eq!(b5.spread_stack(2, 3, Direction::East, 1, &vec![1]), Err("Cannot move onto a blocking piece"));
    let mut b2 = Board::new(2);
    b2.place_piece(0, 0, Player::White, PieceType::Flat).unwrap();
    b2.place_piece(0, 1, Player::Black, PieceType::Flat).unwrap();
    b2.place_piece(1, 1, Player::White, PieceType::Flat).unwrap();
    b2.move_stack(0, 1, 0, 0, 1, Direction::West).unwrap();
    b2.move_stack(1, 1, 1, 0, 1, Direction::West).unwrap();
    b2.move_stack(1, 0, 0, 0, 1, Direction::North).unwrap();
    assert_eq!(b2.spread_stack(0, 0, Direction::South, 3, &vec![3]), Err("Cannot move more pieces than board size"));
    assert!(same(&b, &before));
    let mut g = Game::new(3);
    assert_eq!(g.make_spread(0, 0, Direction::East, 1, &vec![1]), Err("No stack to move"));
    assert_eq!((g.current_player, g.turn_number), (Player::White, 1));
}

#[test]
fn hint_suggests_a_playable_move() {
    for size in 3..=6 {
        let mut g = Game::new(size);
        for _ in 0..30 {
            let m = g.suggest_move();
            let mut copy = g.board.clone();
            assert!(copy.apply_move(g.current_player, m).is_ok() || g.board.is_board_full());
            if g.make_move(m).is_err() || g.board.outcome() != GameOutcome::InProgress {
                break;
            }
        }
    }
}

#[test]
fn a_crowded_board_makes_the_ai_move_a_stack() {
    let mut g = Game::new(4);
    for r in 0..3 {
        for c in 0..4 {
            let p = if (r + c) % 2 == 0 { Player::White } else { Player::Black };
            g.board.place_piece(r, c, p, PieceType::Flat).unwrap();
        }
    }
    g.turn_number = 5;
    assert!(g.board.outcome() == GameOutcome::InProgress);
    for difficulty in 1..=3 {
        let ai = AIPlayer::new(Player::White, difficulty);
        for _ in 0..50 {
            match ai.choose_move(&g) {
                GameMove::Move { from_row, from_col, to_row, to_col, count } => {
                    let dr = (from_row as i64 - to_row as i64).abs();
                    let dc = (from_col as i64 - to_col as i64).abs();
                    assert_eq!(dr + dc, 1);
                    assert!(count >= 1);
                    assert_eq!(g.board.spaces[from_row][from_col].controller(), Some(Player::White));
                }
                other => panic!("expected a stack move, got {:?}", other),
            }
        }
    }
}

#[test]
fn ai_difficulty_is_clamped() {
    assert_eq!(AIPlayer::new(Player::White, 0).difficulty, 1);
    assert_eq!(AIPlayer::new(Player::White, 2).difficulty, 2);
    assert_eq!(AIPlayer::new(Player::Black, 9).difficulty, 3);
    assert_eq!(AIPlayer::new(Player::Black, 9).player, Player::Black);
}

#[test]
fn ai_moves_are_accepted() {
    for size in 3..=6 {
        for difficulty in 1..=3 {
            let mut g = Game::new(size);
            let white = AIPlayer::new(Player::White, difficulty);
            let black = AIPlayer::new(Player::Black, 4 - difficulty);
            for _ in 0..60 {
                let ai = if g.current_player == Player::White { &white } else { &black };
                let m = ai.choose_move(&g);
                if g.turn_number <= 2 {
                    assert!(matches!(m, GameMove::Place { .. }));
                }
                match m {
                    GameMove::Place { row, col, .. } => {
                        assert!(row < size && col < size);
                        assert!(g.board.is_board_full() || g.board.spaces[row][col].is_empty());
                    }
                    GameMove::Move { from_row, from_col, to_row, to_col, .. } => {
                        assert_eq!(from_row.abs_diff(to_row) + from_col.abs_diff(to_col), 1);
                        let mut copy = Board::new(size);
                        copy.spaces = g.board.spaces.iter().map(|r| r.iter().map(|s| tak::stack::Stack(s.0.clone())).collect()).collect();
                        assert!(copy.apply_move(ai.player, m).is_ok());
                    }
                }
                let _ = g.make_move(m);
                if g.board.outcome() != GameOutcome::InProgress {
                    break;
                }
            }
        }
    }
}

#[test]
fn ai_vs_ai_turns_run_to_an_end() {
    let mut g = Game::new(4);
    let white = AIPlayer::new(Player::White, 2);
    let black = AIPlayer::new(Player::Black, 3);
    let mut turns = 0;
    loop {
        let before = g.current_player;
        let t = g.play_ai_turn(&white, &black);
        assert_eq!(t.mover, before);
        assert_eq!(t.outcome, g.board.outcome());
        if t.result.is_ok() {
            assert!(t.fallback.is_none());
        } else {
            assert!(t.fallback.is_some());
        }
        turns += 1;
        if t.ends_game {
            break;
        }
        assert!(turns < 1000);
    }
}

#[test]
fn ai_fills_the_last_square() {
    let mut g = Game::new(3);
    for (r, c) in [(0, 1), (0, 2), (1, 0), (1, 1), (1, 2), (2, 0), (2, 1), (2, 2)] {
        let p = if (r + c) % 2 == 0 { Player::White } else { Player::Black };
        g.board.place_piece(r, c, p, PieceType::Flat).unwrap();
    }
    let white = AIPlayer::new(Player::White, 1);
    let black = AIPlayer::new(Player::Black, 1);
    let t = g.play_ai_turn(&white, &black);
    assert!(t.ends_game);
    assert!(g.board.is_board_full());
}

#[test]
fn helper_searches() {
    let mut b = Board::new(3);
    assert_eq!(first_empty(&b), Some((0, 0)));
    b.place_piece(0, 0, Player::White, PieceType::Flat).unwrap();
    b.place_piece(0, 1, Player::Black, PieceType::Flat).unwrap();
    b.place_piece(2, 1, Player::White, PieceType::Capstone).unwrap_err();
    b.place_piece(2, 2, Player::White, PieceType::Flat).unwrap();
    assert_eq!(first_empty(&b), Some((0, 2)));
    assert_eq!(controlled_stacks(&b, Player::White), vec![(0, 0), (2, 2)]);
    assert_eq!(controlled_stacks(&b, Player::Black), vec![(0, 1)]);
    assert_eq!(open_neighbours(&b, 1, 1), vec![(0, 1, Direction::North), (2, 1, Direction::South), (1, 2, Direction::East), (1, 0, Direction::West)]);
    assert_eq!(open_neighbours(&b, 0, 0), vec![(1, 0, Direction::South), (0, 1, Direction::East)]);
    let mut b5 = Board::new(5);
    b5.place_piece(1, 2, Player::Black, PieceType::Capstone).unwrap();
    assert_eq!(open_neighbours(&b5, 1, 1), vec![(0, 1, Direction::North), (2, 1, Direction::South), (1, 0, Direction::West)]);
}

#[test]
fn choose_from_draws_each_element() {
    let mut rng = rand::thread_rng();
    let v = vec![10, 20, 30];
    let mut seen = [false; 3];
    for _ in 0..500 {
        let x = *choose_from(&v, &mut rng).unwrap();
        seen[(x / 10 - 1) as usize] = true;
    }
    assert!(seen.iter().all(|s| *s));
    let empty: Vec<i32> = Vec::new();
    assert!(choose_from(&empty, &mut rng).is_none());
}

#[test]
fn outcome_reports_black_road_after_white() {
    let mut b = Board::new(3);
    for c in 0..3 {
        b.place_piece(2, c, Player::Black, PieceType::Flat).unwrap();
    }
    assert_eq!(b.outcome(), GameOutcome::BlackRoad);
    for c in 0..3 {
        b.place_piece(0, c, Player::White, PieceType::Flat).unwrap();
    }
    assert_eq!(b.outcome(), GameOutcome::WhiteRoad);
}

#[test]
fn ai_turn_tries_the_stand_in_move() {
    let mut g = Game::new(3);
    for _ in 0..10 {
        g.board.place_piece(1, 1, Player::White, PieceType::Flat).unwrap();
        g.board.move_stack(1, 1, 0, 1, 1, Direction::North).unwrap();
    }
    assert_eq!(g.board.remaining_pieces(Player::White), (0, 0));
    let white = AIPlayer::new(Player::White, 2);
    let black = AIPlayer::new(Player::Black, 2);
    let t = g.play_ai_turn(&white, &black);
    assert!(matches!(t.chosen, GameMove::Place { piece_type: PieceType::Flat, .. }));
    assert_eq!(t.result, Err("No more flat stones available"));
    assert_eq!(t.fallback, Some(Err("No more flat stones available")));
    assert!(t.ends_game);
    assert_eq!((g.current_player, g.turn_number), (Player::White, 1));
}

#[test]
fn a_single_drop_spread_matches_the_move() {
    let mut a = Board::new(4);
    a.place_piece(1, 1, Player::White, PieceType::Flat).unwrap();
    a.place_piece(1, 2, Player::Black, PieceType::Flat).unwrap();
    a.move_stack(1, 2, 1, 1, 1, Direction::West).unwrap();
    let mut b = a.clone();
    assert_eq!(a.spread_stack(1, 1, Direction::South, 2, &vec![2]), b.move_stack(1, 1, 2, 1, 2, Direction::South));
    for r in 0..4 {
        for c in 0..4 {
            assert_eq!(a.spaces[r][c].0, b.spaces[r][c].0);
        }
    }
    let mut a = Board::new(4);
    a.place_piece(0, 0, Player::White, PieceType::Flat).unwrap();
    a.place_piece(0, 1, Player::Black, PieceType::Standing).unwrap();
    let mut b = a.clone();
    assert_eq!(a.spread_stack(0, 0, Direction::East, 1, &vec![1]), Err("Cannot move onto a blocking piece"));
    assert_eq!(b.move_stack(0, 0, 0, 1, 1, Direction::East), Err("Cannot move onto a blocking piece"));
}

#[test]
fn typed_notation_plays_through_the_game() {
    let mut g = Game::new(3);
    for line in ["a1", "c3", "b1"] {
        match parse_command(line) {
            Command::Play(m) => assert_eq!(g.make_move(m), Ok(())),
            other => panic!("unexpected {:?}", other),
        }
    }
    // Black to move; the board lets the side to move carry any stack.
    match parse_command("b1+") {
        Command::Spread { row, col, direction, count, drops } => {
            assert_eq!((row, col, direction, count), (0, 1, Direction::South, 1));
            assert_eq!(g.make_spread(row, col, direction, count, &drops), Ok(()));
        }
        other => panic!("unexpected {:?}", other),
    }
    assert_eq!(g.board.height_at(1, 1), 1);
    assert_eq!(g.board.height_at(0, 1), 0);
    assert_eq!((g.current_player, g.turn_number), (Player::White, 3));
    assert_eq!(parse_command("hint"), Command::Hint);
}
