use tak::board::Board;
use tak::game::GameMove;
use tak::learning::{
    empty_cells_in, learned_move_count, learned_placement, learned_stack_choice, place_first_flat, strategy_name,
    training_turn, zone_candidates, TrainingStatus, Zone,
};
use tak::piece::{PieceType, Player};

#[test]
fn zones_on_a_five_board() {
    let b = Board::new(5);
    let center = zone_candidates(&b, Zone::Center);
    assert_eq!(center, vec![(1, 1), (1, 2), (1, 3), (2, 1), (2, 2), (2, 3), (3, 1), (3, 2), (3, 3)]);
    let corner = zone_candidates(&b, Zone::Corner);
    assert_eq!(corner, vec![(0, 0), (0, 4), (4, 0), (4, 4)]);
    let edge = zone_candidates(&b, Zone::Edge);
    assert_eq!(edge.len(), 12);
    assert!(!edge.contains(&(0, 0)) && edge.contains(&(0, 2)) && edge.contains(&(4, 3)));
    let middle = zone_candidates(&b, Zone::Middle);
    assert!(middle.is_empty());
    let b7 = Board::new(7);
    let middle7 = zone_candidates(&b7, Zone::Middle);
    assert_eq!(middle7.len(), 16);
    assert!(middle7.contains(&(1, 1)) && !middle7.contains(&(3, 3)) && !middle7.contains(&(0, 3)));
}

#[test]
fn corners_of_a_one_board_repeat() {
    let b = Board::new(1);
    assert_eq!(zone_candidates(&b, Zone::Corner), vec![(0, 0), (0, 0), (0, 0), (0, 0)]);
    let b3 = Board::new(3);
    assert_eq!(zone_candidates(&b3, Zone::Center), vec![(1, 1)]);
}

#[test]
fn zones_skip_occupied_squares() {
    let mut b = Board::new(4);
    b.place_piece(0, 0, Player::White, PieceType::Flat).unwrap();
    b.place_piece(2, 2, Player::Black, PieceType::Flat).unwrap();
    assert_eq!(zone_candidates(&b, Zone::Corner), vec![(0, 3), (3, 0), (3, 3)]);
    assert!(!zone_candidates(&b, Zone::Center).contains(&(2, 2)));
    assert_eq!(empty_cells_in(&b, None).len(), 14);
}

#[test]
fn learned_placement_prefers_the_zone() {
    let mut rng = rand::thread_rng();
    let b = Board::new(5);
    for _ in 0..50 {
        match learned_placement(&b, Player::White, 1, Zone::Corner, true, &mut rng) {
            GameMove::Place { row, col, piece_type } => {
                assert!((row == 0 || row == 4) && (col == 0 || col == 4));
                assert_eq!(piece_type, PieceType::Flat);
            }
            _ => panic!("not a placement"),
        }
    }
    match learned_placement(&b, Player::White, 5, Zone::Middle, true, &mut rng) {
        GameMove::Place { row, col, piece_type } => {
            assert!(row < 5 && col < 5);
            assert_eq!(piece_type, PieceType::Capstone);
        }
        _ => panic!("not a placement"),
    }
}

#[test]
fn learned_placement_on_a_full_board() {
    let mut rng = rand::thread_rng();
    let mut b = Board::new(1);
    b.place_piece(0, 0, Player::White, PieceType::Flat).unwrap();
    assert_eq!(
        learned_placement(&b, Player::Black, 4, Zone::Edge, true, &mut rng),
        GameMove::Place { row: 0, col: 0, piece_type: PieceType::Flat }
    );
}

#[test]
fn move_counts() {
    let mut rng = rand::thread_rng();
    assert_eq!(learned_move_count(5, true, &mut rng), 1);
    assert_eq!(learned_move_count(1, false, &mut rng), 1);
    assert_eq!(learned_move_count(2, false, &mut rng), 2);
    for _ in 0..50 {
        let n = learned_move_count(5, false, &mut rng);
        assert!((3..=5).contains(&n));
    }
}

#[test]
fn strategy_names() {
    let p = |row, col, piece_type| GameMove::Place { row, col, piece_type };
    assert_eq!(strategy_name(5, &p(0, 0, PieceType::Flat)), "place_corner");
    assert_eq!(strategy_name(5, &p(0, 2, PieceType::Flat)), "place_edge");
    assert_eq!(strategy_name(5, &p(1, 3, PieceType::Flat)), "place_center");
    assert_eq!(strategy_name(7, &p(1, 1, PieceType::Flat)), "place_middle");
    assert_eq!(strategy_name(5, &p(2, 2, PieceType::Capstone)), "use_capstone");
    assert_eq!(strategy_name(5, &p(2, 2, PieceType::Standing)), "place_center");
    assert_eq!(strategy_name(5, &p(0, 4, PieceType::Standing)), "place_corner");
    let m = |from_row, from_col, to_row, to_col, count| GameMove::Move { from_row, from_col, to_row, to_col, count };
    assert_eq!(strategy_name(5, &m(2, 2, 1, 2, 2)), "stack_move_small_move_north");
    assert_eq!(strategy_name(5, &m(2, 2, 3, 2, 3)), "stack_move_large_move_south");
    assert_eq!(strategy_name(5, &m(2, 2, 2, 3, 1)), "stack_move_small_move_east");
    assert_eq!(strategy_name(5, &m(2, 2, 2, 1, 5)), "stack_move_large_move_west");
}

#[test]
fn first_flat_fallback() {
    let mut b = Board::new(3);
    b.place_piece(0, 0, Player::White, PieceType::Flat).unwrap();
    let (tries, ok) = place_first_flat(&mut b, Player::Black);
    assert!(ok);
    assert_eq!(tries, vec![(0, 1)]);
    assert_eq!(b.height_at(0, 1), 1);
    let mut b4 = Board::new(4);
    for i in 0..15 {
        b4.place_piece(i / 4, i % 4, Player::White, PieceType::Flat).unwrap();
    }
    let (tries, ok) = place_first_flat(&mut b4, Player::White);
    assert!(!ok);
    assert_eq!(tries, vec![(3, 3)]);
    assert!(b4.spaces[3][3].is_empty());
}

#[test]
fn training_turns() {
    let mut b = Board::new(3);
    let mut player = Player::White;
    let mut turn = 1;
    let t = training_turn(&mut b, &mut player, &mut turn, 10, GameMove::Place { row: 1, col: 1, piece_type: PieceType::Flat });
    assert_eq!(t.result, Ok(()));
    assert_eq!(t.status, TrainingStatus::Continue);
    assert_eq!((player, turn), (Player::Black, 1));
    let t = training_turn(&mut b, &mut player, &mut turn, 10, GameMove::Place { row: 1, col: 1, piece_type: PieceType::Flat });
    assert_eq!(t.result, Err("Space already occupied"));
    assert_eq!(t.fallback_tries, vec![(0, 0)]);
    assert_eq!(t.status, TrainingStatus::Continue);
    assert_eq!((player, turn), (Player::White, 2));
    let t = training_turn(&mut b, &mut player, &mut turn, 1, GameMove::Place { row: 2, col: 2, piece_type: PieceType::Flat });
    assert_eq!(t.status, TrainingStatus::TurnLimit);
    assert_eq!((player, turn), (Player::White, 2));
}

#[test]
fn training_turn_win_and_no_move() {
    let mut b = Board::new(3);
    b.place_piece(0, 0, Player::Black, PieceType::Flat).unwrap();
    b.place_piece(0, 1, Player::Black, PieceType::Flat).unwrap();
    let mut player = Player::Black;
    let mut turn = 4;
    let t = training_turn(&mut b, &mut player, &mut turn, 50, GameMove::Place { row: 0, col: 2, piece_type: PieceType::Flat });
    assert_eq!(t.status, TrainingStatus::Won(Player::Black));
    assert_eq!(player, Player::Black);
    let mut full = Board::new(1);
    full.place_piece(0, 0, Player::White, PieceType::Flat).unwrap();
    let mut player = Player::Black;
    let t = training_turn(&mut full, &mut player, &mut turn, 50, GameMove::Place { row: 0, col: 0, piece_type: PieceType::Flat });
    assert_eq!(t.status, TrainingStatus::NoValidMove);
    assert!(t.fallback_tries.is_empty());
}

#[test]
fn stack_choice_for_a_learning_opponent() {
    let mut rng = rand::thread_rng();
    let mut b = Board::new(5);
    assert_eq!(learned_stack_choice(&b, Player::White, false, &mut rng), None);
    b.place_piece(2, 2, Player::White, PieceType::Flat).unwrap();
    b.place_piece(3, 3, Player::Black, PieceType::Flat).unwrap();
    assert_eq!(learned_stack_choice(&b, Player::White, false, &mut rng), Some((2, 2, 1)));
}

#[test]
fn training_turn_full_board_is_a_draw() {
    let mut b = Board::new(2);
    b.place_piece(0, 0, Player::White, PieceType::Flat).unwrap();
    b.place_piece(1, 1, Player::Black, PieceType::Flat).unwrap();
    b.place_piece(0, 1, Player::Black, PieceType::Standing).unwrap();
    let mut player = Player::White;
    let mut turn = 3;
    let t = training_turn(&mut b, &mut player, &mut turn, 50, GameMove::Place { row: 1, col: 0, piece_type: PieceType::Standing });
    assert_eq!(t.result, Ok(()));
    assert_eq!(t.status, TrainingStatus::Draw);
    assert_eq!((player, turn), (Player::White, 3));
}

#[test]
fn training_turn_flat_win_on_a_full_board() {
    let mut b = Board::new(2);
    b.place_piece(0, 0, Player::White, PieceType::Flat).unwrap();
    b.place_piece(1, 1, Player::White, PieceType::Flat).unwrap();
    b.place_piece(0, 1, Player::Black, PieceType::Flat).unwrap();
    let mut player = Player::Black;
    let mut turn = 2;
    let t = training_turn(&mut b, &mut player, &mut turn, 50, GameMove::Place { row: 1, col: 0, piece_type: PieceType::Capstone });
    assert_eq!(t.result, Ok(()));
    assert_eq!(t.status, TrainingStatus::Won(Player::White));
    assert_eq!((player, turn), (Player::Black, 2));
}
