use custodian::GameState;
use custodian::Player;

fn counts(board: &Vec<u8>) -> (usize, usize) {
    let mut light: usize = 0;
    let mut dark: usize = 0;
    for &c in board.iter() {
        if c == 1 {
            light += 1;
        } else if c == 2 {
            dark += 1;
        }
    }
    (light, dark)
}

fn place_all(g: &mut GameState, squares: &[usize]) {
    for &sq in squares.iter() {
        assert!(g.select_square(sq), "placement on {} rejected", sq);
    }
}

#[test]
fn new_initial_state() {
    let g = GameState::new();
    assert_eq!(g.current_player(), Player::Light);
    assert!(!g.game_over());
    assert_eq!(g.winner(), None);
    assert_eq!(g.phase(), "placement");
    assert_eq!(g.selected_square(), None);
    let board = g.get_board();
    assert_eq!(board.len(), 64);
    assert!(board.iter().all(|&c| c == 0));
    let moves = g.get_valid_moves();
    assert_eq!(moves.len(), 64);
}

#[test]
fn placement_end_to_end() {
    let mut g = GameState::new();
    // Interleave rows 0/4 (light) with rows 2/6 (dark), even columns:
    // no two pieces are ever orthogonally adjacent, so nothing is captured.
    let order = [
        0, 16, 2, 18, 4, 20, 6, 22, 32, 48, 34, 50, 36, 52, 38, 54,
    ];
    assert!(g.select_square(order[0]));
    assert_eq!(g.current_player(), Player::Dark);
    let (light, dark) = counts(&g.get_board());
    assert_eq!((light, dark), (1, 0));
    for k in 1..16 {
        assert_eq!(g.phase(), "placement");
        assert!(g.select_square(order[k]));
    }
    assert_eq!(g.phase(), "movement");
    // The quota-completing placement enters the movement phase with
    // light set as the side to move.
    assert_eq!(g.current_player(), Player::Light);
    let (light, dark) = counts(&g.get_board());
    assert_eq!((light, dark), (8, 8));
    assert!(!g.game_over());
}

#[test]
fn placement_on_occupied_rejected() {
    let mut g = GameState::new();
    assert!(g.select_square(0));
    let before = g.get_board();
    assert!(!g.select_square(0));
    assert_eq!(g.get_board(), before);
    assert_eq!(g.current_player(), Player::Dark);
    assert_eq!(g.phase(), "placement");
}

#[test]
fn out_of_range_rejected() {
    let mut g = GameState::new();
    assert!(!g.select_square(64));
    assert!(!g.select_square(1000));
    assert!(g.get_board().iter().all(|&c| c == 0));
}

#[test]
fn getters_idempotent() {
    let mut g = GameState::new();
    g.select_square(27);
    assert_eq!(g.current_player(), g.current_player());
    assert_eq!(g.game_over(), g.game_over());
    assert_eq!(g.winner(), g.winner());
    assert_eq!(g.phase(), g.phase());
    assert_eq!(g.selected_square(), g.selected_square());
    assert_eq!(g.get_board(), g.get_board());
    assert_eq!(g.get_valid_moves(), g.get_valid_moves());
}

#[test]
fn jump_capture() {
    let mut g = GameState::new();
    // Light on square 0, dark on square 1, square 2 empty; the rest of
    // each side sits far away on rows 5 and 7.
    let order = [
        0, 1, 56, 40, 57, 41, 58, 42, 59, 43, 60, 44, 61, 45, 62, 46,
    ];
    place_all(&mut g, &order);
    assert_eq!(g.phase(), "movement");
    assert_eq!(g.current_player(), Player::Light);
    let (light, dark) = counts(&g.get_board());
    assert_eq!((light, dark), (8, 8));

    assert!(g.select_square(0));
    assert_eq!(g.selected_square(), Some(0));
    let mut moves = g.get_valid_moves();
    moves.sort();
    // A step down and the jump over the adjacent dark piece.
    assert_eq!(moves, vec![2, 8]);

    assert!(g.select_square(2));
    let board = g.get_board();
    assert_eq!(board[0], 0);
    assert_eq!(board[1], 0, "the leapt-over piece is removed");
    assert_eq!(board[2], 1, "the jumper lands on the far square");
    let (light, dark) = counts(&board);
    assert_eq!((light, dark), (8, 7));
    assert_eq!(g.current_player(), Player::Dark);
    assert_eq!(g.selected_square(), None);
    assert!(!g.game_over());
}

#[test]
fn flanking_capture() {
    let mut g = GameState::new();
    // Light on 0, dark on 1, light on 10; light's step 10 -> 2 flanks
    // the dark piece on 1 from both sides.
    let order = [
        0, 1, 10, 40, 56, 41, 57, 42, 58, 43, 59, 44, 60, 45, 61, 46,
    ];
    place_all(&mut g, &order);
    assert_eq!(g.phase(), "movement");
    assert_eq!(g.current_player(), Player::Light);

    assert!(g.select_square(10));
    assert!(g.select_square(2));
    let board = g.get_board();
    assert_eq!(board[1], 0, "the flanked piece is removed");
    assert_eq!(board[2], 1);
    assert_eq!(board[10], 0);
    let (light, dark) = counts(&board);
    assert_eq!((light, dark), (8, 7));
    assert_eq!(g.current_player(), Player::Dark);
}

#[test]
fn win_by_elimination() {
    let mut g = GameState::new();
    // Two 3x3 corner patterns whose dark corners flank every light piece;
    // the final placement completes the last sandwiches, and the win
    // evaluator then runs in the movement phase with no light piece left.
    let order = [
        1, 0, 8, 2, 10, 16, 17, 18, 5, 4, 12, 6, 14, 20, 21, 22,
    ];
    place_all(&mut g, &order);
    assert_eq!(g.phase(), "movement");
    let (light, dark) = counts(&g.get_board());
    assert_eq!((light, dark), (0, 8));
    assert!(g.game_over());
    assert_eq!(g.winner(), Some(Player::Dark));
    // After the game ends every further action is rejected.
    let before = g.get_board();
    assert!(!g.select_square(30));
    assert_eq!(g.get_board(), before);
}

#[test]
fn win_by_immobilization() {
    let mut g = GameState::new();
    // Light keeps a corner piece on 0, sealed by dark pieces on 1, 2, 8
    // and 16 (the jump landings 2 and 16 are occupied), and one mobile
    // piece on 13. Light's six other placements land in existing dark
    // sandwiches and are captured at once, so the movement phase starts
    // with light holding only squares 0 and 13.
    let order = [
        0, 2, 13, 4, 3, 6, 5, 1, 3, 17, 9, 8, 5, 16, 3, 18,
    ];
    place_all(&mut g, &order);
    assert_eq!(g.phase(), "movement");
    assert_eq!(g.current_player(), Player::Light);
    assert_eq!(counts(&g.get_board()), (2, 8));
    assert!(!g.game_over());
    // Light's only mobile piece steps 13 -> 5 into the sandwich of the
    // dark pieces on 4 and 6 and is captured; the piece left on 0 has no
    // destination, so the evaluator declares light the loser.
    assert!(g.select_square(13));
    assert!(g.select_square(5));
    assert_eq!(counts(&g.get_board()), (1, 8), "light keeps a piece");
    assert!(g.game_over());
    assert_eq!(g.winner(), Some(Player::Dark));
}

#[test]
fn rejected_action_leaves_state_unchanged() {
    let mut g = GameState::new();
    let order = [
        0, 16, 2, 18, 4, 20, 6, 22, 32, 48, 34, 50, 36, 52, 38, 54,
    ];
    place_all(&mut g, &order);
    assert_eq!(g.phase(), "movement");
    assert_eq!(g.current_player(), Player::Light);
    // Selecting an empty square selects nothing.
    assert!(!g.select_square(9));
    assert_eq!(g.selected_square(), None);
    // Selecting an opposing piece selects nothing.
    assert!(!g.select_square(16));
    assert_eq!(g.selected_square(), None);
    assert!(g.select_square(0));
    assert_eq!(g.selected_square(), Some(0));
    let board_before = g.get_board();
    // A distant empty square is no legal destination.
    assert!(!g.select_square(21));
    assert_eq!(g.get_board(), board_before);
    assert_eq!(g.selected_square(), Some(0));
    assert_eq!(g.current_player(), Player::Light);
    assert_eq!(g.phase(), "movement");
}

#[test]
fn occupied_count_never_grows_in_movement() {
    let mut g = GameState::new();
    let order = [
        0, 1, 56, 40, 57, 41, 58, 42, 59, 43, 60, 44, 61, 45, 62, 46,
    ];
    place_all(&mut g, &order);
    let (light, dark) = counts(&g.get_board());
    let mut total: usize = light + dark;
    assert_eq!(total, 16);
    // A jump, then an answering step; the occupied count never rises.
    for &(sel, dst) in [(0usize, 2usize), (40usize, 48usize)].iter() {
        assert!(g.select_square(sel));
        assert!(g.select_square(dst));
        let (light, dark) = counts(&g.get_board());
        assert!(light + dark <= total);
        total = light + dark;
    }
    assert_eq!(total, 15);
}

#[test]
fn reset_restores_initial_state() {
    let mut g = GameState::new();
    g.select_square(0);
    g.select_square(9);
    g.reset();
    assert_eq!(g.current_player(), Player::Light);
    assert_eq!(g.phase(), "placement");
    assert!(!g.game_over());
    assert_eq!(g.winner(), None);
    assert_eq!(g.selected_square(), None);
    assert!(g.get_board().iter().all(|&c| c == 0));
}

#[test]
fn fixed_opening() {
    let mut g = GameState::new();
    g.set_starting_pieces();
    assert_eq!(g.phase(), "movement");
    assert_eq!(g.current_player(), Player::Light);
    assert!(!g.game_over());
    assert_eq!(g.winner(), None);
    let board = g.get_board();
    for row in 0..8 {
        for col in 0..8 {
            let expect = if col == 7 {
                1
            } else if col == 0 {
                2
            } else {
                0
            };
            assert_eq!(board[row * 8 + col], expect);
        }
    }
    // Without a selection the listing holds every selectable piece: each
    // light piece can at least step toward the middle.
    let mut moves = g.get_valid_moves();
    moves.sort();
    assert_eq!(moves, vec![7, 15, 23, 31, 39, 47, 55, 63]);
}

#[test]
fn placement_listing_holds_every_empty_square() {
    let mut g = GameState::new();
    assert!(g.select_square(12));
    let moves = g.get_valid_moves();
    assert_eq!(moves.len(), 63);
    assert!(!moves.contains(&12));
    assert!(moves.contains(&0) && moves.contains(&63));
}

#[test]
fn reselection_switches_the_active_piece() {
    let mut g = GameState::new();
    let order = [
        0, 16, 2, 18, 4, 20, 6, 22, 32, 48, 34, 50, 36, 52, 38, 54,
    ];
    place_all(&mut g, &order);
    assert_eq!(g.current_player(), Player::Light);
    assert!(g.select_square(0));
    assert_eq!(g.selected_square(), Some(0));
    assert!(g.select_square(2));
    assert_eq!(g.selected_square(), Some(2));
    // Clicking the selected piece itself changes nothing.
    assert!(!g.select_square(2));
    assert_eq!(g.selected_square(), Some(2));
}
