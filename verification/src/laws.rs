//! The general laws of the engine, proved over the transition function
//! that every public mutating operation is specified by.
use vstd::prelude::*;

use crate::model::GameView;
use crate::model::Player;
use crate::model::Square;
use crate::model::apply_captures;
use crate::model::has_any_move;
use crate::model::holds_enemy;
use crate::model::interact_spec;
use crate::model::is_destination;
use crate::model::is_direction;
use crate::model::is_flanked;
use crate::model::is_jump;
use crate::model::jump_mid;
use crate::model::col_of;
use crate::model::dir_allows;
use crate::model::lemma_apply_captures_le;
use crate::model::lemma_count_nonneg;
use crate::model::lemma_count_update;
use crate::model::lemma_dest_structure;
use crate::model::lemma_jump_structure;
use crate::model::lemma_row_col;
use crate::model::lemma_square_at_inverse;
use crate::model::move_accepted;
use crate::model::move_step;
use crate::model::after_move;
use crate::model::movement_step;
use crate::model::on_board;
use crate::model::opponent;
use crate::model::piece_count;
use crate::model::placement_step;
use crate::model::row_of;
use crate::model::square_at;
use crate::model::wf;
use crate::model::win_update;

verus! {

/// An accepted placement keeps the state well formed.
proof fn lemma_placement_wf(s: GameView, sq: int)
    requires
        wf(s),
        s.phase is Placement,
        0 <= sq < 64,
        s.board[sq] is Empty,
    ensures
        wf(placement_step(s, sq)),
{
    let cur = s.current_player;
    let b1 = s.board.update(sq, Square::Piece(cur));
    lemma_count_update(s.board, Player::Light, sq, Square::Piece(cur), 64);
    lemma_count_update(s.board, Player::Dark, sq, Square::Piece(cur), 64);
    lemma_apply_captures_le(b1, Player::Light);
    lemma_apply_captures_le(b1, Player::Dark);
}

/// An accepted move keeps the state well formed and never adds a piece.
proof fn lemma_move_wf(s: GameView, from: int, to: int)
    requires
        wf(s),
        s.phase is Movement,
        move_accepted(s, from, to),
    ensures
        wf(after_move(s, from, to)),
        piece_count(after_move(s, from, to).board, Player::Light) <= piece_count(
            s.board,
            Player::Light,
        ),
        piece_count(after_move(s, from, to).board, Player::Dark) <= piece_count(
            s.board,
            Player::Dark,
        ),
{
    lemma_dest_structure(s.board, s.current_player, from, to, false);
    let piece = s.board[from];
    if is_jump(from, to) && holds_enemy(s.board, jump_mid(from, to), s.current_player) {
        lemma_jump_structure(s.board, s.current_player, from, to);
        let mid = jump_mid(from, to);
        let b_mid = s.board.update(mid, Square::Empty);
        let b_from = b_mid.update(from, Square::Empty);
        lemma_count_update(s.board, Player::Light, mid, Square::Empty, 64);
        lemma_count_update(s.board, Player::Dark, mid, Square::Empty, 64);
        lemma_count_update(b_mid, Player::Light, from, Square::Empty, 64);
        lemma_count_update(b_mid, Player::Dark, from, Square::Empty, 64);
        lemma_count_update(b_from, Player::Light, to, piece, 64);
        lemma_count_update(b_from, Player::Dark, to, piece, 64);
    } else {
        let b_from = s.board.update(from, Square::Empty);
        let b1 = b_from.update(to, piece);
        lemma_count_update(s.board, Player::Light, from, Square::Empty, 64);
        lemma_count_update(s.board, Player::Dark, from, Square::Empty, 64);
        lemma_count_update(b_from, Player::Light, to, piece, 64);
        lemma_count_update(b_from, Player::Dark, to, piece, 64);
        lemma_apply_captures_le(b1, Player::Light);
        lemma_apply_captures_le(b1, Player::Dark);
    }
}

/// A movement-phase interaction keeps the state well formed and never
/// adds a piece.
proof fn lemma_movement_wf(s: GameView, sq: int)
    requires
        wf(s),
        s.phase is Movement,
        0 <= sq < 64,
    ensures
        wf(movement_step(s, sq).0),
        piece_count(movement_step(s, sq).0.board, Player::Light) <= piece_count(
            s.board,
            Player::Light,
        ),
        piece_count(movement_step(s, sq).0.board, Player::Dark) <= piece_count(
            s.board,
            Player::Dark,
        ),
{
    match s.selected {
        Option::None => {},
        Option::Some(sel) => {
            if s.board[sel] == Square::Piece(s.current_player) && move_accepted(s, sel, sq) {
                lemma_move_wf(s, sel, sq);
            }
        },
    }
}

/// Every interaction keeps the state well formed; in particular both
/// sides' piece counts stay non-negative and sum to at most sixteen, and
/// outside the placement phase no interaction ever increases a side's
/// piece count.
pub proof fn lemma_interact_preserves_invariant(s: GameView, sq: int)
    requires
        wf(s),
    ensures
        wf(interact_spec(s, sq).0),
        piece_count(interact_spec(s, sq).0.board, Player::Light) >= 0,
        piece_count(interact_spec(s, sq).0.board, Player::Dark) >= 0,
        piece_count(interact_spec(s, sq).0.board, Player::Light) + piece_count(
            interact_spec(s, sq).0.board,
            Player::Dark,
        ) <= 16,
        s.phase is Movement ==> piece_count(interact_spec(s, sq).0.board, Player::Light)
            <= piece_count(s.board, Player::Light) && piece_count(
            interact_spec(s, sq).0.board,
            Player::Dark,
        ) <= piece_count(s.board, Player::Dark),
{
    lemma_count_nonneg(interact_spec(s, sq).0.board, Player::Light, 64);
    lemma_count_nonneg(interact_spec(s, sq).0.board, Player::Dark, 64);
    if !(0 <= sq < 64) || s.game_over {
    } else if s.phase is Placement {
        if s.board[sq] is Empty {
            lemma_placement_wf(s, sq);
        }
    } else {
        lemma_movement_wf(s, sq);
    }
}

/// An accepted placement raises the mover's counter by one, switches the
/// side to move exactly while the phase persists, and flips the phase to
/// movement — with light set as the side to move — exactly when both
/// counters reach their quota of eight. When the placement triggers no
/// capture, the mover's pieces on the board grow by one and the
/// opponent's stay.
pub proof fn lemma_placement_progress(s: GameView, sq: int)
    requires
        wf(s),
        s.phase is Placement,
        interact_spec(s, sq).1,
    ensures
        s.current_player is Light ==> interact_spec(s, sq).0.light_placed == s.light_placed + 1
            && interact_spec(s, sq).0.dark_placed == s.dark_placed,
        s.current_player is Dark ==> interact_spec(s, sq).0.dark_placed == s.dark_placed + 1
            && interact_spec(s, sq).0.light_placed == s.light_placed,
        interact_spec(s, sq).0.phase is Movement <==> (interact_spec(s, sq).0.light_placed == 8
            && interact_spec(s, sq).0.dark_placed == 8),
        interact_spec(s, sq).0.phase is Placement ==> interact_spec(s, sq).0.current_player
            == opponent(s.current_player),
        interact_spec(s, sq).0.phase is Movement ==> interact_spec(s, sq).0.current_player
            is Light,
        (forall|i: int|
            0 <= i < 64 ==> !is_flanked(
                s.board.update(sq, Square::Piece(s.current_player)),
                i,
            )) ==> piece_count(interact_spec(s, sq).0.board, s.current_player) == piece_count(
            s.board,
            s.current_player,
        ) + 1 && piece_count(interact_spec(s, sq).0.board, opponent(s.current_player))
            == piece_count(s.board, opponent(s.current_player)),
{
    let cur = s.current_player;
    let b1 = s.board.update(sq, Square::Piece(cur));
    lemma_count_update(s.board, Player::Light, sq, Square::Piece(cur), 64);
    lemma_count_update(s.board, Player::Dark, sq, Square::Piece(cur), 64);
    if forall|i: int| 0 <= i < 64 ==> !is_flanked(b1, i) {
        assert(apply_captures(b1) =~= b1);
    }
}

/// Jump-capture: a piece of the side to move that stands beside an
/// opposing piece with an empty square beyond it may leap there; the
/// interaction is accepted, the leapt-over piece is removed, and the
/// mover stands on the far square.
#[verifier::rlimit(100)]
pub proof fn lemma_jump_capture(s: GameView, from: int, dr: int, dc: int, mid: int, to: int)
    requires
        wf(s),
        !s.game_over,
        s.phase is Movement,
        s.selected == Option::Some(from),
        0 <= from < 64,
        s.board[from] == Square::Piece(s.current_player),
        is_direction(dr, dc),
        on_board(row_of(from) + dr, col_of(from) + dc),
        mid == square_at(row_of(from) + dr, col_of(from) + dc),
        s.board[mid] == Square::Piece(opponent(s.current_player)),
        on_board(row_of(from) + 2 * dr, col_of(from) + 2 * dc),
        to == square_at(row_of(from) + 2 * dr, col_of(from) + 2 * dc),
        s.board[to] is Empty,
        s.piece_that_captured != Option::Some(from),
    ensures
        interact_spec(s, to).1,
        interact_spec(s, to).0.board[mid] is Empty,
        interact_spec(s, to).0.board[to] == Square::Piece(s.current_player),
        interact_spec(s, to).0.board[from] is Empty,
{
    lemma_row_col(from);
    let rf: int = row_of(from);
    let cf: int = col_of(from);
    lemma_square_at_inverse(rf + dr, cf + dc);
    lemma_square_at_inverse(rf + 2 * dr, cf + 2 * dc);
    assert(dir_allows(s.board, s.current_player, from, dr, dc, false, to));
    assert(is_destination(s.board, s.current_player, from, to, false));
    assert(is_jump(from, to));
    assert(jump_mid(from, to) == mid);
    assert(holds_enemy(s.board, mid, s.current_player));
    assert(mid != from && mid != to && to != from);
    assert(move_accepted(s, from, to));
    let b = s.board.update(mid, Square::Empty).update(from, Square::Empty).update(
        to,
        s.board[from],
    );
    assert(move_step(s, from, to).board == b);
    assert(after_move(s, from, to).board == b);
    assert(interact_spec(s, to) == (after_move(s, from, to), true));
    assert(b[mid] is Empty && b[from] is Empty && b[to] == Square::Piece(s.current_player));
}

/// Flanking-capture: after an accepted step whose resulting position
/// flanks square `i` on either axis, square `i` is empty — whether or
/// not the flanked piece is the one that moved.
pub proof fn lemma_flanking_capture(s: GameView, from: int, dr: int, dc: int, to: int, i: int)
    requires
        wf(s),
        !s.game_over,
        s.phase is Movement,
        s.selected == Option::Some(from),
        0 <= from < 64,
        s.board[from] == Square::Piece(s.current_player),
        is_direction(dr, dc),
        on_board(row_of(from) + dr, col_of(from) + dc),
        to == square_at(row_of(from) + dr, col_of(from) + dc),
        s.board[to] is Empty,
        !s.must_continue_jumping,
        s.piece_that_captured != Option::Some(from),
        is_flanked(s.board.update(from, Square::Empty).update(to, s.board[from]), i),
    ensures
        interact_spec(s, to).1,
        interact_spec(s, to).0.board[i] is Empty,
{
    lemma_row_col(from);
    let rf: int = row_of(from);
    let cf: int = col_of(from);
    lemma_square_at_inverse(rf + dr, cf + dc);
    assert(dir_allows(s.board, s.current_player, from, dr, dc, false, to));
    assert(is_destination(s.board, s.current_player, from, to, false));
    assert(!is_jump(from, to));
    assert(0 <= i < 64);
}

/// Win by elimination: an accepted action that leaves one side without
/// pieces in the movement phase, the other side keeping some, ends the
/// game in the surviving side's favour.
pub proof fn lemma_win_by_elimination(s: GameView, sq: int, p: Player)
    requires
        wf(s),
        interact_spec(s, sq).1,
        interact_spec(s, sq).0.phase is Movement,
        piece_count(s.board, p) > 0,
        piece_count(interact_spec(s, sq).0.board, p) == 0,
        piece_count(interact_spec(s, sq).0.board, opponent(p)) > 0,
    ensures
        interact_spec(s, sq).0.game_over,
        interact_spec(s, sq).0.winner == Option::Some(opponent(p)),
{
}

/// Win by immobilization: in a movement-phase position where both sides
/// keep pieces but the side to move has no legal destination anywhere,
/// the win evaluator declares the side to move the loser.
pub proof fn lemma_win_by_immobilization(s: GameView)
    requires
        s.phase is Movement,
        piece_count(s.board, Player::Light) > 0,
        piece_count(s.board, Player::Dark) > 0,
        !has_any_move(s.board, s.current_player, false),
    ensures
        win_update(s).game_over,
        win_update(s).winner == Option::Some(opponent(s.current_player)),
{
}

/// Win by immobilization, at the entry point: a movement-phase action
/// that changes the board and leaves the mover — the side that was to
/// move, whose turn the evaluator judges before any switch — without a
/// legal destination while both sides keep pieces, ends the game against
/// the mover.
pub proof fn lemma_immobilizing_move_ends_game(s: GameView, sq: int)
    requires
        wf(s),
        s.phase is Movement,
        interact_spec(s, sq).1,
        interact_spec(s, sq).0.board != s.board,
        piece_count(interact_spec(s, sq).0.board, Player::Light) > 0,
        piece_count(interact_spec(s, sq).0.board, Player::Dark) > 0,
        !has_any_move(interact_spec(s, sq).0.board, s.current_player, false),
    ensures
        interact_spec(s, sq).0.game_over,
        interact_spec(s, sq).0.winner == Option::Some(opponent(s.current_player)),
{
}

/// A rejected interaction leaves the state exactly as it was.
pub proof fn lemma_rejected_action_unchanged(s: GameView, sq: int)
    requires
        wf(s),
        !interact_spec(s, sq).1,
    ensures
        interact_spec(s, sq).0 == s,
{
}

} // verus!
