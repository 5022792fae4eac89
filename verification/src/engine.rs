//! The executable engine: one state aggregate, one mutating entry point,
//! and the read accessors.
use vstd::prelude::*;
use vstd::pervasive::VecAdditionalExecFns;
use vstd::string::StringExecFns;

use crate::model::apply_captures;
use crate::model::flanker_upto;
use crate::model::flanks;
use crate::model::h_flanked;
use crate::model::is_flanked;
use crate::model::is_flanker;
use crate::model::lemma_flanker_full;
use crate::model::lemma_flanker_step;
use crate::model::same_but_board;
use crate::model::v_flanked;
use crate::model::GamePhase;
use crate::model::GameView;
use crate::model::Player;
use crate::model::Square;
use crate::model::dir_allows;
use crate::model::has_destination;
use crate::model::initial_state;
use crate::model::is_destination;
use crate::model::is_direction;
use crate::model::lemma_square_at_inverse;
use crate::model::count_upto;
use crate::model::destinations_list;
use crate::model::dir_target;
use crate::model::empty_square_pred;
use crate::model::indices_upto;
use crate::model::lemma_destinations_no_duplicates;
use crate::model::lemma_indices_upto;
use crate::model::listing_of;
use crate::model::selectable_pred;
use crate::model::strictly_ascending;
use crate::model::target_seq;
use crate::model::has_any_move;
use crate::model::holds_enemy;
use crate::model::is_jump;
use crate::model::jump_mid;
use crate::model::lemma_jump_structure;
use crate::model::move_accepted;
use crate::model::move_step;
use crate::model::win_update;
use crate::model::after_move;
use crate::model::fixed_opening;
use crate::model::interact_spec;
use crate::model::listed_move;
use crate::model::placement_step;
use crate::model::square_code;
use crate::model::starting_board;
use crate::model::wf;

verus! {

broadcast use crate::model::lemma_push_contains;

/// The sole mutable aggregate of the rules engine.
pub struct GameState {
    board: Vec<Square>,
    current_player: Player,
    phase: GamePhase,
    light_pieces_placed: u8,
    dark_pieces_placed: u8,
    selected_square: Option<usize>,
    must_continue_jumping: bool,
    piece_that_captured: Option<usize>,
    game_over: bool,
    winner: Option<Player>,
}

pub open spec fn opt_index(o: Option<usize>) -> Option<int> {
    match o {
        Option::Some(i) => Option::Some(i as int),
        Option::None => Option::None,
    }
}

impl View for GameState {
    type V = GameView;

    closed spec fn view(&self) -> GameView {
        GameView {
            board: self.board@,
            current_player: self.current_player,
            phase: self.phase,
            light_placed: self.light_pieces_placed as int,
            dark_placed: self.dark_pieces_placed as int,
            selected: opt_index(self.selected_square),
            must_continue_jumping: self.must_continue_jumping,
            piece_that_captured: opt_index(self.piece_that_captured),
            game_over: self.game_over,
            winner: self.winner,
        }
    }
}

/// Linear membership scan over a listing of square indices.
fn vec_contains(v: &Vec<usize>, x: usize) -> (r: bool)
    ensures
        r == v@.contains(x),
{
    let mut found: bool = false;
    let mut i: usize = 0;
    while i < v.len()
        invariant
            i <= v@.len(),
            found == exists|k: int| 0 <= k < i && v@[k] == x,
        decreases v@.len() - i,
    {
        if v[i] == x {
            found = true;
        }
        i = i + 1;
    }
    found
}

impl GameState {
    /// A fresh engine: empty board, light to move, placement phase.
    pub fn new() -> (r: GameState)
        ensures
            r@ == initial_state(),
            wf(r@),
    {
        let mut board: Vec<Square> = Vec::new();
        let mut i: usize = 0;
        while i < 64
            invariant
                i <= 64,
                board@.len() == i,
                forall|k: int| 0 <= k < i ==> board@[k] is Empty,
            decreases 64 - i,
        {
            board.push(Square::Empty);
            i = i + 1;
        }
        let r = GameState {
            board,
            current_player: Player::Light,
            phase: GamePhase::Placement,
            light_pieces_placed: 0,
            dark_pieces_placed: 0,
            selected_square: None,
            must_continue_jumping: false,
            piece_that_captured: None,
            game_over: false,
            winner: None,
        };
        proof {
            assert(r@.board =~= initial_state().board);
            assert(r@ =~= initial_state());
            crate::model::lemma_count_all_empty(r@.board, Player::Light, 64);
            crate::model::lemma_count_all_empty(r@.board, Player::Dark, 64);
        }
        r
    }

    /// The side to move.
    pub fn current_player(&self) -> (r: Player)
        ensures
            r == self@.current_player,
    {
        self.current_player
    }

    /// Whether the game has ended.
    pub fn game_over(&self) -> (r: bool)
        ensures
            r == self@.game_over,
    {
        self.game_over
    }

    /// The winner, absent while the game is ongoing.
    pub fn winner(&self) -> (r: Option<Player>)
        ensures
            r == self@.winner,
    {
        self.winner
    }

    /// The current phase's tag.
    pub fn phase(&self) -> (r: String)
        ensures
            self@.phase is Placement ==> r@ == "placement"@,
            self@.phase is Movement ==> r@ == "movement"@,
    {
        match self.phase {
            GamePhase::Placement => String::from_str("placement"),
            GamePhase::Movement => String::from_str("movement"),
        }
    }

    /// One orthogonal direction of the move generator: record the step
    /// onto an empty adjacent square, or the jump over an adjacent
    /// opposing piece onto the empty square beyond it.
    fn probe_direction(&self, from: usize, dr: i32, dc: i32, jumps_only: bool, dests: &mut Vec<
        usize,
    >)
        requires
            self@.board.len() == 64,
            from < 64,
            is_direction(dr as int, dc as int),
        ensures
            forall|t: usize|
                #[trigger] final(dests)@.contains(t) <==> (old(dests)@.contains(t) || dir_allows(
                    self@.board,
                    self@.current_player,
                    from as int,
                    dr as int,
                    dc as int,
                    jumps_only,
                    t as int,
                )),
            final(dests)@ == old(dests)@ + target_seq(
                dir_target(
                    self@.board,
                    self@.current_player,
                    from as int,
                    dr as int,
                    dc as int,
                    jumps_only,
                ),
            ),
    {
        let row: usize = from / 8;
        let col: usize = from % 8;
        let new_row: i32 = row as i32 + dr;
        let new_col: i32 = col as i32 + dc;
        if new_row >= 0 && new_row < 8 && new_col >= 0 && new_col < 8 {
            let to: usize = (new_row * 8 + new_col) as usize;
            proof {
                lemma_square_at_inverse(new_row as int, new_col as int);
            }
            match self.board[to] {
                Square::Empty => {
                    if !jumps_only {
                        dests.push(to);
                    }
                },
                Square::Piece(p) => {
                    if p != self.current_player {
                        let jump_row: i32 = new_row + dr;
                        let jump_col: i32 = new_col + dc;
                        if jump_row >= 0 && jump_row < 8 && jump_col >= 0 && jump_col < 8 {
                            let jump_to: usize = (jump_row * 8 + jump_col) as usize;
                            proof {
                                lemma_square_at_inverse(jump_row as int, jump_col as int);
                            }
                            match self.board[jump_to] {
                                Square::Empty => {
                                    dests.push(jump_to);
                                },
                                Square::Piece(_) => {},
                            }
                        }
                    }
                },
            }
        }
    }

    /// All legal destinations from `from`, narrowed to jumps when
    /// `jumps_only` holds (jumps are always included).
    fn get_valid_destinations_internal(&self, from: usize, jumps_only: bool) -> (r: Vec<usize>)
        requires
            self@.board.len() == 64,
        ensures
            forall|t: usize|
                #[trigger] r@.contains(t) <==> is_destination(
                    self@.board,
                    self@.current_player,
                    from as int,
                    t as int,
                    jumps_only,
                ),
            (r@.len() != 0) == has_destination(
                self@.board,
                self@.current_player,
                from as int,
                jumps_only,
            ),
            r@ == destinations_list(
                self@.board,
                self@.current_player,
                from as int,
                jumps_only,
            ),
            r@.no_duplicates(),
    {
        proof {
            lemma_destinations_no_duplicates(
                self@.board,
                self@.current_player,
                from as int,
                jumps_only,
            );
        }
        let mut dests: Vec<usize> = Vec::new();
        if from >= 64 {
            proof {
                assert(forall|t: usize| !dests@.contains(t));
                if has_destination(self@.board, self@.current_player, from as int, jumps_only) {
                    let to = choose|to: int|
                        #[trigger] is_destination(
                            self@.board,
                            self@.current_player,
                            from as int,
                            to,
                            jumps_only,
                        );
                    assert(false);
                }
            }
            return dests;
        }
        self.probe_direction(from, -1, 0, jumps_only, &mut dests);
        self.probe_direction(from, 1, 0, jumps_only, &mut dests);
        self.probe_direction(from, 0, -1, jumps_only, &mut dests);
        self.probe_direction(from, 0, 1, jumps_only, &mut dests);
        proof {
            if dests@.len() != 0 {
                assert(dests@.contains(dests@[0]));
                assert(is_destination(
                    self@.board,
                    self@.current_player,
                    from as int,
                    dests@[0] as int,
                    jumps_only,
                ));
                assert(has_destination(
                    self@.board,
                    self@.current_player,
                    from as int,
                    jumps_only,
                ));
            }
            if has_destination(self@.board, self@.current_player, from as int, jumps_only) {
                let to = choose|to: int|
                    #[trigger] is_destination(
                        self@.board,
                        self@.current_player,
                        from as int,
                        to,
                        jumps_only,
                    );
                crate::model::lemma_row_col(from as int);
                assert(0 <= to < 64);
                assert(dests@.contains(to as usize));
            }
        }
        dests
    }

    /// The flanking-capture scan: collect every flanked square over the
    /// whole board, then clear them in one batch, and report which of the
    /// side to move's pieces flank a captured square.
    #[verifier::loop_isolation(false)]
    #[verifier::rlimit(100)]
    fn check_captures(&mut self) -> (r: Vec<usize>)
        requires
            old(self)@.board.len() == 64,
        ensures
            final(self)@ == (GameView { board: apply_captures(old(self)@.board), ..old(self)@ }),
            forall|j: usize|
                #[trigger] r@.contains(j) <==> is_flanker(
                    old(self)@.board,
                    old(self)@.current_player,
                    j as int,
                ),
    {
        let ghost b0 = self@.board;
        let ghost me = self@.current_player;
        let mut captured: Vec<usize> = Vec::new();
        let mut capturing: Vec<usize> = Vec::new();
        let mut i: usize = 0;
        while i < 64
            invariant
                i <= 64,
                forall|j: usize|
                    #[trigger] captured@.contains(j) <==> ((j as int) < i && is_flanked(
                        b0,
                        j as int,
                    )),
                forall|j: usize|
                    #[trigger] capturing@.contains(j) <==> flanker_upto(b0, me, j as int, i as int),
            decreases 64 - i,
        {
            let ghost cap0 = captured@;
            let ghost ing0 = capturing@;
            let col: usize = i % 8;
            let row: usize = i / 8;
            let mut h_capture: bool = false;
            match self.board[i] {
                Square::Piece(piece_player) => {
                    if col >= 1 && col <= 6 {
                        match (self.board[i - 1], self.board[i + 1]) {
                            (Square::Piece(lp), Square::Piece(rp)) => {
                                if lp != piece_player && rp != piece_player && lp == rp {
                                    h_capture = true;
                                    captured.push(i);
                                    if lp == self.current_player {
                                        capturing.push(i - 1);
                                    }
                                    if rp == self.current_player {
                                        capturing.push(i + 1);
                                    }
                                }
                            },
                            _ => {},
                        }
                    }
                    if !h_capture {
                        if row >= 1 && row <= 6 {
                            match (self.board[i - 8], self.board[i + 8]) {
                                (Square::Piece(up), Square::Piece(dp)) => {
                                    if up != piece_player && dp != piece_player && up == dp {
                                        captured.push(i);
                                        if up == self.current_player {
                                            capturing.push(i - 8);
                                        }
                                        if dp == self.current_player {
                                            capturing.push(i + 8);
                                        }
                                    }
                                },
                                _ => {},
                            }
                        }
                    }
                },
                Square::Empty => {},
            }
            proof {
                assert(h_capture == h_flanked(b0, i as int));
                assert(captured@.contains(i) == is_flanked(b0, i as int));
                assert forall|j: usize| #[trigger] captured@.contains(j) implies ((j as int) < i
                    + 1 && is_flanked(b0, j as int)) by {
                    if !cap0.contains(j) {
                        assert(j == i);
                    }
                }
                assert forall|j: usize| ((j as int) < i + 1 && is_flanked(b0, j as int)) implies #[trigger] captured@.contains(
                    j,
                ) by {
                    if (j as int) < i {
                        assert(cap0.contains(j));
                    }
                }
                assert forall|j: usize|
                    #[trigger] capturing@.contains(j) == flanker_upto(
                        b0,
                        me,
                        j as int,
                        i + 1,
                    ) by {
                    lemma_flanker_step(b0, me, j as int, i as int);
                    assert(ing0.contains(j) == flanker_upto(b0, me, j as int, i as int));
                    assert(capturing@.contains(j) <==> (ing0.contains(j) || (0 <= j < 64 && b0[
                        j as int] == Square::Piece(me) && flanks(b0, i as int, j as int))));
                }
            }
            i = i + 1;
        }
        proof {
            assert forall|k2: int| 0 <= k2 < captured@.len() implies captured@[k2] < 64 by {
                assert(captured@.contains(captured@[k2]));
            }
        }
        let mut k: usize = 0;
        while k < captured.len()
            invariant
                k <= captured.len(),
                forall|k2: int| 0 <= k2 < captured@.len() ==> captured@[k2] < 64,
                self@.board.len() == 64,
                same_but_board(self@, old(self)@),
                forall|m: int|
                    0 <= m < 64 && !is_flanked(b0, m) ==> self@.board[m] == b0[m],
                forall|k2: int|
                    0 <= k2 < k ==> self@.board[captured@[k2] as int] is Empty,
                forall|m: int|
                    0 <= m < 64 && self@.board[m] != b0[m] ==> self@.board[m] is Empty,
            decreases captured.len() - k,
        {
            let sq: usize = captured[k];
            proof {
                assert(captured@.contains(captured@[k as int]));
            }
            self.board.set(sq, Square::Empty);
            k = k + 1;
        }
        proof {
            assert forall|m: int| 0 <= m < 64 && is_flanked(b0, m) implies self@.board[m]
                is Empty by {
                assert(captured@.contains(m as usize));
                let k2 = choose|k2: int| 0 <= k2 < captured@.len() && captured@[k2] == m as usize;
                assert(self@.board[captured@[k2] as int] is Empty);
            }
            assert(self@.board =~= apply_captures(b0));
            assert(self@ =~= (GameView { board: apply_captures(old(self)@.board), ..old(self)@ }));
            assert forall|j: usize|
                #[trigger] capturing@.contains(j) == is_flanker(b0, me, j as int) by {
                lemma_flanker_full(b0, me, j as int);
            }
        }
        capturing
    }

    /// Destinations under the pending jump-chain narrowing.
    fn get_valid_destinations(&self, from: usize) -> (r: Vec<usize>)
        requires
            self@.board.len() == 64,
        ensures
            forall|t: usize|
                #[trigger] r@.contains(t) <==> is_destination(
                    self@.board,
                    self@.current_player,
                    from as int,
                    t as int,
                    self@.must_continue_jumping,
                ),
            (r@.len() != 0) == has_destination(
                self@.board,
                self@.current_player,
                from as int,
                self@.must_continue_jumping,
            ),
            r@ == destinations_list(
                self@.board,
                self@.current_player,
                from as int,
                self@.must_continue_jumping,
            ),
            r@.no_duplicates(),
    {
        self.get_valid_destinations_internal(from, self.must_continue_jumping)
    }

    /// Destinations narrowed to jumps, for the forced-continuation probe.
    fn get_valid_destinations_jumps_only(&self, from: usize) -> (r: Vec<usize>)
        requires
            self@.board.len() == 64,
        ensures
            (r@.len() != 0) == has_destination(
                self@.board,
                self@.current_player,
                from as int,
                true,
            ),
    {
        self.get_valid_destinations_internal(from, true)
    }

    /// Hand the turn to the other side.
    fn switch_player(&mut self)
        ensures
            final(self)@ == crate::model::switch_player(old(self)@),
    {
        self.current_player = match self.current_player {
            Player::Light => Player::Dark,
            Player::Dark => Player::Light,
        };
        self.piece_that_captured = None;
    }

    /// The win evaluator: in the movement phase, elimination first, then
    /// immobilization of the side to move.
    #[verifier::loop_isolation(false)]
    fn check_win_condition(&mut self)
        requires
            old(self)@.board.len() == 64,
        ensures
            final(self)@ == win_update(old(self)@),
    {
        if self.phase != GamePhase::Movement {
            return;
        }
        let mut light_count: usize = 0;
        let mut dark_count: usize = 0;
        let mut i: usize = 0;
        while i < 64
            invariant
                i <= 64,
                light_count <= i,
                dark_count <= i,
                light_count == count_upto(self@.board, Player::Light, i as int),
                dark_count == count_upto(self@.board, Player::Dark, i as int),
            decreases 64 - i,
        {
            match self.board[i] {
                Square::Piece(Player::Light) => {
                    light_count = light_count + 1;
                },
                Square::Piece(Player::Dark) => {
                    dark_count = dark_count + 1;
                },
                Square::Empty => {},
            }
            i = i + 1;
        }
        if light_count == 0 && dark_count > 0 {
            self.game_over = true;
            self.winner = Some(Player::Dark);
            return;
        }
        if dark_count == 0 && light_count > 0 {
            self.game_over = true;
            self.winner = Some(Player::Light);
            return;
        }
        let mut has_valid_moves: bool = false;
        let mut j: usize = 0;
        while j < 64
            invariant
                j <= 64,
                has_valid_moves == exists|m: int|
                    0 <= m < j && self@.board[m] == Square::Piece(self@.current_player)
                        && #[trigger] has_destination(
                        self@.board,
                        self@.current_player,
                        m,
                        false,
                    ),
            decreases 64 - j,
        {
            match self.board[j] {
                Square::Piece(p) => {
                    if p == self.current_player {
                        let dests = self.get_valid_destinations_internal(j, false);
                        if dests.len() > 0 {
                            has_valid_moves = true;
                        }
                    }
                },
                Square::Empty => {},
            }
            j = j + 1;
        }
        proof {
            if has_valid_moves {
                let m = choose|m: int|
                    0 <= m < 64 && self@.board[m] == Square::Piece(self@.current_player)
                        && #[trigger] has_destination(
                        self@.board,
                        self@.current_player,
                        m,
                        false,
                    );
                assert(has_any_move(self@.board, self@.current_player, false));
            }
            if has_any_move(self@.board, self@.current_player, false) {
                let m = choose|m: int|
                    0 <= m < 64 && #[trigger] self@.board[m] == Square::Piece(self@.current_player)
                        && has_destination(
                        self@.board,
                        self@.current_player,
                        m,
                        false,
                    );
                assert(has_valid_moves);
            }
        }
        if !has_valid_moves {
            self.game_over = true;
            self.winner = Some(
                match self.current_player {
                    Player::Light => Player::Dark,
                    Player::Dark => Player::Light,
                },
            );
        }
    }

    /// Execute a move from `from` to `to` when `to` is a legal
    /// destination and `from` has not already captured this turn. A
    /// straight-line jump removes the leapt-over piece and records the
    /// mover as this turn's capturing piece; any other accepted move
    /// relocates the piece and runs the flanking-capture scan.
    fn make_move(&mut self, from: usize, to: usize) -> (r: bool)
        requires
            old(self)@.board.len() == 64,
        ensures
            r == move_accepted(old(self)@, from as int, to as int),
            r ==> final(self)@ == move_step(old(self)@, from as int, to as int),
            !r ==> final(self)@ == old(self)@,
    {
        if from >= 64 || to >= 64 {
            return false;
        }
        let valid_destinations = self.get_valid_destinations_internal(from, false);
        if !vec_contains(&valid_destinations, to) {
            return false;
        }
        match self.piece_that_captured {
            Some(cp) => {
                if cp == from {
                    return false;
                }
            },
            None => {},
        }
        let row_from: usize = from / 8;
        let col_from: usize = from % 8;
        let row_to: usize = to / 8;
        let col_to: usize = to % 8;
        let dr: i32 = row_to as i32 - row_from as i32;
        let dc: i32 = col_to as i32 - col_from as i32;
        let ghost b0 = self@.board;
        let mut captured_by_jump: bool = false;
        if dr == 2 || dr == -2 || dc == 2 || dc == -2 {
            proof {
                lemma_jump_structure(self@.board, self@.current_player, from as int, to as int);
            }
            let jumped_index: usize = (from + to) / 2;
            match self.board[jumped_index] {
                Square::Piece(jumped_piece) => {
                    if jumped_piece != self.current_player {
                        self.board.set(jumped_index, Square::Empty);
                        captured_by_jump = true;
                    }
                },
                Square::Empty => {},
            }
        }
        proof {
            assert(captured_by_jump == (is_jump(from as int, to as int) && holds_enemy(
                b0,
                jump_mid(from as int, to as int),
                self@.current_player,
            )));
            assert(self@.board[from as int] == b0[from as int]);
        }
        let piece = self.board[from];
        self.board.set(from, Square::Empty);
        self.board.set(to, piece);
        if captured_by_jump {
            self.piece_that_captured = Some(to);
            proof {
                assert(self@.board =~= b0.update(
                    jump_mid(from as int, to as int),
                    Square::Empty,
                ).update(from as int, Square::Empty).update(to as int, b0[from as int]));
            }
            self.check_win_condition();
            return true;
        }
        let ghost b1 = b0.update(from as int, Square::Empty).update(to as int, b0[from as int]);
        proof {
            assert(self@.board =~= b1);
        }
        let capturing_pieces = self.check_captures();
        if vec_contains(&capturing_pieces, to) && self.piece_that_captured.is_none() {
            self.piece_that_captured = Some(to);
        }
        self.check_win_condition();
        true
    }

    /// The currently selected square, absent if none.
    pub fn selected_square(&self) -> (r: Option<usize>)
        ensures
            opt_index(r) == self@.selected,
    {
        self.selected_square
    }

    /// Select the clicked square if it holds a movable piece of the side
    /// to move.
    fn try_select(&mut self, square: usize) -> (r: bool)
        requires
            old(self)@.board.len() == 64,
            square < 64,
        ensures
            r == crate::model::try_select(old(self)@, square as int).1,
            final(self)@ == crate::model::try_select(old(self)@, square as int).0,
    {
        let mut selectable: bool = false;
        match self.board[square] {
            Square::Piece(p) => {
                if p == self.current_player {
                    let vd = self.get_valid_destinations_internal(square, false);
                    if vd.len() > 0 {
                        selectable = true;
                    }
                }
            },
            Square::Empty => {},
        }
        if selectable {
            self.selected_square = Some(square);
            self.must_continue_jumping = false;
            self.piece_that_captured = None;
            true
        } else {
            false
        }
    }

    /// The sole mutating entry point: interact with square `square`, and
    /// report whether the action had any effect.
    pub fn select_square(&mut self, square: usize) -> (r: bool)
        requires
            wf(old(self)@),
        ensures
            r == interact_spec(old(self)@, square as int).1,
            final(self)@ == interact_spec(old(self)@, square as int).0,
            wf(final(self)@),
    {
        proof {
            crate::laws::lemma_interact_preserves_invariant(old(self)@, square as int);
        }
        if square >= 64 || self.game_over {
            return false;
        }
        match self.phase {
            GamePhase::Placement => {
                match self.board[square] {
                    Square::Piece(_) => false,
                    Square::Empty => {
                        self.board.set(square, Square::Piece(self.current_player));
                        match self.current_player {
                            Player::Light => {
                                self.light_pieces_placed = self.light_pieces_placed + 1;
                                if self.light_pieces_placed == 8 {
                                    if self.dark_pieces_placed == 8 {
                                        self.phase = GamePhase::Movement;
                                        self.current_player = Player::Light;
                                    } else {
                                        self.switch_player();
                                    }
                                } else {
                                    self.switch_player();
                                }
                            },
                            Player::Dark => {
                                self.dark_pieces_placed = self.dark_pieces_placed + 1;
                                if self.dark_pieces_placed == 8 {
                                    // Both quotas are met: enter the movement
                                    // phase with light as the side to move.
                                    self.phase = GamePhase::Movement;
                                    self.current_player = Player::Light;
                                } else {
                                    self.switch_player();
                                }
                            },
                        }
                        let _ = self.check_captures();
                        self.check_win_condition();
                        proof {
                            assert(final(self)@ == placement_step(old(self)@, square as int));
                        }
                        true
                    },
                }
            },
            GamePhase::Movement => {
                match self.selected_square {
                    None => self.try_select(square),
                    Some(selected) => {
                        let sel_live = match self.board[selected] {
                            Square::Piece(p) => p == self.current_player,
                            Square::Empty => false,
                        };
                        if !sel_live {
                            // The selected piece is gone (it was captured):
                            // clear the selection and treat the click as a
                            // plain selection attempt.
                            self.selected_square = None;
                            self.must_continue_jumping = false;
                            return self.try_select(square);
                        }
                        let mut reselect: bool = false;
                        match self.board[square] {
                            Square::Piece(p) => {
                                if p == self.current_player && square != selected {
                                    let vd = self.get_valid_destinations_internal(square, false);
                                    if vd.len() > 0 {
                                        reselect = true;
                                    }
                                }
                            },
                            Square::Empty => {},
                        }
                        if reselect {
                            // Switching the active piece abandons any pending
                            // jump chain on the old one.
                            self.selected_square = Some(square);
                            self.must_continue_jumping = false;
                            self.piece_that_captured = None;
                            return true;
                        }
                        if self.must_continue_jumping {
                            let row_from: usize = selected / 8;
                            let col_from: usize = selected % 8;
                            let row_to: usize = square / 8;
                            let col_to: usize = square % 8;
                            let dr: i32 = row_to as i32 - row_from as i32;
                            let dc: i32 = col_to as i32 - col_from as i32;
                            if !(dr == 2 || dr == -2 || dc == 2 || dc == -2) {
                                // A non-jump while a jump chain is pending is
                                // rejected; a reselection was already ruled
                                // out above.
                                return false;
                            }
                        }
                        if self.make_move(selected, square) {
                            let piece_still_exists = match self.board[square] {
                                Square::Piece(p) => p == self.current_player,
                                Square::Empty => false,
                            };
                            let row_from: usize = selected / 8;
                            let col_from: usize = selected % 8;
                            let row_to: usize = square / 8;
                            let col_to: usize = square % 8;
                            let dr: i32 = row_to as i32 - row_from as i32;
                            let dc: i32 = col_to as i32 - col_from as i32;
                            let was_jump = dr == 2 || dr == -2 || dc == 2 || dc == -2;
                            if was_jump && piece_still_exists {
                                let already = match self.piece_that_captured {
                                    Some(cp) => cp == square,
                                    None => false,
                                };
                                if already {
                                    // The piece has already captured this
                                    // turn: the turn ends.
                                    self.selected_square = None;
                                    self.must_continue_jumping = false;
                                    self.piece_that_captured = None;
                                    self.switch_player();
                                } else {
                                    let additional_jumps = self.get_valid_destinations_jumps_only(
                                        square,
                                    );
                                    if additional_jumps.len() > 0 {
                                        self.selected_square = Some(square);
                                        self.must_continue_jumping = true;
                                    } else {
                                        self.selected_square = None;
                                        self.must_continue_jumping = false;
                                        self.piece_that_captured = None;
                                        self.switch_player();
                                    }
                                }
                            } else {
                                self.selected_square = None;
                                self.must_continue_jumping = false;
                                self.piece_that_captured = None;
                                self.switch_player();
                            }
                            proof {
                                assert(final(self)@ == after_move(
                                    old(self)@,
                                    selected as int,
                                    square as int,
                                ));
                            }
                            true
                        } else {
                            false
                        }
                    },
                }
            },
        }
    }

    /// The full 64-square occupancy snapshot: 0 empty, 1 light, 2 dark.
    pub fn get_board(&self) -> (r: Vec<u8>)
        requires
            wf(self@),
        ensures
            r@.len() == 64,
            forall|k: int| 0 <= k < 64 ==> r@[k] == square_code(self@.board[k]),
    {
        let mut out: Vec<u8> = Vec::new();
        let mut i: usize = 0;
        while i < 64
            invariant
                i <= 64,
                self@.board.len() == 64,
                out@.len() == i,
                forall|k: int| 0 <= k < i ==> out@[k] == square_code(self@.board[k]),
            decreases 64 - i,
        {
            let code: u8 = match self.board[i] {
                Square::Empty => 0,
                Square::Piece(Player::Light) => 1,
                Square::Piece(Player::Dark) => 2,
            };
            out.push(code);
            i = i + 1;
        }
        out
    }

    /// The square indices the present context accepts: empty squares
    /// during placement, the live selection's destinations, or the
    /// selectable pieces of the side to move. The two whole-board scans
    /// list their squares in strictly increasing order; no listing ever
    /// repeats a square.
    #[verifier::loop_isolation(false)]
    pub fn get_valid_moves(&self) -> (r: Vec<usize>)
        requires
            wf(self@),
        ensures
            forall|t: usize| #[trigger] r@.contains(t) <==> listed_move(self@, t as int),
            r@ == listing_of(self@),
            r@.no_duplicates(),
            self@.phase is Placement ==> strictly_ascending(r@),
            self@.phase is Movement && self@.selected is None ==> strictly_ascending(r@),
    {
        match self.phase {
            GamePhase::Placement => {
                let mut moves: Vec<usize> = Vec::new();
                let mut i: usize = 0;
                while i < 64
                    invariant
                        i <= 64,
                        forall|t: usize|
                            #[trigger] moves@.contains(t) <==> ((t as int) < i
                                && self@.board[t as int] is Empty),
                        moves@ == indices_upto(i as int, empty_square_pred(self@)),
                    decreases 64 - i,
                {
                    match self.board[i] {
                        Square::Empty => {
                            moves.push(i);
                        },
                        Square::Piece(_) => {},
                    }
                    i = i + 1;
                }
                proof {
                    lemma_indices_upto(64, empty_square_pred(self@));
                }
                moves
            },
            GamePhase::Movement => {
                match self.selected_square {
                    Some(selected) => {
                        let live = match self.board[selected] {
                            Square::Piece(p) => p == self.current_player,
                            Square::Empty => false,
                        };
                        if live {
                            self.get_valid_destinations(selected)
                        } else {
                            let moves: Vec<usize> = Vec::new();
                            moves
                        }
                    },
                    None => {
                        let mut moves: Vec<usize> = Vec::new();
                        let mut i: usize = 0;
                        while i < 64
                            invariant
                                i <= 64,
                                forall|t: usize|
                                    #[trigger] moves@.contains(t) <==> ((t as int) < i
                                        && self@.board[t as int] == Square::Piece(
                                        self@.current_player,
                                    ) && has_destination(
                                        self@.board,
                                        self@.current_player,
                                        t as int,
                                        false,
                                    )),
                                moves@ == indices_upto(i as int, selectable_pred(self@)),
                            decreases 64 - i,
                        {
                            match self.board[i] {
                                Square::Piece(p) => {
                                    if p == self.current_player {
                                        let vd = self.get_valid_destinations_internal(i, false);
                                        if vd.len() > 0 {
                                            moves.push(i);
                                        }
                                    }
                                },
                                Square::Empty => {},
                            }
                            i = i + 1;
                        }
                        proof {
                            lemma_indices_upto(64, selectable_pred(self@));
                        }
                        moves
                    },
                }
            },
        }
    }

    /// Replace the state wholesale with a fresh initial configuration.
    pub fn reset(&mut self)
        ensures
            final(self)@ == initial_state(),
            wf(final(self)@),
    {
        *self = GameState::new();
    }

    /// The alternate constructor's filling: each side's eight pieces on
    /// its edge file, the phase already movement, light to move, captures
    /// and the win evaluator already run once.
    pub fn set_starting_pieces(&mut self)
        ensures
            final(self)@ == fixed_opening(),
            final(self)@ == crate::model::opening_base(),
            wf(final(self)@),
    {
        proof {
            crate::model::lemma_opening_clean();
        }
        let mut board: Vec<Square> = Vec::new();
        let mut i: usize = 0;
        while i < 64
            invariant
                i <= 64,
                board@.len() == i,
                forall|k: int| 0 <= k < i ==> board@[k] == starting_board()[k],
            decreases 64 - i,
        {
            let col: usize = i % 8;
            if col == 7 {
                board.push(Square::Piece(Player::Light));
            } else if col == 0 {
                board.push(Square::Piece(Player::Dark));
            } else {
                board.push(Square::Empty);
            }
            i = i + 1;
        }
        self.board = board;
        self.light_pieces_placed = 8;
        self.dark_pieces_placed = 8;
        self.phase = GamePhase::Movement;
        self.current_player = Player::Light;
        self.selected_square = None;
        self.must_continue_jumping = false;
        self.piece_that_captured = None;
        self.game_over = false;
        self.winner = None;
        proof {
            assert(self@.board =~= starting_board());
        }
        let _ = self.check_captures();
        self.check_win_condition();
    }
}

} // verus!
