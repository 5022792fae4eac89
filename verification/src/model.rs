//! Mathematical model of the board game: the board geometry, the capture
//! rules, and the transition function that a single square interaction
//! performs on the game state.
use vstd::prelude::*;

verus! {

/// One of the two sides.
#[derive(Clone, Copy, Debug, PartialEq, Eq, Structural)]
pub enum Player {
    Light,
    Dark,
}

/// Contents of one square of the 8x8 board.
#[derive(Clone, Copy, Debug, PartialEq, Eq, Structural)]
pub enum Square {
    Empty,
    Piece(Player),
}

impl Default for Square {
    fn default() -> (r: Square)
        ensures
            r is Empty,
    {
        Square::Empty
    }
}

/// The two phases of a game: first all pieces are placed, then they move.
#[derive(Clone, Copy, Debug, PartialEq, Eq, Structural)]
pub enum GamePhase {
    Placement,
    Movement,
}

pub open spec fn opponent(p: Player) -> Player {
    match p {
        Player::Light => Player::Dark,
        Player::Dark => Player::Light,
    }
}

/// Row of a square index, row-major layout.
pub open spec fn row_of(i: int) -> int {
    i / 8
}

/// Column of a square index, row-major layout.
pub open spec fn col_of(i: int) -> int {
    i % 8
}

pub open spec fn on_board(r: int, c: int) -> bool {
    0 <= r < 8 && 0 <= c < 8
}

pub open spec fn square_at(r: int, c: int) -> int {
    r * 8 + c
}

/// A square interaction can reach squares in the four orthogonal directions.
pub open spec fn is_direction(dr: int, dc: int) -> bool {
    ||| (dr == -1 && dc == 0)
    ||| (dr == 1 && dc == 0)
    ||| (dr == 0 && dc == -1)
    ||| (dr == 0 && dc == 1)
}

/// Does direction `(dr, dc)` from `from` admit `to` as a destination?
/// A step onto the empty adjacent square counts only when `jumps_only` is
/// false; a jump over an adjacent opposing piece onto the empty square
/// beyond it always counts.
pub open spec fn dir_allows(
    board: Seq<Square>,
    player: Player,
    from: int,
    dr: int,
    dc: int,
    jumps_only: bool,
    to: int,
) -> bool {
    let r: int = row_of(from) + dr;
    let c: int = col_of(from) + dc;
    on_board(r, c) && match board[square_at(r, c)] {
        Square::Empty => !jumps_only && to == square_at(r, c),
        Square::Piece(p) => p != player && {
            let r2: int = r + dr;
            let c2: int = c + dc;
            on_board(r2, c2) && board[square_at(r2, c2)] is Empty && to == square_at(r2, c2)
        },
    }
}

/// The move generator: `to` is a legal destination from `from` for `player`.
pub open spec fn is_destination(
    board: Seq<Square>,
    player: Player,
    from: int,
    to: int,
    jumps_only: bool,
) -> bool {
    0 <= from < 64 && {
        ||| dir_allows(board, player, from, -1, 0, jumps_only, to)
        ||| dir_allows(board, player, from, 1, 0, jumps_only, to)
        ||| dir_allows(board, player, from, 0, -1, jumps_only, to)
        ||| dir_allows(board, player, from, 0, 1, jumps_only, to)
    }
}

/// The at-most-one destination that direction `(dr, dc)` contributes.
pub open spec fn dir_target(
    board: Seq<Square>,
    player: Player,
    from: int,
    dr: int,
    dc: int,
    jumps_only: bool,
) -> Option<int> {
    let r: int = row_of(from) + dr;
    let c: int = col_of(from) + dc;
    if !on_board(r, c) {
        Option::None
    } else {
        match board[square_at(r, c)] {
            Square::Empty => if !jumps_only {
                Option::Some(square_at(r, c))
            } else {
                Option::None
            },
            Square::Piece(p) => {
                let r2: int = r + dr;
                let c2: int = c + dc;
                if p != player && on_board(r2, c2) && board[square_at(r2, c2)] is Empty {
                    Option::Some(square_at(r2, c2))
                } else {
                    Option::None
                }
            },
        }
    }
}

pub open spec fn target_seq(o: Option<int>) -> Seq<usize> {
    match o {
        Option::Some(t) => seq![t as usize],
        Option::None => Seq::empty(),
    }
}

/// The exact listing the move generator emits: the four orthogonal
/// directions' contributions, in a fixed up, down, left, right order.
pub open spec fn destinations_list(
    board: Seq<Square>,
    player: Player,
    from: int,
    jumps_only: bool,
) -> Seq<usize> {
    if 0 <= from < 64 {
        target_seq(dir_target(board, player, from, -1, 0, jumps_only)) + target_seq(
            dir_target(board, player, from, 1, 0, jumps_only),
        ) + target_seq(dir_target(board, player, from, 0, -1, jumps_only)) + target_seq(
            dir_target(board, player, from, 0, 1, jumps_only),
        )
    } else {
        Seq::empty()
    }
}

/// A direction's destination lies one or two squares along it.
proof fn lemma_dir_target_shape(
    board: Seq<Square>,
    player: Player,
    from: int,
    dr: int,
    dc: int,
    jumps_only: bool,
)
    requires
        0 <= from < 64,
        is_direction(dr, dc),
    ensures
        match dir_target(board, player, from, dr, dc, jumps_only) {
            Option::Some(t) => 0 <= t < 64 && ((row_of(t) == row_of(from) + dr && col_of(t)
                == col_of(from) + dc) || (row_of(t) == row_of(from) + 2 * dr && col_of(t) == col_of(
                from,
            ) + 2 * dc)),
            Option::None => true,
        },
{
    lemma_row_col(from);
    let r: int = row_of(from) + dr;
    let c: int = col_of(from) + dc;
    if on_board(r, c) {
        lemma_square_at_inverse(r, c);
        if on_board(r + dr, c + dc) {
            lemma_square_at_inverse(r + dr, c + dc);
        }
    }
}

/// Two different directions never contribute the same destination.
proof fn lemma_targets_differ(
    board: Seq<Square>,
    player: Player,
    from: int,
    dr1: int,
    dc1: int,
    dr2: int,
    dc2: int,
    jumps_only: bool,
)
    requires
        0 <= from < 64,
        is_direction(dr1, dc1),
        is_direction(dr2, dc2),
        !(dr1 == dr2 && dc1 == dc2),
    ensures
        match (
            dir_target(board, player, from, dr1, dc1, jumps_only),
            dir_target(board, player, from, dr2, dc2, jumps_only),
        ) {
            (Option::Some(t1), Option::Some(t2)) => t1 != t2,
            _ => true,
        },
{
    lemma_dir_target_shape(board, player, from, dr1, dc1, jumps_only);
    lemma_dir_target_shape(board, player, from, dr2, dc2, jumps_only);
}

/// The generator's listing holds no destination twice.
pub proof fn lemma_destinations_no_duplicates(
    board: Seq<Square>,
    player: Player,
    from: int,
    jumps_only: bool,
)
    ensures
        destinations_list(board, player, from, jumps_only).no_duplicates(),
{
    if 0 <= from < 64 {
        let t1 = target_seq(dir_target(board, player, from, -1, 0, jumps_only));
        let t2 = target_seq(dir_target(board, player, from, 1, 0, jumps_only));
        let t3 = target_seq(dir_target(board, player, from, 0, -1, jumps_only));
        let t4 = target_seq(dir_target(board, player, from, 0, 1, jumps_only));
        lemma_dir_target_shape(board, player, from, -1, 0, jumps_only);
        lemma_dir_target_shape(board, player, from, 1, 0, jumps_only);
        lemma_dir_target_shape(board, player, from, 0, -1, jumps_only);
        lemma_dir_target_shape(board, player, from, 0, 1, jumps_only);
        lemma_targets_differ(board, player, from, -1, 0, 1, 0, jumps_only);
        lemma_targets_differ(board, player, from, -1, 0, 0, -1, jumps_only);
        lemma_targets_differ(board, player, from, -1, 0, 0, 1, jumps_only);
        lemma_targets_differ(board, player, from, 1, 0, 0, -1, jumps_only);
        lemma_targets_differ(board, player, from, 1, 0, 0, 1, jumps_only);
        lemma_targets_differ(board, player, from, 0, -1, 0, 1, jumps_only);
        vstd::seq_lib::lemma_no_dup_in_concat(t1, t2);
        vstd::seq_lib::lemma_no_dup_in_concat(t1 + t2, t3);
        vstd::seq_lib::lemma_no_dup_in_concat(t1 + t2 + t3, t4);
    }
}

/// A listing of square indices in strictly increasing order.
pub open spec fn strictly_ascending(s: Seq<usize>) -> bool {
    forall|a: int, b: int| 0 <= a < b < s.len() ==> s[a] < s[b]
}

/// The indices below `n` that satisfy `p`, in increasing order.
pub open spec fn indices_upto(n: int, p: spec_fn(int) -> bool) -> Seq<usize>
    decreases n,
{
    if n <= 0 {
        Seq::empty()
    } else if p(n - 1) {
        indices_upto(n - 1, p).push((n - 1) as usize)
    } else {
        indices_upto(n - 1, p)
    }
}

pub proof fn lemma_indices_upto(n: int, p: spec_fn(int) -> bool)
    requires
        n <= 64,
    ensures
        forall|k: int|
            0 <= k < indices_upto(n, p).len() ==> ((#[trigger] indices_upto(n, p)[k]) as int) < n
                && p(indices_upto(n, p)[k] as int),
        strictly_ascending(indices_upto(n, p)),
        indices_upto(n, p).no_duplicates(),
        forall|t: usize|
            #[trigger] indices_upto(n, p).contains(t) <==> ((t as int) < n && p(t as int)),
    decreases n,
{
    broadcast use lemma_push_contains;

    if n > 0 {
        lemma_indices_upto(n - 1, p);
        let prev = indices_upto(n - 1, p);
        if p(n - 1) {
            let cur = prev.push((n - 1) as usize);
            assert forall|k: int| 0 <= k < cur.len() implies ((#[trigger] cur[k]) as int) < n && p(
                cur[k] as int,
            ) by {
                if k < prev.len() {
                    assert(cur[k] == prev[k]);
                }
            }
            assert forall|a: int, b: int| 0 <= a < b < cur.len() implies cur[a] < cur[b] by {
                if b < prev.len() {
                    assert(prev[a] < prev[b]);
                } else {
                    assert(cur[b] == (n - 1) as usize);
                    assert((cur[a] as int) < n - 1);
                }
            }
            assert forall|i: int, j: int|
                0 <= i < cur.len() && 0 <= j < cur.len() && i != j implies cur[i] != cur[j] by {
                if i < j {
                    assert(cur[i] < cur[j]);
                } else {
                    assert(cur[j] < cur[i]);
                }
            }
        }
    }
}

pub open spec fn has_destination(
    board: Seq<Square>,
    player: Player,
    from: int,
    jumps_only: bool,
) -> bool {
    exists|to: int| #[trigger] is_destination(board, player, from, to, jumps_only)
}

/// The side to move has at least one piece with a legal destination.
pub open spec fn has_any_move(board: Seq<Square>, player: Player, jumps_only: bool) -> bool {
    exists|i: int|
        0 <= i < 64 && #[trigger] board[i] == Square::Piece(player) && has_destination(
            board,
            player,
            i,
            jumps_only,
        )
}

/// Square `i` holds a piece whose left and right neighbours both hold
/// pieces of the one same opposing side.
pub open spec fn h_flanked(board: Seq<Square>, i: int) -> bool {
    &&& 0 <= i < 64
    &&& 1 <= col_of(i) <= 6
    &&& match (board[i], board[i - 1], board[i + 1]) {
        (Square::Piece(p), Square::Piece(l), Square::Piece(r)) => l != p && r != p && l == r,
        _ => false,
    }
}

/// Square `i` holds a piece whose upper and lower neighbours both hold
/// pieces of the one same opposing side.
pub open spec fn v_flanked(board: Seq<Square>, i: int) -> bool {
    &&& 0 <= i < 64
    &&& 1 <= row_of(i) <= 6
    &&& match (board[i], board[i - 8], board[i + 8]) {
        (Square::Piece(p), Square::Piece(u), Square::Piece(d)) => u != p && d != p && u == d,
        _ => false,
    }
}

pub open spec fn is_flanked(board: Seq<Square>, i: int) -> bool {
    h_flanked(board, i) || v_flanked(board, i)
}

/// The flanking-capture scan: every flanked piece is removed, in one batch
/// over the whole board.
pub open spec fn apply_captures(board: Seq<Square>) -> Seq<Square> {
    Seq::new(64, |i: int| if is_flanked(board, i) { Square::Empty } else { board[i] })
}

/// Square `j` is one of the two pieces that flank the captured square `i`.
/// A piece captured on the horizontal axis credits its horizontal
/// neighbours; only one captured otherwise credits its vertical ones.
pub open spec fn flanks(board: Seq<Square>, i: int, j: int) -> bool {
    ||| (h_flanked(board, i) && (j == i - 1 || j == i + 1))
    ||| (!h_flanked(board, i) && v_flanked(board, i) && (j == i - 8 || j == i + 8))
}

/// `j` holds a piece of `player` that flanks some captured square.
pub open spec fn is_flanker(board: Seq<Square>, player: Player, j: int) -> bool {
    &&& 0 <= j < 64
    &&& board[j] == Square::Piece(player)
    &&& exists|i: int| #[trigger] flanks(board, i, j)
}

/// `j` holds a piece of `player` that flanks a captured square among the
/// first `n` squares.
pub open spec fn flanker_upto(board: Seq<Square>, player: Player, j: int, n: int) -> bool {
    &&& 0 <= j < 64
    &&& board[j] == Square::Piece(player)
    &&& exists|i: int| 0 <= i < n && #[trigger] flanks(board, i, j)
}

pub proof fn lemma_flanker_step(board: Seq<Square>, player: Player, j: int, n: int)
    ensures
        flanker_upto(board, player, j, n + 1) <==> (flanker_upto(board, player, j, n) || (0 <= j
            < 64 && board[j] == Square::Piece(player) && flanks(board, n, j))),
{
    if flanker_upto(board, player, j, n + 1) {
        let i = choose|i: int| 0 <= i < n + 1 && #[trigger] flanks(board, i, j);
        if i < n {
            assert(flanker_upto(board, player, j, n));
        }
    }
}

pub proof fn lemma_flanker_full(board: Seq<Square>, player: Player, j: int)
    ensures
        is_flanker(board, player, j) <==> flanker_upto(board, player, j, 64),
{
    if is_flanker(board, player, j) {
        let i = choose|i: int| #[trigger] flanks(board, i, j);
        assert(0 <= i < 64);
        assert(flanker_upto(board, player, j, 64));
    }
    if flanker_upto(board, player, j, 64) {
        let i = choose|i: int| 0 <= i < 64 && #[trigger] flanks(board, i, j);
        assert(is_flanker(board, player, j));
    }
}

/// Two states that agree on everything but the board.
pub open spec fn same_but_board(a: GameView, b: GameView) -> bool {
    &&& a.current_player == b.current_player
    &&& a.phase == b.phase
    &&& a.light_placed == b.light_placed
    &&& a.dark_placed == b.dark_placed
    &&& a.selected == b.selected
    &&& a.must_continue_jumping == b.must_continue_jumping
    &&& a.piece_that_captured == b.piece_that_captured
    &&& a.game_over == b.game_over
    &&& a.winner == b.winner
}

/// Number of pieces of `player` among the first `n` squares.
pub open spec fn count_upto(board: Seq<Square>, player: Player, n: int) -> int
    decreases n,
{
    if n <= 0 {
        0
    } else {
        count_upto(board, player, n - 1) + if board[n - 1] == Square::Piece(player) {
            1int
        } else {
            0int
        }
    }
}

pub open spec fn piece_count(board: Seq<Square>, player: Player) -> int {
    count_upto(board, player, 64)
}

pub proof fn lemma_square_at_inverse(r: int, c: int)
    requires
        on_board(r, c),
    ensures
        0 <= square_at(r, c) < 64,
        row_of(square_at(r, c)) == r,
        col_of(square_at(r, c)) == c,
{
    assert((r * 8 + c) / 8 == r) by (nonlinear_arith)
        requires
            0 <= r < 8,
            0 <= c < 8,
    ;
    assert((r * 8 + c) % 8 == c) by (nonlinear_arith)
        requires
            0 <= r < 8,
            0 <= c < 8,
    ;
}

pub proof fn lemma_row_col(i: int)
    requires
        0 <= i < 64,
    ensures
        on_board(row_of(i), col_of(i)),
        square_at(row_of(i), col_of(i)) == i,
{
    assert(i / 8 * 8 + i % 8 == i) by (nonlinear_arith)
        requires
            0 <= i < 64,
    ;
}

/// Pushing onto a sequence grows its members by exactly the new element.
pub broadcast proof fn lemma_push_contains<T>(s: Seq<T>, x: T, t: T)
    ensures
        #[trigger] s.push(x).contains(t) <==> (s.contains(t) || t == x),
{
    if s.push(x).contains(t) {
        let i = choose|i: int| 0 <= i < s.push(x).len() && s.push(x)[i] == t;
        if i < s.len() {
            assert(s[i] == t);
        }
    }
    if s.contains(t) {
        let i = choose|i: int| 0 <= i < s.len() && s[i] == t;
        assert(s.push(x)[i] == t);
    }
    if t == x {
        assert(s.push(x)[s.len() as int] == t);
    }
}

pub proof fn lemma_count_nonneg(board: Seq<Square>, player: Player, n: int)
    ensures
        count_upto(board, player, n) >= 0,
    decreases n,
{
    if n > 0 {
        lemma_count_nonneg(board, player, n - 1);
    }
}

pub proof fn lemma_count_all_empty(board: Seq<Square>, player: Player, n: int)
    requires
        forall|k: int| 0 <= k < n ==> board[k] != Square::Piece(player),
    ensures
        count_upto(board, player, n) == 0,
    decreases n,
{
    if n > 0 {
        lemma_count_all_empty(board, player, n - 1);
    }
}

/// Counting is pointwise: updating one square adjusts the count by what
/// left and what arrived.
pub proof fn lemma_count_update(board: Seq<Square>, player: Player, j: int, v: Square, n: int)
    requires
        0 <= j < board.len(),
        n <= board.len(),
    ensures
        count_upto(board.update(j, v), player, n) == count_upto(board, player, n) + (
        if j < n {
            (if v == Square::Piece(player) {
                1int
            } else {
                0int
            }) - (if board[j] == Square::Piece(player) {
                1int
            } else {
                0int
            })
        } else {
            0int
        }),
    decreases n,
{
    if n > 0 {
        lemma_count_update(board, player, j, v, n - 1);
    }
}

/// A board that holds a side's piece only where another board does has no
/// more of that side's pieces.
pub proof fn lemma_count_le_pointwise(b1: Seq<Square>, b2: Seq<Square>, player: Player, n: int)
    requires
        forall|k: int|
            0 <= k < n ==> (#[trigger] b2[k] == Square::Piece(player) ==> b1[k] == Square::Piece(
                player,
            )),
    ensures
        count_upto(b2, player, n) <= count_upto(b1, player, n),
    decreases n,
{
    if n > 0 {
        lemma_count_le_pointwise(b1, b2, player, n - 1);
    }
}

/// The whole game state, as the contracts speak of it.
#[verifier::ext_equal]
pub ghost struct GameView {
    pub board: Seq<Square>,
    pub current_player: Player,
    pub phase: GamePhase,
    pub light_placed: int,
    pub dark_placed: int,
    pub selected: Option<int>,
    pub must_continue_jumping: bool,
    pub piece_that_captured: Option<int>,
    pub game_over: bool,
    pub winner: Option<Player>,
}

/// In the placement phase the sides strictly alternate, no selection or
/// capture bookkeeping exists yet, and neither quota is overrun.
pub open spec fn placement_balance(s: GameView) -> bool {
    &&& s.selected is None
    &&& !s.must_continue_jumping
    &&& s.piece_that_captured is None
    &&& (s.current_player is Light ==> s.light_placed == s.dark_placed && s.light_placed < 8)
    &&& (s.current_player is Dark ==> s.light_placed == s.dark_placed + 1 && s.dark_placed < 8)
}

/// Well-formedness of a game state: every state the engine can hold
/// satisfies it.
pub open spec fn wf(s: GameView) -> bool {
    &&& s.board.len() == 64
    &&& 0 <= s.light_placed <= 8
    &&& 0 <= s.dark_placed <= 8
    &&& (match s.selected {
        Option::Some(i) => 0 <= i < 64 && s.board[i] == Square::Piece(s.current_player),
        Option::None => true,
    })
    &&& (match s.piece_that_captured {
        Option::Some(i) => 0 <= i < 64,
        Option::None => true,
    })
    &&& piece_count(s.board, Player::Light) <= s.light_placed
    &&& piece_count(s.board, Player::Dark) <= s.dark_placed
    &&& (s.phase is Placement ==> placement_balance(s))
    &&& (s.phase is Movement ==> s.light_placed == 8 && s.dark_placed == 8)
}

/// The state a fresh engine holds.
pub open spec fn initial_state() -> GameView {
    GameView {
        board: Seq::new(64, |i: int| Square::Empty),
        current_player: Player::Light,
        phase: GamePhase::Placement,
        light_placed: 0,
        dark_placed: 0,
        selected: Option::None,
        must_continue_jumping: false,
        piece_that_captured: Option::None,
        game_over: false,
        winner: Option::None,
    }
}

/// The fixed opening: light pieces along the rightmost file, dark pieces
/// along the leftmost.
pub open spec fn starting_board() -> Seq<Square> {
    Seq::new(
        64,
        |i: int|
            if i % 8 == 7 {
                Square::Piece(Player::Light)
            } else if i % 8 == 0 {
                Square::Piece(Player::Dark)
            } else {
                Square::Empty
            },
    )
}

/// The fixed opening before its capture scan and win evaluation.
pub open spec fn opening_base() -> GameView {
    GameView {
        board: starting_board(),
        current_player: Player::Light,
        phase: GamePhase::Movement,
        light_placed: 8,
        dark_placed: 8,
        selected: Option::None,
        must_continue_jumping: false,
        piece_that_captured: Option::None,
        game_over: false,
        winner: Option::None,
    }
}

/// The state the alternate constructor leaves behind: the fixed opening
/// with captures and the win evaluator already run once.
pub open spec fn fixed_opening() -> GameView {
    win_update(GameView { board: apply_captures(starting_board()), ..opening_base() })
}

pub proof fn lemma_starting_counts(n: int)
    requires
        0 <= n <= 64,
    ensures
        count_upto(starting_board(), Player::Light, n) == n / 8,
        count_upto(starting_board(), Player::Dark, n) == (n + 7) / 8,
    decreases n,
{
    if n > 0 {
        lemma_starting_counts(n - 1);
    }
}

/// The fixed opening triggers no capture and leaves both sides mobile,
/// so the alternate constructor's scan and evaluation change nothing.
pub proof fn lemma_opening_clean()
    ensures
        fixed_opening() == opening_base(),
        wf(opening_base()),
{
    let b = starting_board();
    assert forall|i: int| 0 <= i < 64 implies !is_flanked(b, i) by {
        if h_flanked(b, i) {
            assert(i % 8 == 0 || i % 8 == 7);
            assert(false);
        }
        if v_flanked(b, i) {
            assert((i - 8) % 8 == i % 8);
            assert((i + 8) % 8 == i % 8);
            assert(false);
        }
    }
    assert(apply_captures(b) =~= b);
    lemma_starting_counts(64);
    lemma_row_col(7);
    assert(b[7] == Square::Piece(Player::Light));
    assert(b[6] is Empty);
    assert(square_at(0, 6) == 6);
    assert(dir_allows(b, Player::Light, 7, 0, -1, false, 6));
    assert(is_destination(b, Player::Light, 7, 6, false));
    assert(has_destination(b, Player::Light, 7, false));
    assert(has_any_move(b, Player::Light, false));
}

/// The win evaluator. Runs only in the movement phase: a side without
/// pieces loses to one with pieces, and failing that, a side to move
/// without a single legal destination loses.
pub open spec fn win_update(s: GameView) -> GameView {
    if !(s.phase is Movement) {
        s
    } else {
        let light: int = piece_count(s.board, Player::Light);
        let dark: int = piece_count(s.board, Player::Dark);
        if light == 0 && dark > 0 {
            GameView { game_over: true, winner: Option::Some(Player::Dark), ..s }
        } else if dark == 0 && light > 0 {
            GameView { game_over: true, winner: Option::Some(Player::Light), ..s }
        } else if !has_any_move(s.board, s.current_player, false) {
            GameView {
                game_over: true,
                winner: Option::Some(opponent(s.current_player)),
                ..s
            }
        } else {
            s
        }
    }
}

/// Hand the turn to the other side; the capture marker belongs to the
/// turn and is cleared with it.
pub open spec fn switch_player(s: GameView) -> GameView {
    GameView {
        current_player: opponent(s.current_player),
        piece_that_captured: Option::None,
        ..s
    }
}

/// One accepted placement on the empty square `sq`: the piece appears,
/// the mover's quota counter rises, and the side to move switches —
/// unless the second quota was just completed, in which case the phase
/// flips to movement with light set as the side to move. The capture
/// scan and win evaluator then run.
pub open spec fn placement_step(s: GameView, sq: int) -> GameView {
    let s1 = GameView { board: s.board.update(sq, Square::Piece(s.current_player)), ..s };
    let s2 = match s.current_player {
        Player::Light => {
            let sl = GameView { light_placed: s.light_placed + 1, ..s1 };
            if s.light_placed + 1 == 8 {
                if s.dark_placed == 8 {
                    GameView { phase: GamePhase::Movement, current_player: Player::Light, ..sl }
                } else {
                    switch_player(sl)
                }
            } else {
                switch_player(sl)
            }
        },
        Player::Dark => {
            let sd = GameView { dark_placed: s.dark_placed + 1, ..s1 };
            if s.dark_placed + 1 == 8 {
                GameView { phase: GamePhase::Movement, current_player: Player::Light, ..sd }
            } else {
                switch_player(sd)
            }
        },
    };
    win_update(GameView { board: apply_captures(s2.board), ..s2 })
}

/// The displacement from `from` to `to` is two rows or two columns.
pub open spec fn is_jump(from: int, to: int) -> bool {
    let dr: int = row_of(to) - row_of(from);
    let dc: int = col_of(to) - col_of(from);
    dr == 2 || dr == -2 || dc == 2 || dc == -2
}

/// The square halfway along a jump from `from` to `to`.
pub open spec fn jump_mid(from: int, to: int) -> int {
    let dr: int = row_of(to) - row_of(from);
    let dc: int = col_of(to) - col_of(from);
    square_at(row_of(from) + dr / 2, col_of(from) + dc / 2)
}

pub open spec fn holds_enemy(board: Seq<Square>, i: int, player: Player) -> bool {
    0 <= i < 64 && match board[i] {
        Square::Piece(p) => p != player,
        Square::Empty => false,
    }
}

/// A legal destination two rows or two columns away is a straight-line
/// jump: the square halfway holds an opposing piece and the far square is
/// empty.
pub proof fn lemma_jump_structure(board: Seq<Square>, player: Player, from: int, to: int)
    requires
        is_destination(board, player, from, to, false),
        is_jump(from, to),
    ensures
        0 <= to < 64,
        board[to] is Empty,
        0 <= jump_mid(from, to) < 64,
        holds_enemy(board, jump_mid(from, to), player),
        jump_mid(from, to) == (from + to) / 2,
        jump_mid(from, to) != from,
        jump_mid(from, to) != to,
{
    lemma_row_col(from);
    if dir_allows(board, player, from, -1, 0, false, to) {
        lemma_jump_structure_dir(board, player, from, to, -1, 0);
    } else if dir_allows(board, player, from, 1, 0, false, to) {
        lemma_jump_structure_dir(board, player, from, to, 1, 0);
    } else if dir_allows(board, player, from, 0, -1, false, to) {
        lemma_jump_structure_dir(board, player, from, to, 0, -1);
    } else {
        lemma_jump_structure_dir(board, player, from, to, 0, 1);
    }
}

proof fn lemma_jump_structure_dir(
    board: Seq<Square>,
    player: Player,
    from: int,
    to: int,
    dr: int,
    dc: int,
)
    requires
        0 <= from < 64,
        is_direction(dr, dc),
        dir_allows(board, player, from, dr, dc, false, to),
        is_jump(from, to),
    ensures
        0 <= to < 64,
        board[to] is Empty,
        0 <= jump_mid(from, to) < 64,
        holds_enemy(board, jump_mid(from, to), player),
        jump_mid(from, to) == (from + to) / 2,
        jump_mid(from, to) != from,
        jump_mid(from, to) != to,
{
    lemma_row_col(from);
    let rf: int = row_of(from);
    let cf: int = col_of(from);
    lemma_square_at_inverse(rf + dr, cf + dc);
    if board[square_at(rf + dr, cf + dc)] is Empty {
        assert(to == square_at(rf + dr, cf + dc));
        assert(!is_jump(from, to));
    } else {
        lemma_square_at_inverse(rf + 2 * dr, cf + 2 * dc);
        assert(to == square_at(rf + 2 * dr, cf + 2 * dc));
        assert(row_of(to) == rf + 2 * dr);
        assert(col_of(to) == cf + 2 * dc);
        assert(jump_mid(from, to) == square_at(rf + dr, cf + dc));
        assert(to == from + 16 * dr + 2 * dc);
        assert((from + to) / 2 == from + 8 * dr + dc);
    }
}

/// A legal destination is an on-board empty square other than `from`.
pub proof fn lemma_dest_structure(
    board: Seq<Square>,
    player: Player,
    from: int,
    to: int,
    jumps_only: bool,
)
    requires
        is_destination(board, player, from, to, jumps_only),
    ensures
        0 <= to < 64,
        board[to] is Empty,
        to != from,
{
    if dir_allows(board, player, from, -1, 0, jumps_only, to) {
        lemma_dest_structure_dir(board, player, from, to, -1, 0, jumps_only);
    } else if dir_allows(board, player, from, 1, 0, jumps_only, to) {
        lemma_dest_structure_dir(board, player, from, to, 1, 0, jumps_only);
    } else if dir_allows(board, player, from, 0, -1, jumps_only, to) {
        lemma_dest_structure_dir(board, player, from, to, 0, -1, jumps_only);
    } else {
        lemma_dest_structure_dir(board, player, from, to, 0, 1, jumps_only);
    }
}

proof fn lemma_dest_structure_dir(
    board: Seq<Square>,
    player: Player,
    from: int,
    to: int,
    dr: int,
    dc: int,
    jumps_only: bool,
)
    requires
        0 <= from < 64,
        is_direction(dr, dc),
        dir_allows(board, player, from, dr, dc, jumps_only, to),
    ensures
        0 <= to < 64,
        board[to] is Empty,
        to != from,
{
    lemma_row_col(from);
    let rf: int = row_of(from);
    let cf: int = col_of(from);
    lemma_square_at_inverse(rf + dr, cf + dc);
    if board[square_at(rf + dr, cf + dc)] is Empty {
    } else {
        lemma_square_at_inverse(rf + 2 * dr, cf + 2 * dc);
    }
}

/// The capture scan never adds a piece anywhere.
pub proof fn lemma_apply_captures_le(board: Seq<Square>, player: Player)
    requires
        board.len() == 64,
    ensures
        count_upto(apply_captures(board), player, 64) <= count_upto(board, player, 64),
{
    assert forall|k: int|
        0 <= k < 64 && #[trigger] apply_captures(board)[k] == Square::Piece(player)
        implies board[k] == Square::Piece(player) by {}
    lemma_count_le_pointwise(board, apply_captures(board), player, 64);
}

/// A move from `from` to `to` is accepted when `to` is a legal
/// destination and `from` is not this turn's recorded capturing piece.
pub open spec fn move_accepted(s: GameView, from: int, to: int) -> bool {
    &&& 0 <= from < 64
    &&& 0 <= to < 64
    &&& is_destination(s.board, s.current_player, from, to, false)
    &&& s.piece_that_captured != Option::Some(from)
}

/// The state after an accepted move from `from` to `to`. A jump over an
/// enemy piece removes it, relocates the mover, records it as this turn's
/// capturing piece, and skips the flank scan; any other move relocates
/// the mover and runs the flank scan, crediting the mover with the
/// capture marker when it flanks and no capture is recorded yet. The win
/// evaluator runs last, before the turn bookkeeping.
pub open spec fn move_step(s: GameView, from: int, to: int) -> GameView {
    let piece = s.board[from];
    if is_jump(from, to) && holds_enemy(s.board, jump_mid(from, to), s.current_player) {
        let b = s.board.update(jump_mid(from, to), Square::Empty).update(from, Square::Empty)
            .update(to, piece);
        win_update(GameView { board: b, piece_that_captured: Option::Some(to), ..s })
    } else {
        let b1 = s.board.update(from, Square::Empty).update(to, piece);
        let marker = if is_flanker(b1, s.current_player, to) && s.piece_that_captured is None {
            Option::Some(to)
        } else {
            s.piece_that_captured
        };
        win_update(
            GameView { board: apply_captures(b1), piece_that_captured: marker, ..s },
        )
    }
}

/// Selecting the clicked square when nothing is selected: only a piece of
/// the side to move with at least one legal destination can be selected.
/// Selecting always clears the jump-continuation flag and the
/// capturing-piece marker.
pub open spec fn try_select(s: GameView, sq: int) -> (GameView, bool) {
    if s.board[sq] == Square::Piece(s.current_player) && has_destination(
        s.board,
        s.current_player,
        sq,
        false,
    ) {
        (
            GameView {
                selected: Option::Some(sq),
                must_continue_jumping: false,
                piece_that_captured: Option::None,
                ..s
            },
            true,
        )
    } else {
        (s, false)
    }
}

/// The turn bookkeeping after an accepted move: after a capturing jump
/// whose piece survived and already carries the capture marker the turn
/// ends; a surviving jumper without the marker keeps the turn while it
/// has further jumps; every other outcome clears the selection and hands
/// the turn over.
pub open spec fn after_move(s: GameView, from: int, to: int) -> GameView {
    let sm = move_step(s, from, to);
    let survived = sm.board[to] == Square::Piece(s.current_player);
    if is_jump(from, to) && survived {
        if sm.piece_that_captured == Option::Some(to) {
            switch_player(
                GameView { selected: Option::None, must_continue_jumping: false, ..sm },
            )
        } else {
            if has_destination(sm.board, s.current_player, to, true) {
                GameView { selected: Option::Some(to), must_continue_jumping: true, ..sm }
            } else {
                switch_player(
                    GameView { selected: Option::None, must_continue_jumping: false, ..sm },
                )
            }
        }
    } else {
        switch_player(GameView { selected: Option::None, must_continue_jumping: false, ..sm })
    }
}

/// A movement-phase interaction with `sq` while `sel` is validly
/// selected: reselect another movable own piece, reject a non-jump while
/// a jump chain is pending, and otherwise attempt the move.
pub open spec fn selected_step(s: GameView, sel: int, sq: int) -> (GameView, bool) {
    if s.board[sq] == Square::Piece(s.current_player) && sq != sel && has_destination(
        s.board,
        s.current_player,
        sq,
        false,
    ) {
        (
            GameView {
                selected: Option::Some(sq),
                must_continue_jumping: false,
                piece_that_captured: Option::None,
                ..s
            },
            true,
        )
    } else if s.must_continue_jumping && !is_jump(sel, sq) {
        (s, false)
    } else if move_accepted(s, sel, sq) {
        (after_move(s, sel, sq), true)
    } else {
        (s, false)
    }
}

/// A movement-phase interaction with `sq`. A selection whose piece is
/// gone is cleared first, and the click then falls through to plain
/// selection.
pub open spec fn movement_step(s: GameView, sq: int) -> (GameView, bool) {
    match s.selected {
        Option::None => try_select(s, sq),
        Option::Some(sel) => {
            if s.board[sel] != Square::Piece(s.current_player) {
                try_select(
                    GameView { selected: Option::None, must_continue_jumping: false, ..s },
                    sq,
                )
            } else {
                selected_step(s, sel, sq)
            }
        },
    }
}

/// The engine's sole transition: what one interaction with square `sq`
/// does to the state, and whether it had any effect.
pub open spec fn interact_spec(s: GameView, sq: int) -> (GameView, bool) {
    if !(0 <= sq < 64) || s.game_over {
        (s, false)
    } else {
        match s.phase {
            GamePhase::Placement => {
                if s.board[sq] is Empty {
                    (placement_step(s, sq), true)
                } else {
                    (s, false)
                }
            },
            GamePhase::Movement => movement_step(s, sq),
        }
    }
}

pub open spec fn empty_square_pred(s: GameView) -> spec_fn(int) -> bool {
    |t: int| s.board[t] is Empty
}

pub open spec fn selectable_pred(s: GameView) -> spec_fn(int) -> bool {
    |t: int|
        s.board[t] == Square::Piece(s.current_player) && has_destination(
            s.board,
            s.current_player,
            t,
            false,
        )
}

/// The exact listing of currently valid targets: every empty square in
/// increasing order during placement; the live selection's destinations
/// (narrowed to jumps while a chain is pending) in the generator's
/// direction order; and every selectable own piece in increasing order
/// otherwise.
pub open spec fn listing_of(s: GameView) -> Seq<usize> {
    match s.phase {
        GamePhase::Placement => indices_upto(64, empty_square_pred(s)),
        GamePhase::Movement => match s.selected {
            Option::Some(sel) => if s.board[sel] == Square::Piece(s.current_player) {
                destinations_list(s.board, s.current_player, sel, s.must_continue_jumping)
            } else {
                Seq::empty()
            },
            Option::None => indices_upto(64, selectable_pred(s)),
        },
    }
}

/// What the listing of currently valid targets contains: every empty
/// square during placement; the selected piece's destinations (narrowed
/// to jumps while a chain is pending) while a live selection exists; and
/// every selectable own piece otherwise.
pub open spec fn listed_move(s: GameView, t: int) -> bool {
    match s.phase {
        GamePhase::Placement => 0 <= t < 64 && s.board[t] is Empty,
        GamePhase::Movement => match s.selected {
            Option::Some(sel) => s.board[sel] == Square::Piece(s.current_player)
                && is_destination(s.board, s.current_player, sel, t, s.must_continue_jumping),
            Option::None => 0 <= t < 64 && s.board[t] == Square::Piece(s.current_player)
                && has_destination(s.board, s.current_player, t, false),
        },
    }
}

/// Encoding of one square in the board snapshot.
pub open spec fn square_code(sq: Square) -> u8 {
    match sq {
        Square::Empty => 0,
        Square::Piece(Player::Light) => 1,
        Square::Piece(Player::Dark) => 2,
    }
}

} // verus!
