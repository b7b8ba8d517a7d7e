//! The machine opponent: the static position evaluator and a fixed-depth
//! minimax search with alpha-beta pruning, each proved equal to its
//! spec-level mirror.

use vstd::prelude::*;

use crate::board::{other_player, BoardModel, Player};
use crate::board_iterators::{
    get_lines, lemma_line_len_bounds, line_count, line_len, line_spec, LineFamily,
};
use crate::game::{Game, GameModel, GameState};
use crate::validator::{has_win, lemma_play_no_new_win_for_other, line_has_win, win_window};

verus! {

/// A board small enough that every position score fits an `i32`.
pub open spec fn eval_fits(m: BoardModel) -> bool {
    m.rows * m.cols <= 30000
}

/// How many cells of the window of `line` starting at `s` hold `p`.
pub open spec fn count_in_window(line: Seq<Option<Player>>, s: int, p: Player) -> int {
    (if line[s] == Some(p) {
        1int
    } else {
        0int
    }) + (if line[s + 1] == Some(p) {
        1int
    } else {
        0int
    }) + (if line[s + 2] == Some(p) {
        1int
    } else {
        0int
    }) + (if line[s + 3] == Some(p) {
        1int
    } else {
        0int
    })
}

/// The contribution of one window: a completed four for the opponent costs
/// 10000, a completed four of one's own earns 10000, and otherwise the
/// window earns one point per own piece in it.
pub open spec fn window_score(line: Seq<Option<Player>>, s: int, p: Player) -> int {
    let own = count_in_window(line, s, p);
    let opp = count_in_window(line, s, other_player(p));
    if opp == 4 {
        -10000
    } else if own == 4 {
        10000
    } else {
        own
    }
}

/// How many width-4 windows a line offers.
pub open spec fn window_count(line: Seq<Option<Player>>) -> int {
    if line.len() >= 4 {
        line.len() - 3
    } else {
        0
    }
}

/// The sum of the first `k` window scores of a line.
pub open spec fn line_score_upto(line: Seq<Option<Player>>, p: Player, k: int) -> int
    decreases k,
{
    if k <= 0 {
        0
    } else {
        line_score_upto(line, p, k - 1) + window_score(line, k - 1, p)
    }
}

/// A line's score: the sum over all its width-4 windows.  Overlapping
/// windows count shared cells again on purpose, weighting contested cells.
pub open spec fn line_score(line: Seq<Option<Player>>, p: Player) -> int {
    line_score_upto(line, p, window_count(line))
}

/// The sum of the scores of the first `k` lines of a family.
pub open spec fn family_score_upto(m: BoardModel, fam: LineFamily, p: Player, k: int) -> int
    decreases k,
{
    if k <= 0 {
        0
    } else {
        family_score_upto(m, fam, p, k - 1) + line_score(line_spec(m, fam, k - 1), p)
    }
}

pub open spec fn family_score(m: BoardModel, fam: LineFamily, p: Player) -> int {
    family_score_upto(m, fam, p, line_count(m, fam))
}

/// The heuristic desirability of the position for `p`: the window scores of
/// every column, row, and diagonal line summed.
pub open spec fn board_score(m: BoardModel, p: Player) -> int {
    family_score(m, LineFamily::Cols, p) + family_score(m, LineFamily::Rows, p) + family_score(
        m,
        LineFamily::MainDiagonals,
        p,
    ) + family_score(m, LineFamily::SecondaryDiagonals, p)
}

/// Any sum of `k` window scores stays within 10000 per window.
pub proof fn lemma_line_score_upto_bound(line: Seq<Option<Player>>, p: Player, k: int)
    requires
        0 <= k,
    ensures
        -(10000 * k) <= line_score_upto(line, p, k) <= 10000 * k,
    decreases k,
{
    if k > 0 {
        lemma_line_score_upto_bound(line, p, k - 1);
    }
}

/// Any sum of `k` line scores stays within 10000 per cell, for lines of at
/// most `cap` cells.
pub proof fn lemma_family_score_upto_bound(
    m: BoardModel,
    fam: LineFamily,
    p: Player,
    k: int,
    cap: int,
)
    requires
        m.dims_ok(),
        0 <= k <= line_count(m, fam),
        0 <= cap,
        forall|d: int| 0 <= d < k ==> line_len(m, fam, d) <= cap,
    ensures
        -(10000 * (k * cap)) <= family_score_upto(m, fam, p, k) <= 10000 * (k * cap),
    decreases k,
{
    if k > 0 {
        lemma_family_score_upto_bound(m, fam, p, k - 1, cap);
        let line = line_spec(m, fam, k - 1);
        lemma_line_len_bounds(m, fam, k - 1);
        assert(line.len() == line_len(m, fam, k - 1));
        let wc = window_count(line);
        lemma_line_score_upto_bound(line, p, wc);
        assert(wc <= cap);
        assert((k - 1) * cap + cap == k * cap) by (nonlinear_arith);
        assert(0 <= (k - 1) * cap) by (nonlinear_arith)
            requires
                0 <= k - 1,
                0 <= cap,
        ;
    }
}

/// On a board within the evaluator's size limit, each family sum fits
/// comfortably inside an `i32`: rows and columns within three hundred
/// million, each diagonal family within six hundred million.
pub proof fn lemma_family_score_fits(m: BoardModel, fam: LineFamily, p: Player)
    requires
        m.dims_ok(),
        eval_fits(m),
    ensures
        fam == LineFamily::Rows || fam == LineFamily::Cols ==> -300000000 <= family_score(
            m,
            fam,
            p,
        ) <= 300000000,
        fam == LineFamily::MainDiagonals || fam == LineFamily::SecondaryDiagonals
            ==> -600000000 <= family_score(m, fam, p) <= 600000000,
{
    lemma_family_score_fits_upto(m, fam, p, line_count(m, fam));
}

/// As `lemma_family_score_fits`, for every prefix of the family.
pub proof fn lemma_family_score_fits_upto(m: BoardModel, fam: LineFamily, p: Player, k: int)
    requires
        m.dims_ok(),
        eval_fits(m),
        0 <= k <= line_count(m, fam),
    ensures
        fam == LineFamily::Rows || fam == LineFamily::Cols ==> -300000000 <= family_score_upto(
            m,
            fam,
            p,
            k,
        ) <= 300000000,
        fam == LineFamily::MainDiagonals || fam == LineFamily::SecondaryDiagonals ==> -600000000
            <= family_score_upto(m, fam, p, k) <= 600000000,
{
    let rows = m.rows;
    let cols = m.cols;
    match fam {
        LineFamily::Rows => {
            lemma_family_score_upto_bound(m, fam, p, k, cols);
            assert(k * cols <= rows * cols) by (nonlinear_arith)
                requires
                    0 <= k <= rows,
                    0 <= cols,
            ;
        },
        LineFamily::Cols => {
            lemma_family_score_upto_bound(m, fam, p, k, rows);
            assert(k * rows <= rows * cols) by (nonlinear_arith)
                requires
                    0 <= k <= cols,
                    0 <= rows,
            ;
        },
        LineFamily::MainDiagonals | LineFamily::SecondaryDiagonals => {
            let cap = if rows <= cols {
                rows
            } else {
                cols
            };
            assert forall|d: int| 0 <= d < k implies line_len(m, fam, d) <= cap by {
                lemma_line_len_bounds(m, fam, d);
            }
            lemma_family_score_upto_bound(m, fam, p, k, cap);
            assert(k * cap <= 2 * (rows * cols)) by (nonlinear_arith)
                requires
                    0 <= k <= rows + cols - 1,
                    1 <= rows,
                    1 <= cols,
                    cap == if rows <= cols {
                        rows
                    } else {
                        cols
                    },
            ;
        },
    }
}

/// A window can only cost points when the opponent owns all four of its
/// cells; without an opposing four-in-a-row in the line, every window
/// contributes at least zero.
pub proof fn lemma_window_score_nonneg(line: Seq<Option<Player>>, s: int, p: Player)
    requires
        0 <= s,
        s + 4 <= line.len(),
        !line_has_win(line, other_player(p)),
    ensures
        window_score(line, s, p) >= 0,
{
    let q = other_player(p);
    if count_in_window(line, s, q) == 4 {
        assert(win_window(line, s, q));
        assert(line_has_win(line, q));
    }
}

pub proof fn lemma_line_score_upto_nonneg(line: Seq<Option<Player>>, p: Player, k: int)
    requires
        0 <= k <= window_count(line),
        !line_has_win(line, other_player(p)),
    ensures
        line_score_upto(line, p, k) >= 0,
    decreases k,
{
    if k > 0 {
        lemma_line_score_upto_nonneg(line, p, k - 1);
        lemma_window_score_nonneg(line, k - 1, p);
    }
}

/// A prefix that includes a completed own window is worth at least that
/// window, when no window can cost points.
proof fn lemma_line_score_upto_ge_window(line: Seq<Option<Player>>, p: Player, k: int, s: int)
    requires
        0 <= s < k <= window_count(line),
        !line_has_win(line, other_player(p)),
    ensures
        line_score_upto(line, p, k) >= window_score(line, s, p),
    decreases k,
{
    if k - 1 == s {
        lemma_line_score_upto_nonneg(line, p, k - 1);
    } else {
        lemma_line_score_upto_ge_window(line, p, k - 1, s);
        lemma_window_score_nonneg(line, k - 1, p);
    }
}

/// A line holding a four-in-a-row for `p`, with none for the opponent, is
/// worth at least 10000.
pub proof fn lemma_line_score_win(line: Seq<Option<Player>>, p: Player)
    requires
        line_has_win(line, p),
        !line_has_win(line, other_player(p)),
    ensures
        line_score(line, p) >= 10000,
{
    let s = choose|s: int| 0 <= s && s + 4 <= line.len() && #[trigger] win_window(line, s, p);
    assert(count_in_window(line, s, p) == 4);
    assert(count_in_window(line, s, other_player(p)) == 0);
    assert(window_score(line, s, p) == 10000);
    lemma_line_score_upto_ge_window(line, p, window_count(line), s);
}

pub proof fn lemma_family_score_upto_nonneg(m: BoardModel, fam: LineFamily, p: Player, k: int)
    requires
        m.dims_ok(),
        0 <= k <= line_count(m, fam),
        !crate::validator::family_has_win(m, fam, other_player(p)),
    ensures
        family_score_upto(m, fam, p, k) >= 0,
    decreases k,
{
    if k > 0 {
        lemma_family_score_upto_nonneg(m, fam, p, k - 1);
        let line = line_spec(m, fam, k - 1);
        lemma_line_len_bounds(m, fam, k - 1);
        if line_has_win(line, other_player(p)) {
            assert(crate::validator::family_has_win(m, fam, other_player(p)));
        }
        lemma_line_score_upto_nonneg(line, p, window_count(line));
    }
}

/// A family prefix that includes a winning line is worth at least that
/// line, when no line can cost points.
proof fn lemma_family_score_upto_ge_line(m: BoardModel, fam: LineFamily, p: Player, k: int, d: int)
    requires
        m.dims_ok(),
        0 <= d < k <= line_count(m, fam),
        !crate::validator::family_has_win(m, fam, other_player(p)),
    ensures
        family_score_upto(m, fam, p, k) >= line_score(line_spec(m, fam, d), p),
    decreases k,
{
    let line = line_spec(m, fam, k - 1);
    lemma_line_len_bounds(m, fam, k - 1);
    if line_has_win(line, other_player(p)) {
        assert(crate::validator::family_has_win(m, fam, other_player(p)));
    }
    if k - 1 == d {
        lemma_family_score_upto_nonneg(m, fam, p, k - 1);
    } else {
        lemma_family_score_upto_ge_line(m, fam, p, k - 1, d);
        lemma_line_score_upto_nonneg(line, p, window_count(line));
    }
}

/// A board on which `p` has four-in-a-row and the opponent has none
/// evaluates to at least 10000 for `p`.
pub proof fn lemma_win_board_score(m: BoardModel, p: Player)
    requires
        m.dims_ok(),
        has_win(m, p),
        !has_win(m, other_player(p)),
    ensures
        board_score(m, p) >= 10000,
{
    let q = other_player(p);
    lemma_family_score_upto_nonneg(m, LineFamily::Rows, p, line_count(m, LineFamily::Rows));
    lemma_family_score_upto_nonneg(m, LineFamily::Cols, p, line_count(m, LineFamily::Cols));
    lemma_family_score_upto_nonneg(
        m,
        LineFamily::MainDiagonals,
        p,
        line_count(m, LineFamily::MainDiagonals),
    );
    lemma_family_score_upto_nonneg(
        m,
        LineFamily::SecondaryDiagonals,
        p,
        line_count(m, LineFamily::SecondaryDiagonals),
    );
    let fam = if crate::validator::family_has_win(m, LineFamily::Rows, p) {
        LineFamily::Rows
    } else if crate::validator::family_has_win(m, LineFamily::Cols, p) {
        LineFamily::Cols
    } else if crate::validator::family_has_win(m, LineFamily::MainDiagonals, p) {
        LineFamily::MainDiagonals
    } else {
        LineFamily::SecondaryDiagonals
    };
    assert(crate::validator::family_has_win(m, fam, p));
    let d = choose|d: int|
        0 <= d < line_count(m, fam) && #[trigger] line_has_win(line_spec(m, fam, d), p);
    let line = line_spec(m, fam, d);
    if line_has_win(line, q) {
        assert(crate::validator::family_has_win(m, fam, q));
    }
    lemma_line_score_win(line, p);
    lemma_family_score_upto_ge_line(m, fam, p, line_count(m, fam), d);
}

/// True when the cell holds a piece of `p`.
fn piece_matches(cell: Option<Player>, p: Player) -> (b: bool)
    ensures
        b == (cell == Some(p)),
{
    match cell {
        Some(q) => q == p,
        None => false,
    }
}

/// The contribution of the window of `line` starting at `start` for
/// `wanted`, as the evaluator counts it.
pub fn score_window(line: &Vec<Option<Player>>, start: usize, wanted: Player) -> (s: i32)
    requires
        start + 4 <= line@.len(),
    ensures
        s == window_score(line@, start as int, wanted),
{
    let n = line.len();
    proof {
        assert(start + 4 <= n);
    }
    let op = crate::board::opponent(wanted);
    let mut score: i32 = 0;
    let mut op_score: i32 = 0;
    if piece_matches(line[start], wanted) {
        score = score + 1;
    } else if piece_matches(line[start], op) {
        op_score = op_score + 1;
    }
    if piece_matches(line[start + 1], wanted) {
        score = score + 1;
    } else if piece_matches(line[start + 1], op) {
        op_score = op_score + 1;
    }
    if piece_matches(line[start + 2], wanted) {
        score = score + 1;
    } else if piece_matches(line[start + 2], op) {
        op_score = op_score + 1;
    }
    if piece_matches(line[start + 3], wanted) {
        score = score + 1;
    } else if piece_matches(line[start + 3], op) {
        op_score = op_score + 1;
    }
    if op_score == 4 {
        return -10000;
    }
    if score == 4 {
        return 10000;
    }
    score
}

/// A line's total over its sliding width-4 windows.
pub fn calculate_points(line: &Vec<Option<Player>>, player: Player) -> (s: i32)
    requires
        line@.len() <= 30000,
    ensures
        s == line_score(line@, player),
{
    let n = line.len();
    if n < 4 {
        return 0;
    }
    let wc = n - 3;
    let mut score: i32 = 0;
    let mut s_idx: usize = 0;
    while s_idx < wc
        invariant
            line@.len() == n,
            n <= 30000,
            n >= 4,
            wc == n - 3,
            s_idx <= wc,
            score == line_score_upto(line@, player, s_idx as int),
        decreases wc - s_idx,
    {
        proof {
            lemma_line_score_upto_bound(line@, player, s_idx as int);
            lemma_line_score_upto_bound(line@, player, s_idx as int + 1);
        }
        let w = score_window(line, s_idx, player);
        score = score + w;
        s_idx = s_idx + 1;
    }
    score
}

/// The summed line scores of one whole family.
fn score_family(game: &Game, fam: LineFamily, player: Player) -> (s: i32)
    requires
        game@.board.wf(),
        eval_fits(game@.board),
    ensures
        s == family_score(game@.board, fam, player),
{
    let lines = get_lines(game.get_board(), fam);
    let mut total: i32 = 0;
    let mut d: usize = 0;
    while d < lines.len()
        invariant
            game@.board.wf(),
            eval_fits(game@.board),
            lines@.len() == line_count(game@.board, fam),
            forall|k: int|
                0 <= k < lines@.len() ==> (#[trigger] lines@[k])@ == line_spec(game@.board, fam, k),
            d <= lines@.len(),
            total == family_score_upto(game@.board, fam, player, d as int),
        decreases lines@.len() - d,
    {
        proof {
            let m = game@.board;
            lemma_line_len_bounds(m, fam, d as int);
            assert(m.rows <= 30000 && m.cols <= 30000) by (nonlinear_arith)
                requires
                    1 <= m.rows,
                    1 <= m.cols,
                    m.rows * m.cols <= 30000,
            ;
            lemma_family_score_fits_upto(m, fam, player, d as int);
            lemma_family_score_fits_upto(m, fam, player, d as int + 1);
        }
        let pts = calculate_points(&lines[d], player);
        total = total + pts;
        d = d + 1;
    }
    total
}

/// The column-line part of the evaluation.
pub fn score_columns(game: &Game, player: Player) -> (s: i32)
    requires
        game@.board.wf(),
        eval_fits(game@.board),
    ensures
        s == family_score(game@.board, LineFamily::Cols, player),
{
    score_family(game, LineFamily::Cols, player)
}

/// The row-line part of the evaluation.
pub fn score_rows(game: &Game, player: Player) -> (s: i32)
    requires
        game@.board.wf(),
        eval_fits(game@.board),
    ensures
        s == family_score(game@.board, LineFamily::Rows, player),
{
    score_family(game, LineFamily::Rows, player)
}

/// Both diagonal families of the evaluation, main family first.
pub fn score_diagonals(game: &Game, player: Player) -> (s: i32)
    requires
        game@.board.wf(),
        eval_fits(game@.board),
    ensures
        s == family_score(game@.board, LineFamily::MainDiagonals, player) + family_score(
            game@.board,
            LineFamily::SecondaryDiagonals,
            player,
        ),
{
    proof {
        lemma_family_score_fits(game@.board, LineFamily::MainDiagonals, player);
        lemma_family_score_fits(game@.board, LineFamily::SecondaryDiagonals, player);
    }
    let main = score_family(game, LineFamily::MainDiagonals, player);
    let sec = score_family(game, LineFamily::SecondaryDiagonals, player);
    main + sec
}

/// The full static evaluation of the position for `player`.
pub fn calc_score(game: &Game, player: Player) -> (s: i32)
    requires
        game@.board.wf(),
        eval_fits(game@.board),
    ensures
        s == board_score(game@.board, player),
{
    proof {
        lemma_family_score_fits(game@.board, LineFamily::Rows, player);
        lemma_family_score_fits(game@.board, LineFamily::Cols, player);
        lemma_family_score_fits(game@.board, LineFamily::MainDiagonals, player);
        lemma_family_score_fits(game@.board, LineFamily::SecondaryDiagonals, player);
    }
    score_columns(game, player) + score_rows(game, player) + score_diagonals(game, player)
}

/// The search has hit its horizon or a finished game: depth exhausted, or
/// the state is no longer `Playing`.
pub open spec fn at_leaf(g: GameModel, depth: int) -> bool {
    depth == 0 || g.state != GameState::Playing
}

/// The lowest-numbered playable column wins the game at once for the player
/// to move.
pub open spec fn first_move_wins(g: GameModel) -> bool {
    let c = g.board.first_valid_col();
    &&& c < g.board.cols
    &&& has_win(g.board.after_play(c, g.player), g.player)
}

/// In an ascending, complete list of the playable columns, the head is the
/// lowest-numbered playable column.
proof fn lemma_moves_head_is_first_valid(m: BoardModel, moves: Seq<usize>)
    requires
        m.wf(),
        forall|i: int|
            0 <= i < moves.len() ==> (#[trigger] moves[i]) < m.cols && m.piece_at(
                0,
                moves[i] as int,
            ) is None,
        forall|i: int, j: int| 0 <= i < j < moves.len() ==> moves[i] < moves[j],
        forall|c: int|
            0 <= c < m.cols && m.piece_at(0, c) is None ==> exists|i: int|
                0 <= i < moves.len() && moves[i] == c,
        moves.len() > 0,
    ensures
        moves[0] as int == m.first_valid_col(),
{
    let f = m.first_valid_col();
    crate::board::lemma_first_valid_from_props(m, 0);
    assert(!m.col_full(moves[0] as int));
    assert(f <= moves[0] as int);
    assert(f < m.cols);
    assert(m.piece_at(0, f) is None);
    let i = choose|i: int| 0 <= i < moves.len() && moves[i] == f as usize;
    if i > 0 {
        assert(moves[0] < moves[i]);
    }
}

/// A game that is still `Playing` has at least one playable column, so the
/// playable-move list is never empty.
proof fn lemma_playing_has_moves(g: GameModel, moves: Seq<usize>)
    requires
        g.wf(),
        g.state == GameState::Playing,
        forall|c: int|
            0 <= c < g.board.cols && g.board.piece_at(0, c) is None ==> exists|i: int|
                0 <= i < moves.len() && moves[i] == c,
    ensures
        moves.len() > 0,
{
    crate::board::lemma_not_full_has_valid_move(g.board);
    let c = choose|c: int| 0 <= c < g.board.cols && !(#[trigger] g.board.col_full(c));
    assert(g.board.piece_at(0, c) is None);
    let i = choose|i: int| 0 <= i < moves.len() && moves[i] == c;
}

/// At a leaf the score is the static evaluation for the searching player,
/// and the reported move is the one that produced the position.
fn end_score(game: &Game, max_player: Player, depth: usize) -> (r: Option<(usize, i32)>)
    requires
        game@.wf(),
        eval_fits(game@.board),
        at_leaf(game@, depth as int) ==> game@.board.last is Some,
    ensures
        r is Some <==> at_leaf(game@, depth as int),
        r matches Some((m, s)) ==> s == board_score(game@.board, max_player) && game@.board.last
            == Some(m as int),
{
    if depth == 0 || game.state != GameState::Playing {
        let last_move = game.get_board().get_last_move().unwrap();
        return Some((last_move, calc_score(game, max_player)));
    }
    None
}


/// The leaf value of the search: the column that produced the position and
/// its static evaluation for the searching player.
pub open spec fn leaf_result(g: GameModel, maxp: Player) -> (int, int) {
    (g.board.last.unwrap(), board_score(g.board, maxp))
}

/// The value of a maximizing node: at a leaf the static evaluation, and
/// otherwise the scan of the playable columns from column 0 upwards.
pub open spec fn search_max(g: GameModel, maxp: Player, depth: int, alpha: int, beta: int) -> (
    int,
    int,
)
    decreases depth, g.board.cols + 1,
{
    if depth <= 0 || g.state != GameState::Playing || g.board.cols < 0 {
        leaf_result(g, maxp)
    } else {
        search_max_from(g, maxp, depth, alpha, beta, 0, g.board.first_valid_col(), -10000)
    }
}

/// The maximizing scan from column `c` on, carrying the best column and
/// score so far: full columns are skipped, a strictly better child replaces
/// the best, `alpha` rises with the best, and the scan stops once `alpha`
/// reaches `beta`.
pub open spec fn search_max_from(
    g: GameModel,
    maxp: Player,
    depth: int,
    alpha: int,
    beta: int,
    c: int,
    bm: int,
    bs: int,
) -> (int, int)
    decreases depth, g.board.cols - c,
{
    if depth <= 0 || c >= g.board.cols {
        (bm, bs)
    } else if g.board.col_full(c) {
        search_max_from(g, maxp, depth, alpha, beta, c + 1, bm, bs)
    } else {
        let s = search_min(g.play_step(c), maxp, depth - 1, alpha, beta).1;
        let bm2 = if s > bs {
            c
        } else {
            bm
        };
        let bs2 = if s > bs {
            s
        } else {
            bs
        };
        let alpha2 = if bs2 > alpha {
            bs2
        } else {
            alpha
        };
        if alpha2 >= beta {
            (bm2, bs2)
        } else {
            search_max_from(g, maxp, depth, alpha2, beta, c + 1, bm2, bs2)
        }
    }
}

/// The value of a minimizing node, dual to `search_max`.
pub open spec fn search_min(g: GameModel, maxp: Player, depth: int, alpha: int, beta: int) -> (
    int,
    int,
)
    decreases depth, g.board.cols + 1,
{
    if depth <= 0 || g.state != GameState::Playing || g.board.cols < 0 {
        leaf_result(g, maxp)
    } else {
        search_min_from(g, maxp, depth, alpha, beta, 0, g.board.first_valid_col(), 10000)
    }
}

/// The minimizing scan from column `c` on, dual to `search_max_from`:
/// `beta` falls with the best, and the scan stops once `beta` reaches
/// `alpha`.
pub open spec fn search_min_from(
    g: GameModel,
    maxp: Player,
    depth: int,
    alpha: int,
    beta: int,
    c: int,
    bm: int,
    bs: int,
) -> (int, int)
    decreases depth, g.board.cols - c,
{
    if depth <= 0 || c >= g.board.cols {
        (bm, bs)
    } else if g.board.col_full(c) {
        search_min_from(g, maxp, depth, alpha, beta, c + 1, bm, bs)
    } else {
        let s = search_max(g.play_step(c), maxp, depth - 1, alpha, beta).1;
        let bm2 = if s < bs {
            c
        } else {
            bm
        };
        let bs2 = if s < bs {
            s
        } else {
            bs
        };
        let beta2 = if bs2 < beta {
            bs2
        } else {
            beta
        };
        if beta2 <= alpha {
            (bm2, bs2)
        } else {
            search_min_from(g, maxp, depth, alpha, beta2, c + 1, bm2, bs2)
        }
    }
}

/// The column the search selects for the player to move: a six-ply
/// alpha-beta scan opened with the widest window the evaluator uses.
pub open spec fn chosen_move(g: GameModel) -> int {
    search_max(g, g.player, 6, -10000, 10000).0
}

/// A maximizing scan is unchanged by skipping over full columns.
proof fn lemma_search_max_from_skip(
    g: GameModel,
    maxp: Player,
    depth: int,
    alpha: int,
    beta: int,
    c1: int,
    c2: int,
    bm: int,
    bs: int,
)
    requires
        0 <= c1 <= c2 <= g.board.cols,
        forall|c: int| c1 <= c < c2 ==> #[trigger] g.board.col_full(c),
    ensures
        search_max_from(g, maxp, depth, alpha, beta, c1, bm, bs) == search_max_from(
            g,
            maxp,
            depth,
            alpha,
            beta,
            c2,
            bm,
            bs,
        ),
    decreases c2 - c1,
{
    if c1 < c2 {
        lemma_search_max_from_skip(g, maxp, depth, alpha, beta, c1 + 1, c2, bm, bs);
    }
}

/// A minimizing scan is unchanged by skipping over full columns.
proof fn lemma_search_min_from_skip(
    g: GameModel,
    maxp: Player,
    depth: int,
    alpha: int,
    beta: int,
    c1: int,
    c2: int,
    bm: int,
    bs: int,
)
    requires
        0 <= c1 <= c2 <= g.board.cols,
        forall|c: int| c1 <= c < c2 ==> #[trigger] g.board.col_full(c),
    ensures
        search_min_from(g, maxp, depth, alpha, beta, c1, bm, bs) == search_min_from(
            g,
            maxp,
            depth,
            alpha,
            beta,
            c2,
            bm,
            bs,
        ),
    decreases c2 - c1,
{
    if c1 < c2 {
        lemma_search_min_from_skip(g, maxp, depth, alpha, beta, c1 + 1, c2, bm, bs);
    }
}

/// Between two neighbours of an ascending, complete move list every column
/// is full: from just past move `i - 1` up to move `i` (or up to the edge
/// of the board once the list is exhausted).
proof fn lemma_gap_full(m: BoardModel, moves: Seq<usize>, lo: int, hi: int, i: int)
    requires
        m.wf(),
        forall|k: int|
            0 <= k < moves.len() ==> (#[trigger] moves[k]) < m.cols && m.piece_at(
                0,
                moves[k] as int,
            ) is None,
        forall|k: int, j: int| 0 <= k < j < moves.len() ==> moves[k] < moves[j],
        forall|c: int|
            0 <= c < m.cols && m.piece_at(0, c) is None ==> exists|k: int|
                0 <= k < moves.len() && moves[k] == c,
        0 <= i <= moves.len(),
        lo == if i == 0 {
            0int
        } else {
            moves[i - 1] + 1
        },
        hi == if i < moves.len() {
            moves[i] as int
        } else {
            m.cols
        },
    ensures
        forall|c: int| lo <= c < hi ==> #[trigger] m.col_full(c),
{
    assert forall|c: int| lo <= c < hi implies #[trigger] m.col_full(c) by {
        if !m.col_full(c) {
            assert(m.piece_at(0, c) is None);
            let k = choose|k: int| 0 <= k < moves.len() && moves[k] == c;
            if k < i {
                if k < i - 1 {
                    assert(moves[k] < moves[i - 1]);
                }
                assert(c <= moves[i - 1]);
            } else {
                if i < moves.len() {
                    if i < k {
                        assert(moves[i] < moves[k]);
                    }
                    assert(c >= moves[i]);
                }
            }
        }
    }
}

/// The minimizing half of the search: tracks the lowest score seen, lowers
/// `beta` with it, and stops once `beta` has fallen to `alpha` or below.
fn ab_min(game: &Game, max_player: Player, depth: usize, alpha: i32, beta: i32) -> (r: (
    usize,
    i32,
))
    requires
        game@.wf(),
        eval_fits(game@.board),
        at_leaf(game@, depth as int) ==> game@.board.last is Some,
    ensures
        at_leaf(game@, depth as int) ==> r.1 == board_score(game@.board, max_player),
        (r.0 as int, r.1 as int) == search_min(
            game@,
            max_player,
            depth as int,
            alpha as int,
            beta as int,
        ),
    decreases depth,
{
    let leaf = end_score(game, max_player, depth);
    match leaf {
        Some(score) => {
            return score;
        },
        None => {},
    }
    let moves = game.get_board().get_valid_moves();
    proof {
        lemma_playing_has_moves(game@, moves@);
        lemma_moves_head_is_first_valid(game@.board, moves@);
    }
    let ghost beta0: int = beta as int;
    let mut beta = beta;
    let mut best_score: i32 = 10000;
    let mut best_move: usize = moves[0];
    let mut i: usize = 0;
    let ghost mut cnext: int = 0;
    loop
        invariant_except_break
            game@.wf(),
            eval_fits(game@.board),
            game@.state == GameState::Playing,
            depth >= 1,
            moves@.len() > 0,
            forall|k: int|
                0 <= k < moves@.len() ==> (#[trigger] moves@[k]) < game@.board.cols
                    && game@.board.piece_at(0, moves@[k] as int) is None,
            forall|k: int, j: int| 0 <= k < j < moves@.len() ==> moves@[k] < moves@[j],
            forall|c: int|
                0 <= c < game@.board.cols && game@.board.piece_at(0, c) is None ==> exists|k: int|
                    0 <= k < moves@.len() && moves@[k] == c,
            i <= moves@.len(),
            cnext == if i == 0 {
                0int
            } else {
                moves@[i - 1] + 1
            },
            0 <= cnext <= game@.board.cols,
            search_min_from(
                game@,
                max_player,
                depth as int,
                alpha as int,
                beta as int,
                cnext,
                best_move as int,
                best_score as int,
            ) == search_min(game@, max_player, depth as int, alpha as int, beta0),
        ensures
            (best_move as int, best_score as int) == search_min(
                game@,
                max_player,
                depth as int,
                alpha as int,
                beta0,
            ),
        decreases moves@.len() - i,
    {
        if i >= moves.len() {
            proof {
                lemma_gap_full(game@.board, moves@, cnext, game@.board.cols, i as int);
                lemma_search_min_from_skip(
                    game@,
                    max_player,
                    depth as int,
                    alpha as int,
                    beta as int,
                    cnext,
                    game@.board.cols,
                    best_move as int,
                    best_score as int,
                );
            }
            break;
        }
        let m = moves[i];
        proof {
            lemma_gap_full(game@.board, moves@, cnext, m as int, i as int);
            lemma_search_min_from_skip(
                game@,
                max_player,
                depth as int,
                alpha as int,
                beta as int,
                cnext,
                m as int,
                best_move as int,
                best_score as int,
            );
        }
        let ghost bm0: int = best_move as int;
        let ghost bs0: int = best_score as int;
        let ghost bprev: int = beta as int;
        let mut copy_state = game.clone();
        copy_state.play(m).unwrap();
        proof {
            assert(copy_state@ == game@.play_step(m as int));
        }
        let rec = ab_max(&copy_state, max_player, depth - 1, alpha, beta);
        let score = rec.1;
        if score < best_score {
            best_score = score;
            best_move = m;
        }
        if best_score < beta {
            beta = best_score;
        }
        proof {
            assert(search_min_from(
                game@,
                max_player,
                depth as int,
                alpha as int,
                bprev,
                m as int,
                bm0,
                bs0,
            ) == if beta as int <= alpha as int {
                (best_move as int, best_score as int)
            } else {
                search_min_from(
                    game@,
                    max_player,
                    depth as int,
                    alpha as int,
                    beta as int,
                    m as int + 1,
                    best_move as int,
                    best_score as int,
                )
            });
        }
        if beta <= alpha {
            break;
        }
        i = i + 1;
        proof {
            cnext = m as int + 1;
        }
    }
    (best_move, best_score)
}

/// The maximizing half of the search: tracks the highest score seen, raises
/// `alpha` with it, and stops once `alpha` has risen to `beta` or beyond.  While
/// the game goes on it always returns a playable column; when the very
/// first playable column wins the game at once for the searching player,
/// that column is returned.
fn ab_max(game: &Game, max_player: Player, depth: usize, alpha: i32, beta: i32) -> (r: (
    usize,
    i32,
))
    requires
        game@.wf(),
        eval_fits(game@.board),
        at_leaf(game@, depth as int) ==> game@.board.last is Some,
    ensures
        at_leaf(game@, depth as int) ==> r.1 == board_score(game@.board, max_player),
        (r.0 as int, r.1 as int) == search_max(
            game@,
            max_player,
            depth as int,
            alpha as int,
            beta as int,
        ),
        !at_leaf(game@, depth as int) ==> (r.0 as int) < game@.board.cols && game@.board.piece_at(
            0,
            r.0 as int,
        ) is None,
        !at_leaf(game@, depth as int) && game@.player == max_player && beta <= 10000
            && first_move_wins(game@) ==> r.0 as int == game@.board.first_valid_col() && r.1
            >= 10000,
    decreases depth,
{
    let leaf = end_score(game, max_player, depth);
    match leaf {
        Some(val) => {
            return val;
        },
        None => {},
    }
    let moves = game.get_board().get_valid_moves();
    proof {
        lemma_playing_has_moves(game@, moves@);
        lemma_moves_head_is_first_valid(game@.board, moves@);
    }
    let ghost premise = game@.player == max_player && beta <= 10000 && first_move_wins(game@);
    let ghost alpha0: int = alpha as int;
    let mut alpha = alpha;
    let mut best_score: i32 = -10000;
    let mut best_move: usize = moves[0];
    let mut i: usize = 0;
    let ghost mut cnext: int = 0;
    loop
        invariant_except_break
            game@.wf(),
            eval_fits(game@.board),
            game@.state == GameState::Playing,
            depth >= 1,
            moves@.len() > 0,
            forall|k: int|
                0 <= k < moves@.len() ==> (#[trigger] moves@[k]) < game@.board.cols
                    && game@.board.piece_at(0, moves@[k] as int) is None,
            forall|k: int, j: int| 0 <= k < j < moves@.len() ==> moves@[k] < moves@[j],
            forall|c: int|
                0 <= c < game@.board.cols && game@.board.piece_at(0, c) is None ==> exists|k: int|
                    0 <= k < moves@.len() && moves@[k] == c,
            moves@[0] as int == game@.board.first_valid_col(),
            premise == (game@.player == max_player && beta <= 10000 && first_move_wins(game@)),
            i <= moves@.len(),
            cnext == if i == 0 {
                0int
            } else {
                moves@[i - 1] + 1
            },
            0 <= cnext <= game@.board.cols,
            (best_move as int) < game@.board.cols && game@.board.piece_at(
                0,
                best_move as int,
            ) is None,
            premise ==> i == 0 && best_score == -10000 && best_move == moves@[0] && alpha as int
                == alpha0,
            search_max_from(
                game@,
                max_player,
                depth as int,
                alpha as int,
                beta as int,
                cnext,
                best_move as int,
                best_score as int,
            ) == search_max(game@, max_player, depth as int, alpha0, beta as int),
        ensures
            (best_move as int) < game@.board.cols && game@.board.piece_at(
                0,
                best_move as int,
            ) is None,
            premise ==> best_move == moves@[0] && best_score >= 10000,
            (best_move as int, best_score as int) == search_max(
                game@,
                max_player,
                depth as int,
                alpha0,
                beta as int,
            ),
        decreases moves@.len() - i,
    {
        if i >= moves.len() {
            proof {
                lemma_gap_full(game@.board, moves@, cnext, game@.board.cols, i as int);
                lemma_search_max_from_skip(
                    game@,
                    max_player,
                    depth as int,
                    alpha as int,
                    beta as int,
                    cnext,
                    game@.board.cols,
                    best_move as int,
                    best_score as int,
                );
            }
            break;
        }
        let m = moves[i];
        proof {
            lemma_gap_full(game@.board, moves@, cnext, m as int, i as int);
            lemma_search_max_from_skip(
                game@,
                max_player,
                depth as int,
                alpha as int,
                beta as int,
                cnext,
                m as int,
                best_move as int,
                best_score as int,
            );
        }
        let ghost bm0: int = best_move as int;
        let ghost bs0: int = best_score as int;
        let ghost aprev: int = alpha as int;
        let mut copy_state = game.clone();
        copy_state.play(m).unwrap();
        proof {
            assert(copy_state@ == game@.play_step(m as int));
            if premise && i == 0 {
                let me = game@.player;
                let b2 = game@.board.after_play(m as int, me);
                lemma_play_no_new_win_for_other(game@.board, m as int, me);
                assert(has_win(b2, me));
                assert(copy_state@.state == GameState::Winner(me));
                lemma_win_board_score(b2, me);
            }
        }
        let rec = ab_min(&copy_state, max_player, depth - 1, alpha, beta);
        let score = rec.1;
        if score > best_score {
            best_score = score;
            best_move = m;
        }
        if best_score > alpha {
            alpha = best_score;
        }
        proof {
            assert(search_max_from(
                game@,
                max_player,
                depth as int,
                aprev,
                beta as int,
                m as int,
                bm0,
                bs0,
            ) == if alpha as int >= beta as int {
                (best_move as int, best_score as int)
            } else {
                search_max_from(
                    game@,
                    max_player,
                    depth as int,
                    alpha as int,
                    beta as int,
                    m as int + 1,
                    best_move as int,
                    best_score as int,
                )
            });
        }
        if alpha >= beta {
            break;
        }
        i = i + 1;
        proof {
            cnext = m as int + 1;
            if premise {
                assert(false);
            }
        }
    }
    (best_move, best_score)
}

/// The column the machine plays: a fixed-depth minimax search with
/// alpha-beta pruning over cloned games, every leaf scored for the player
/// to move in `game`.  The result is exactly the column `chosen_move`
/// describes; it is always playable, and when the lowest playable column is
/// an immediate win for that player, it is the one returned.
pub fn get_ai_move(game: &Game) -> (c: usize)
    requires
        game@.wf(),
        game@.state == GameState::Playing,
        eval_fits(game@.board),
    ensures
        c as int == chosen_move(game@),
        (c as int) < game@.board.cols && game@.board.piece_at(0, c as int) is None,
        first_move_wins(game@) ==> c as int == game@.board.first_valid_col(),
{
    let max_player = game.current_player;
    let result = ab_max(game, max_player, 6, -10000, 10000);
    result.0
}

} // verus!
