//! Win detection: sliding a width-4 window along every line of every
//! family, with the spec-level win predicate and the lemmas about how
//! placements can and cannot create four-in-a-row.

use vstd::prelude::*;

use crate::board::{other_player, Board, BoardModel, Player};
use crate::board_iterators::{
    get_lines, lemma_line_geometry, line_col, line_count, line_row, line_spec, LineFamily,
};

verus! {

/// The four cells of `line` starting at `s` all belong to `p`.
pub open spec fn win_window(line: Seq<Option<Player>>, s: int, p: Player) -> bool {
    &&& line[s] == Some(p)
    &&& line[s + 1] == Some(p)
    &&& line[s + 2] == Some(p)
    &&& line[s + 3] == Some(p)
}

/// Some width-4 window of `line` belongs entirely to `p`.
pub open spec fn line_has_win(line: Seq<Option<Player>>, p: Player) -> bool {
    exists|s: int| 0 <= s && s + 4 <= line.len() && #[trigger] win_window(line, s, p)
}

/// Some line of the family carries a four-in-a-row for `p`.
pub open spec fn family_has_win(m: BoardModel, fam: LineFamily, p: Player) -> bool {
    exists|d: int|
        0 <= d < line_count(m, fam) && #[trigger] line_has_win(line_spec(m, fam, d), p)
}

/// `p` has four-in-a-row somewhere on the board: along a row, a column, or
/// a diagonal of either direction.
pub open spec fn has_win(m: BoardModel, p: Player) -> bool {
    ||| family_has_win(m, LineFamily::Rows, p)
    ||| family_has_win(m, LineFamily::Cols, p)
    ||| family_has_win(m, LineFamily::MainDiagonals, p)
    ||| family_has_win(m, LineFamily::SecondaryDiagonals, p)
}

/// A board-level win names a concrete winning window in some family line.
pub proof fn lemma_win_gives_window(m: BoardModel, p: Player)
    requires
        has_win(m, p),
    ensures
        exists|fam: LineFamily, d: int, s: int|
            0 <= d < line_count(m, fam) && 0 <= s && s + 4 <= line_spec(m, fam, d).len()
                && #[trigger] win_window(line_spec(m, fam, d), s, p),
{
    let fam = if family_has_win(m, LineFamily::Rows, p) {
        LineFamily::Rows
    } else if family_has_win(m, LineFamily::Cols, p) {
        LineFamily::Cols
    } else if family_has_win(m, LineFamily::MainDiagonals, p) {
        LineFamily::MainDiagonals
    } else {
        LineFamily::SecondaryDiagonals
    };
    assert(family_has_win(m, fam, p));
    let d = choose|d: int|
        0 <= d < line_count(m, fam) && #[trigger] line_has_win(line_spec(m, fam, d), p);
    let s = choose|s: int|
        0 <= s && s + 4 <= line_spec(m, fam, d).len() && #[trigger] win_window(
            line_spec(m, fam, d),
            s,
            p,
        );
    assert(0 <= d < line_count(m, fam) && 0 <= s && s + 4 <= line_spec(m, fam, d).len()
        && win_window(line_spec(m, fam, d), s, p));
}

/// Placing one piece for `p` cannot give the other player a four-in-a-row.
pub proof fn lemma_play_no_new_win_for_other(m: BoardModel, c: int, p: Player)
    requires
        m.wf(),
        0 <= c < m.cols,
        !m.col_full(c),
        !has_win(m, other_player(p)),
    ensures
        !has_win(m.after_play(c, p), other_player(p)),
{
    let q = other_player(p);
    let m2 = m.after_play(c, p);
    crate::board::lemma_after_play_wf(m, c, p);
    if has_win(m2, q) {
        lemma_win_gives_window(m2, q);
        let (fam, d, s) = choose|fam: LineFamily, d: int, s: int|
            0 <= d < line_count(m2, fam) && 0 <= s && s + 4 <= line_spec(m2, fam, d).len()
                && #[trigger] win_window(line_spec(m2, fam, d), s, q);
        assert forall|j: int| s <= j < s + 4 implies line_spec(m, fam, d)[j] == Some(q) by {
            lemma_line_geometry(m2, fam, d, j);
            assert(line_spec(m2, fam, d)[j] == Some(q));
            assert(m2.cell(line_row(m2, fam, d, j), line_col(m2, fam, d, j)) == Some(q));
        }
        assert(win_window(line_spec(m, fam, d), s, q));
        assert(line_has_win(line_spec(m, fam, d), q));
        assert(family_has_win(m, fam, q));
        assert(false);
    }
}

/// A board with no piece on it has no four-in-a-row.
pub proof fn lemma_empty_board_no_win(m: BoardModel, p: Player)
    requires
        m.dims_ok(),
        forall|i: int| 0 <= i < m.cells.len() ==> m.cells[i] is None,
    ensures
        !has_win(m, p),
{
    if has_win(m, p) {
        lemma_win_gives_window(m, p);
        let (fam, d, s) = choose|fam: LineFamily, d: int, s: int|
            0 <= d < line_count(m, fam) && 0 <= s && s + 4 <= line_spec(m, fam, d).len()
                && #[trigger] win_window(line_spec(m, fam, d), s, p);
        lemma_line_geometry(m, fam, d, s);
        crate::board::lemma_idx_bounds(m, line_row(m, fam, d, s), line_col(m, fam, d, s));
        assert(line_spec(m, fam, d)[s] is None);
        assert(false);
    }
}

/// True when the four cells of `line` starting at `start` all hold `p`.
pub fn four_player_in_a_row(line: &Vec<Option<Player>>, start: usize, p: Player) -> (b: bool)
    requires
        start + 4 <= line@.len(),
    ensures
        b == win_window(line@, start as int, p),
{
    let n = line.len();
    proof {
        assert(start + 4 <= n);
    }
    let c0 = match line[start] {
        Some(q) => q == p,
        None => false,
    };
    let c1 = match line[start + 1] {
        Some(q) => q == p,
        None => false,
    };
    let c2 = match line[start + 2] {
        Some(q) => q == p,
        None => false,
    };
    let c3 = match line[start + 3] {
        Some(q) => q == p,
        None => false,
    };
    c0 && c1 && c2 && c3
}

/// Scans every width-4 window of one line, Yellow checked before Red.
fn find_winner_in_line(line: &Vec<Option<Player>>) -> (r: Option<Player>)
    ensures
        r is None <==> !line_has_win(line@, Player::Yellow) && !line_has_win(line@, Player::Red),
        r matches Some(p) ==> line_has_win(line@, p),
{
    if line.len() < 4 {
        return None;
    }
    let mut s: usize = 0;
    let last_start = line.len() - 4;
    loop
        invariant_except_break
            line@.len() >= 4,
            last_start == line@.len() - 4,
            last_start + 4 <= usize::MAX,
            s <= last_start + 1,
            forall|s0: int|
                0 <= s0 < s ==> !win_window(line@, s0, Player::Yellow) && !win_window(
                    line@,
                    s0,
                    Player::Red,
                ),
        ensures
            forall|s0: int|
                0 <= s0 && s0 + 4 <= line@.len() ==> !win_window(line@, s0, Player::Yellow)
                    && !win_window(line@, s0, Player::Red),
        decreases last_start + 1 - s,
    {
        if s > last_start {
            break;
        }
        if four_player_in_a_row(line, s, Player::Yellow) {
            return Some(Player::Yellow);
        }
        if four_player_in_a_row(line, s, Player::Red) {
            return Some(Player::Red);
        }
        s = s + 1;
    }
    None
}

/// Scans a list of lines in order for the first four-in-a-row.
fn find_winner_in_lines(lines: &Vec<Vec<Option<Player>>>) -> (r: Option<Player>)
    ensures
        r is None <==> (forall|d: int|
            0 <= d < lines@.len() ==> !line_has_win((#[trigger] lines@[d])@, Player::Yellow)
                && !line_has_win(lines@[d]@, Player::Red)),
        r matches Some(p) ==> exists|d: int|
            0 <= d < lines@.len() && line_has_win((#[trigger] lines@[d])@, p),
{
    let mut d: usize = 0;
    while d < lines.len()
        invariant
            d <= lines@.len(),
            forall|k: int|
                0 <= k < d ==> !line_has_win((#[trigger] lines@[k])@, Player::Yellow)
                    && !line_has_win(lines@[k]@, Player::Red),
        decreases lines@.len() - d,
    {
        let r = find_winner_in_line(&lines[d]);
        match r {
            Some(p) => {
                return Some(p);
            },
            None => {},
        }
        d = d + 1;
    }
    None
}

/// Carries a per-family scan result over to the board-level win predicate.
proof fn lemma_lines_cover_family(lines: Seq<Vec<Option<Player>>>, m: BoardModel, fam: LineFamily)
    requires
        lines.len() == line_count(m, fam),
        forall|d: int| 0 <= d < lines.len() ==> (#[trigger] lines[d])@ == line_spec(m, fam, d),
    ensures
        forall|p: Player|
            #[trigger] family_has_win(m, fam, p) <==> exists|d: int|
                0 <= d < lines.len() && line_has_win((#[trigger] lines[d])@, p),
{
    assert forall|p: Player| #[trigger] family_has_win(m, fam, p) implies exists|d: int|
        0 <= d < lines.len() && line_has_win((#[trigger] lines[d])@, p) by {
        let d0 = choose|d: int|
            0 <= d < line_count(m, fam) && #[trigger] line_has_win(line_spec(m, fam, d), p);
        assert(lines[d0]@ == line_spec(m, fam, d0));
        assert(line_has_win(lines[d0]@, p));
    }
    assert forall|p: Player|
        (exists|d: int| 0 <= d < lines.len() && line_has_win((#[trigger] lines[d])@, p))
        implies #[trigger] family_has_win(m, fam, p) by {
        let d0 = choose|d: int| 0 <= d < lines.len() && line_has_win((#[trigger] lines[d])@, p);
        assert(line_has_win(line_spec(m, fam, d0), p));
    }
}

/// The winner along some row, or absent when no row carries four-in-a-row.
pub fn find_winner_in_rows(board: &Board) -> (r: Option<Player>)
    requires
        board@.wf(),
    ensures
        r is None <==> !family_has_win(board@, LineFamily::Rows, Player::Yellow)
            && !family_has_win(board@, LineFamily::Rows, Player::Red),
        r matches Some(p) ==> family_has_win(board@, LineFamily::Rows, p),
{
    let lines = get_lines(board, LineFamily::Rows);
    proof {
        lemma_lines_cover_family(lines@, board@, LineFamily::Rows);
    }
    find_winner_in_lines(&lines)
}

/// The winner along some column, or absent.
pub fn find_winner_in_cols(board: &Board) -> (r: Option<Player>)
    requires
        board@.wf(),
    ensures
        r is None <==> !family_has_win(board@, LineFamily::Cols, Player::Yellow)
            && !family_has_win(board@, LineFamily::Cols, Player::Red),
        r matches Some(p) ==> family_has_win(board@, LineFamily::Cols, p),
{
    let lines = get_lines(board, LineFamily::Cols);
    proof {
        lemma_lines_cover_family(lines@, board@, LineFamily::Cols);
    }
    find_winner_in_lines(&lines)
}

/// The winner along some diagonal of either direction, or absent.  The main
/// diagonal family is scanned before the secondary one.
pub fn find_winner_in_diagonals(board: &Board) -> (r: Option<Player>)
    requires
        board@.wf(),
    ensures
        r is None <==> !family_has_win(board@, LineFamily::MainDiagonals, Player::Yellow)
            && !family_has_win(board@, LineFamily::MainDiagonals, Player::Red) && !family_has_win(
            board@,
            LineFamily::SecondaryDiagonals,
            Player::Yellow,
        ) && !family_has_win(board@, LineFamily::SecondaryDiagonals, Player::Red),
        r matches Some(p) ==> family_has_win(board@, LineFamily::MainDiagonals, p)
            || family_has_win(board@, LineFamily::SecondaryDiagonals, p),
{
    let main_lines = get_lines(board, LineFamily::MainDiagonals);
    proof {
        lemma_lines_cover_family(main_lines@, board@, LineFamily::MainDiagonals);
    }
    let r = find_winner_in_lines(&main_lines);
    match r {
        Some(p) => Some(p),
        None => {
            let sec_lines = get_lines(board, LineFamily::SecondaryDiagonals);
            proof {
                lemma_lines_cover_family(sec_lines@, board@, LineFamily::SecondaryDiagonals);
            }
            find_winner_in_lines(&sec_lines)
        },
    }
}

/// Scans rows, then columns, then both diagonal families for a
/// four-in-a-row.  Reports no winner exactly when neither player has one;
/// when only one player has a four-in-a-row, reports that player.
pub fn get_winner(board: &Board) -> (r: Option<Player>)
    requires
        board@.wf(),
    ensures
        r is None <==> !has_win(board@, Player::Yellow) && !has_win(board@, Player::Red),
        r matches Some(p) ==> has_win(board@, p),
        forall|p: Player|
            has_win(board@, p) && !has_win(board@, other_player(p)) ==> r == Some(p),
{
    let r1 = find_winner_in_rows(board);
    let winner = match r1 {
        Some(p) => Some(p),
        None => {
            let r2 = find_winner_in_cols(board);
            match r2 {
                Some(p) => Some(p),
                None => find_winner_in_diagonals(board),
            }
        },
    };
    proof {
        assert forall|p: Player|
            has_win(board@, p) && !has_win(board@, other_player(p)) implies winner == Some(p) by {
        }
    }
    winner
}

} // verus!
