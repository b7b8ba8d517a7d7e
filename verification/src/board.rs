//! The board: a dense row-major grid with gravity placement, the move
//! counter, and the column of the latest placement, together with its
//! mathematical model and the lemmas the rest of the engine builds on.

use vstd::pervasive::VecAdditionalExecFns;
use vstd::prelude::*;

verus! {

/// A player's piece colour; Yellow moves first in a default game.
#[derive(Debug, PartialEq, Eq, Structural, Clone, Copy)]
pub enum Player {
    Yellow,
    Red,
}

pub open spec fn other_player(p: Player) -> Player {
    match p {
        Player::Yellow => Player::Red,
        Player::Red => Player::Yellow,
    }
}

/// The opposing player.
pub fn opponent(p: Player) -> (q: Player)
    ensures
        q == other_player(p),
{
    match p {
        Player::Yellow => Player::Red,
        Player::Red => Player::Yellow,
    }
}

/// Why a placement was refused.  An error never mutates the board.
#[derive(Debug, PartialEq, Eq, Structural, Clone, Copy)]
pub enum PlayErr {
    FullColumn,
    OutOfBounds,
}

/// The mathematical value of a board: its dimensions, the grid of cells in
/// row-major order (row 0 is the top row), the number of successful
/// placements, and the column of the most recent placement.
#[verifier::ext_equal]
pub ghost struct BoardModel {
    pub rows: int,
    pub cols: int,
    pub cells: Seq<Option<Player>>,
    pub played: int,
    pub last: Option<int>,
}

/// How many cells of `s` are occupied.
pub open spec fn count_occupied(s: Seq<Option<Player>>) -> int
    decreases s.len(),
{
    if s.len() == 0 {
        0
    } else {
        count_occupied(s.drop_last()) + if s.last() is Some {
            1int
        } else {
            0int
        }
    }
}

impl BoardModel {
    /// Row-major index of cell (r, c).
    pub open spec fn idx(self, r: int, c: int) -> int {
        r * self.cols + c
    }

    pub open spec fn in_bounds(self, r: int, c: int) -> bool {
        0 <= r < self.rows && 0 <= c < self.cols
    }

    pub open spec fn cell(self, r: int, c: int) -> Option<Player> {
        self.cells[self.idx(r, c)]
    }

    /// The permissive accessor: absent for out-of-range coordinates.
    pub open spec fn piece_at(self, r: int, c: int) -> Option<Player> {
        if self.in_bounds(r, c) {
            self.cell(r, c)
        } else {
            None
        }
    }

    pub open spec fn dims_ok(self) -> bool {
        &&& 1 <= self.rows
        &&& 1 <= self.cols
        &&& self.cells.len() == self.rows * self.cols
    }

    /// Gravity: below an occupied cell every cell of the column is occupied.
    pub open spec fn gravity_ok(self) -> bool {
        forall|r1: int, r2: int, c: int|
            self.in_bounds(r1, c) && r1 <= r2 < self.rows && (#[trigger] self.cell(r1, c)) is Some
                ==> (#[trigger] self.cell(r2, c)) is Some
    }

    /// The board invariant: well-shaped grid, gravity, a move counter that
    /// counts the occupied cells, and a last-move column that exists exactly
    /// when a move has been made.
    pub open spec fn wf(self) -> bool {
        &&& self.dims_ok()
        &&& self.gravity_ok()
        &&& self.played == count_occupied(self.cells)
        &&& self.played <= self.rows * self.cols
        &&& (self.played == 0 <==> self.last is None)
        &&& (self.last matches Some(c) ==> 0 <= c < self.cols)
    }

    /// A column with an occupied top cell has no room left.
    pub open spec fn col_full(self, c: int) -> bool {
        self.cell(0, c) is Some
    }

    pub open spec fn is_full(self) -> bool {
        self.played >= self.rows * self.cols
    }

    /// The topmost occupied row of column `c` at or below row `r`
    /// (`self.rows` when every such cell is free).
    pub open spec fn first_occupied_from(self, c: int, r: int) -> int
        decreases self.rows - r,
    {
        if r >= self.rows {
            self.rows
        } else if self.cell(r, c) is Some {
            r
        } else {
            self.first_occupied_from(c, r + 1)
        }
    }

    pub open spec fn first_occupied(self, c: int) -> int {
        self.first_occupied_from(c, 0)
    }

    /// The lowest free row of column `c`: the row just above its topmost
    /// occupied cell (meaningful only when the column is not full).
    pub open spec fn landing_row(self, c: int) -> int {
        self.first_occupied(c) - 1
    }

    /// The board after a successful placement in column `c` by player `p`.
    pub open spec fn after_play(self, c: int, p: Player) -> BoardModel {
        BoardModel {
            cells: self.cells.update(self.idx(self.landing_row(c), c), Some(p)),
            played: self.played + 1,
            last: Some(c),
            ..self
        }
    }

    /// The smallest playable column at or after column `c`
    /// (`self.cols` when every such column is full).
    pub open spec fn first_valid_from(self, c: int) -> int
        decreases self.cols - c,
    {
        if c >= self.cols {
            self.cols
        } else if !self.col_full(c) {
            c
        } else {
            self.first_valid_from(c + 1)
        }
    }

    pub open spec fn first_valid_col(self) -> int {
        self.first_valid_from(0)
    }
}

/// A flat row-major index stays inside the grid.
pub proof fn lemma_idx_bounds(m: BoardModel, r: int, c: int)
    requires
        m.dims_ok(),
        m.in_bounds(r, c),
    ensures
        0 <= m.idx(r, c) < m.cells.len(),
{
    assert(0 <= r * m.cols + c < m.rows * m.cols) by (nonlinear_arith)
        requires
            0 <= r < m.rows,
            0 <= c < m.cols,
    ;
}

/// Distinct in-bounds coordinates have distinct flat indices.
pub proof fn lemma_idx_injective(m: BoardModel, r1: int, c1: int, r2: int, c2: int)
    requires
        m.dims_ok(),
        m.in_bounds(r1, c1),
        m.in_bounds(r2, c2),
        m.idx(r1, c1) == m.idx(r2, c2),
    ensures
        r1 == r2 && c1 == c2,
{
    assert(r1 == r2 && c1 == c2) by (nonlinear_arith)
        requires
            0 <= c1 < m.cols,
            0 <= c2 < m.cols,
            r1 * m.cols + c1 == r2 * m.cols + c2,
    ;
}

pub proof fn lemma_count_occupied_bounds(s: Seq<Option<Player>>)
    ensures
        0 <= count_occupied(s) <= s.len(),
    decreases s.len(),
{
    if s.len() > 0 {
        lemma_count_occupied_bounds(s.drop_last());
    }
}

pub proof fn lemma_count_occupied_all_none(s: Seq<Option<Player>>)
    requires
        forall|i: int| 0 <= i < s.len() ==> s[i] is None,
    ensures
        count_occupied(s) == 0,
    decreases s.len(),
{
    if s.len() > 0 {
        lemma_count_occupied_all_none(s.drop_last());
    }
}

/// Occupying a free cell raises the occupied count by one.
pub proof fn lemma_count_occupied_update(s: Seq<Option<Player>>, i: int, p: Player)
    requires
        0 <= i < s.len(),
        s[i] is None,
    ensures
        count_occupied(s.update(i, Some(p))) == count_occupied(s) + 1,
    decreases s.len(),
{
    let s2 = s.update(i, Some(p));
    if i == s.len() - 1 {
        assert(s2.drop_last() =~= s.drop_last());
    } else {
        assert(s2.drop_last() =~= s.drop_last().update(i, Some(p)));
        lemma_count_occupied_update(s.drop_last(), i, p);
    }
}

/// A grid with a free cell is not fully occupied.
pub proof fn lemma_count_occupied_has_none(s: Seq<Option<Player>>, i: int)
    requires
        0 <= i < s.len(),
        s[i] is None,
    ensures
        count_occupied(s) < s.len(),
    decreases s.len(),
{
    lemma_count_occupied_bounds(s.drop_last());
    if i < s.len() - 1 {
        lemma_count_occupied_has_none(s.drop_last(), i);
    }
}

/// A grid that is not fully occupied has a free cell.
pub proof fn lemma_count_occupied_partial(s: Seq<Option<Player>>)
    requires
        count_occupied(s) < s.len(),
    ensures
        exists|i: int| 0 <= i < s.len() && s[i] is None,
    decreases s.len(),
{
    lemma_count_occupied_bounds(s);
    if s.last() is None {
        assert(s[s.len() - 1] is None);
    } else {
        lemma_count_occupied_partial(s.drop_last());
        let i = choose|i: int| 0 <= i < s.drop_last().len() && s.drop_last()[i] is None;
        assert(s[i] is None);
    }
}

/// Under gravity, everything below an occupied cell is occupied.
pub proof fn lemma_occupied_below(m: BoardModel, c: int, r1: int, r2: int)
    requires
        m.dims_ok(),
        m.gravity_ok(),
        0 <= c < m.cols,
        0 <= r1 <= r2 < m.rows,
        m.cell(r1, c) is Some,
    ensures
        m.cell(r2, c) is Some,
{
}

/// What `first_occupied_from` finds: every cell of the column above it is
/// free, and the row itself is occupied unless the whole column is free.
pub proof fn lemma_first_occupied_from_props(m: BoardModel, c: int, r0: int)
    requires
        m.dims_ok(),
        0 <= c < m.cols,
        0 <= r0 <= m.rows,
    ensures
        r0 <= m.first_occupied_from(c, r0) <= m.rows,
        forall|r: int| r0 <= r < m.first_occupied_from(c, r0) ==> m.cell(r, c) is None,
        m.first_occupied_from(c, r0) < m.rows ==> m.cell(m.first_occupied_from(c, r0), c) is Some,
    decreases m.rows - r0,
{
    if r0 < m.rows && m.cell(r0, c) is None {
        lemma_first_occupied_from_props(m, c, r0 + 1);
    }
}

/// The landing row of a playable column is the lowest free row: it is free,
/// every row below it is occupied, and every row above it is free.
pub proof fn lemma_landing_row(m: BoardModel, c: int)
    requires
        m.dims_ok(),
        m.gravity_ok(),
        0 <= c < m.cols,
        !m.col_full(c),
    ensures
        0 <= m.landing_row(c) < m.rows,
        m.cell(m.landing_row(c), c) is None,
        forall|r: int| m.landing_row(c) < r < m.rows ==> m.cell(r, c) is Some,
        forall|r: int| 0 <= r <= m.landing_row(c) ==> m.cell(r, c) is None,
{
    let f = m.first_occupied(c);
    lemma_first_occupied_from_props(m, c, 0);
    assert(f >= 1) by {
        assert(m.cell(0, c) is None);
    }
    assert forall|r: int| m.landing_row(c) < r < m.rows implies m.cell(r, c) is Some by {
        if r > f {
            lemma_occupied_below(m, c, f, r);
        }
    }
}

/// A board with fewer placements than cells has a playable column.
pub proof fn lemma_not_full_has_valid_move(m: BoardModel)
    requires
        m.wf(),
        !m.is_full(),
    ensures
        exists|c: int| 0 <= c < m.cols && !(#[trigger] m.col_full(c)),
{
    lemma_count_occupied_partial(m.cells);
    let i = choose|i: int| 0 <= i < m.cells.len() && m.cells[i] is None;
    let r = i / m.cols;
    let c = i % m.cols;
    assert(m.in_bounds(r, c) && i == m.idx(r, c)) by (nonlinear_arith)
        requires
            0 <= i < m.rows * m.cols,
            m.cols >= 1,
            r == i / m.cols,
            c == i % m.cols,
    ;
    assert(m.cell(r, c) is None);
    assert(!m.col_full(c)) by {
        if m.cell(0, c) is Some {
            lemma_occupied_below(m, c, 0, r);
        }
    }
}

/// What `first_valid_from` finds: the columns before it are full, and it
/// names a playable column unless every column is full.
pub proof fn lemma_first_valid_from_props(m: BoardModel, c0: int)
    requires
        0 <= c0 <= m.cols,
    ensures
        c0 <= m.first_valid_from(c0) <= m.cols,
        forall|c: int| c0 <= c < m.first_valid_from(c0) ==> m.col_full(c),
        m.first_valid_from(c0) < m.cols ==> !m.col_full(m.first_valid_from(c0)),
    decreases m.cols - c0,
{
    if c0 < m.cols && m.col_full(c0) {
        lemma_first_valid_from_props(m, c0 + 1);
    }
}

/// After a successful placement the board invariant still holds, and the
/// grid differs in exactly the landing cell of the played column.
#[verifier::rlimit(50)]
pub proof fn lemma_after_play_wf(m: BoardModel, c: int, p: Player)
    requires
        m.wf(),
        0 <= c < m.cols,
        !m.col_full(c),
    ensures
        m.after_play(c, p).wf(),
        m.after_play(c, p).rows == m.rows,
        m.after_play(c, p).cols == m.cols,
        m.after_play(c, p).cell(m.landing_row(c), c) == Some::<Player>(p),
        forall|r: int, c2: int|
            m.in_bounds(r, c2) && !(r == m.landing_row(c) && c2 == c)
                ==> m.after_play(c, p).cell(r, c2) == m.cell(r, c2),
{
    let lr = m.landing_row(c);
    let m2 = m.after_play(c, p);
    lemma_landing_row(m, c);
    lemma_idx_bounds(m, lr, c);
    lemma_count_occupied_update(m.cells, m.idx(lr, c), p);
    lemma_count_occupied_bounds(m.cells);
    lemma_count_occupied_bounds(m2.cells);
    assert forall|r: int, c2: int|
        m.in_bounds(r, c2) && !(r == lr && c2 == c) implies m2.cell(r, c2) == m.cell(r, c2) by {
        lemma_idx_bounds(m, r, c2);
        if m.idx(r, c2) == m.idx(lr, c) {
            lemma_idx_injective(m, r, c2, lr, c);
        }
    }
    assert forall|r1: int, r2: int, c2: int|
        m2.in_bounds(r1, c2) && r1 <= r2 < m2.rows && (#[trigger] m2.cell(r1, c2)) is Some
        implies (#[trigger] m2.cell(r2, c2)) is Some by {
        if r1 == lr && c2 == c {
            if r2 > lr {
                assert(m.cell(r2, c) is Some);
                assert(m2.cell(r2, c2) == m.cell(r2, c2));
            }
        } else {
            assert(m2.cell(r1, c2) == m.cell(r1, c2));
            if r2 == lr && c2 == c {
                // every cell at or above the landing row was free
                assert(m.cell(r1, c2) is None);
            } else {
                assert(m.cell(r2, c2) is Some);
                assert(m2.cell(r2, c2) == m.cell(r2, c2));
            }
        }
    }
}

/// The dense board: a grid of cells in row-major order with row 0 at the
/// top, plus the move counter and the column of the latest placement.
pub struct Board {
    pub rows: usize,
    pub cols: usize,
    pub pieces: Vec<Option<Player>>,
    pub played: usize,
    pub last_move: Option<usize>,
}

impl View for Board {
    type V = BoardModel;

    open spec fn view(&self) -> BoardModel {
        BoardModel {
            rows: self.rows as int,
            cols: self.cols as int,
            cells: self.pieces@,
            played: self.played as int,
            last: match self.last_move {
                Some(c) => Some(c as int),
                None => None,
            },
        }
    }
}

impl Board {
    /// A fresh board: every cell absent, no move made yet.
    pub fn new(rows: usize, cols: usize) -> (b: Board)
        requires
            1 <= rows,
            1 <= cols,
            rows * cols <= usize::MAX,
        ensures
            b@.wf(),
            b@.rows == rows,
            b@.cols == cols,
            b@.played == 0,
            b@.last is None,
            forall|i: int| 0 <= i < b@.cells.len() ==> b@.cells[i] is None,
    {
        let n: usize = rows * cols;
        let mut pieces: Vec<Option<Player>> = Vec::with_capacity(n);
        let mut i: usize = 0;
        while i < n
            invariant
                i <= n,
                pieces@.len() == i,
                forall|j: int| 0 <= j < i ==> pieces@[j] is None,
            decreases n - i,
        {
            pieces.push(None);
            i = i + 1;
        }
        let b = Board { rows, cols, pieces, played: 0, last_move: None };
        proof {
            assert forall|r1: int, r2: int, c: int|
                b@.in_bounds(r1, c) && r1 <= r2 < b@.rows && (#[trigger] b@.cell(r1, c)) is Some
                implies (#[trigger] b@.cell(r2, c)) is Some by {
                lemma_idx_bounds(b@, r1, c);
            }
            lemma_count_occupied_all_none(b@.cells);
        }
        b
    }

    fn calc_index(&self, row: usize, col: usize) -> (i: usize)
        requires
            self@.wf(),
            row < self@.rows,
            col < self@.cols,
        ensures
            i == self@.idx(row as int, col as int),
            i < self@.cells.len(),
    {
        let total = self.pieces.len();
        proof {
            lemma_idx_bounds(self@, row as int, col as int);
            assert(self@.cols * (row as int) == (row as int) * self@.cols) by (nonlinear_arith);
            assert(self@.idx(row as int, col as int) < total as int);
        }
        (self.cols * row) + col
    }

    /// The cell at (row, col), or absent for out-of-range coordinates.
    pub fn get_piece_at(&self, row: usize, col: usize) -> (r: Option<Player>)
        requires
            self@.wf(),
        ensures
            r == self@.piece_at(row as int, col as int),
    {
        if row >= self.rows || col >= self.cols {
            return None;
        }
        let i = self.calc_index(row, col);
        self.pieces[i]
    }

    pub fn get_rows(&self) -> (r: usize)
        ensures
            r == self@.rows,
    {
        self.rows
    }

    pub fn get_columns(&self) -> (r: usize)
        ensures
            r == self@.cols,
    {
        self.cols
    }

    pub fn get_pieces(&self) -> (r: &Vec<Option<Player>>)
        ensures
            r@ == self@.cells,
    {
        &self.pieces
    }

    /// The column of the most recent successful placement.
    pub fn get_last_move(&self) -> (r: Option<usize>)
        ensures
            r == self.last_move,
            r is Some <==> self@.last is Some,
            r matches Some(c) ==> self@.last == Some(c as int),
    {
        self.last_move
    }

    /// True once every cell has been filled.
    pub fn is_board_full(&self) -> (r: bool)
        requires
            self@.wf(),
        ensures
            r == self@.is_full(),
    {
        let total = self.pieces.len();
        proof {
            assert(self@.rows * self@.cols == total as int);
        }
        self.played >= self.rows * self.cols
    }

    /// The lowest free row of `col`, or absent when the column is full.
    pub fn find_empty_row_in_column(&self, col: usize) -> (r: Option<usize>)
        requires
            self@.wf(),
            col < self@.cols,
        ensures
            r is Some <==> !self@.col_full(col as int),
            r matches Some(n) ==> n == self@.landing_row(col as int) && n < self@.rows,
    {
        let mut row: usize = 0;
        while row < self.rows
            invariant_except_break
                self@.wf(),
                col < self@.cols,
                row <= self@.rows,
                self@.first_occupied(col as int) == self@.first_occupied_from(
                    col as int,
                    row as int,
                ),
            ensures
                row <= self@.rows,
                self@.first_occupied(col as int) == if row < self@.rows {
                    row as int
                } else {
                    self@.rows
                },
            decreases self.rows - row,
        {
            let i = self.calc_index(row, col);
            if self.pieces[i].is_some() {
                break;
            }
            row = row + 1;
        }
        proof {
            lemma_first_occupied_from_props(self@, col as int, 0);
        }
        if row >= self.rows {
            // the column is entirely free; the piece lands on the bottom row
            return Some(self.rows - 1);
        }
        if row == 0 {
            None
        } else {
            Some(row - 1)
        }
    }

    /// Drop a piece for `p` into `col`.  The piece lands in the lowest free
    /// row of the column; a full column or an out-of-range column leaves the
    /// board unchanged and reports why.
    #[verifier::rlimit(50)]
    pub fn play(&mut self, col: usize, p: Player) -> (r: Result<(), PlayErr>)
        requires
            old(self)@.wf(),
        ensures
            final(self)@.wf(),
            col >= old(self)@.cols ==> r == Err::<(), PlayErr>(PlayErr::OutOfBounds)
                && final(self)@ == old(self)@,
            col < old(self)@.cols && old(self)@.col_full(col as int) ==> r == Err::<(), PlayErr>(
                PlayErr::FullColumn,
            ) && final(self)@ == old(self)@,
            col < old(self)@.cols && !old(self)@.col_full(col as int) ==> r == Ok::<(), PlayErr>(())
                && final(self)@ == old(self)@.after_play(col as int, p),
    {
        if col >= self.cols {
            return Err(PlayErr::OutOfBounds);
        }
        let first_not_empty = self.find_empty_row_in_column(col);
        match first_not_empty {
            Some(n) => {
                let total = self.pieces.len();
                proof {
                    assert(old(self)@.played < total as int) by {
                        lemma_landing_row(old(self)@, col as int);
                        lemma_idx_bounds(old(self)@, n as int, col as int);
                        lemma_count_occupied_has_none(
                            old(self)@.cells,
                            old(self)@.idx(n as int, col as int),
                        );
                    }
                    lemma_after_play_wf(old(self)@, col as int, p);
                }
                self.set_piece_at(n, col, p);
                self.played = self.played + 1;
                self.last_move = Some(col);
                proof {
                    assert(self@ =~= old(self)@.after_play(col as int, p));
                }
                Ok(())
            },
            None => Err(PlayErr::FullColumn),
        }
    }

    fn set_piece_at(&mut self, row: usize, col: usize, player: Player)
        requires
            old(self)@.wf(),
            row < old(self)@.rows,
            col < old(self)@.cols,
        ensures
            final(self).pieces@ == old(self).pieces@.update(
                old(self)@.idx(row as int, col as int),
                Some(player),
            ),
            final(self).rows == old(self).rows,
            final(self).cols == old(self).cols,
            final(self).played == old(self).played,
            final(self).last_move == old(self).last_move,
    {
        let total = self.pieces.len();
        proof {
            lemma_idx_bounds(old(self)@, row as int, col as int);
            assert(self@.cols * (row as int) == (row as int) * self@.cols) by (nonlinear_arith);
            assert(self@.idx(row as int, col as int) < total as int);
        }
        let i = (self.cols * row) + col;
        self.pieces.set(i, Some(player));
    }

    /// The playable columns, in ascending order: exactly those whose top
    /// cell is still absent.
    pub fn get_valid_moves(&self) -> (moves: Vec<usize>)
        requires
            self@.wf(),
        ensures
            forall|i: int|
                0 <= i < moves@.len() ==> (#[trigger] moves@[i]) < self@.cols && self@.piece_at(
                    0,
                    moves@[i] as int,
                ) is None,
            forall|i: int, j: int| 0 <= i < j < moves@.len() ==> moves@[i] < moves@[j],
            forall|c: int|
                0 <= c < self@.cols && self@.piece_at(0, c) is None ==> exists|i: int|
                    0 <= i < moves@.len() && moves@[i] == c,
    {
        let mut moves: Vec<usize> = Vec::new();
        let mut c: usize = 0;
        while c < self.cols
            invariant
                self@.wf(),
                c <= self@.cols,
                forall|i: int|
                    0 <= i < moves@.len() ==> (#[trigger] moves@[i]) < c && self@.piece_at(
                        0,
                        moves@[i] as int,
                    ) is None,
                forall|i: int, j: int| 0 <= i < j < moves@.len() ==> moves@[i] < moves@[j],
                forall|c2: int|
                    0 <= c2 < c && self@.piece_at(0, c2) is None ==> exists|i: int|
                        0 <= i < moves@.len() && moves@[i] == c2,
            decreases self.cols - c,
        {
            let ghost moves0 = moves@;
            let i = self.calc_index(0, c);
            if self.pieces[i].is_none() {
                moves.push(c);
            }
            proof {
                assert forall|c2: int| 0 <= c2 < c + 1 && self@.piece_at(0, c2) is None
                    implies exists|j: int| 0 <= j < moves@.len() && moves@[j] == c2 by {
                    if c2 < c {
                        let j = choose|j: int| 0 <= j < moves0.len() && moves0[j] == c2;
                        assert(moves@[j] == c2);
                    } else {
                        assert(self@.cell(0, c as int) is None);
                        assert(moves@[moves@.len() - 1] == c2);
                    }
                }
            }
            c = c + 1;
        }
        moves
    }
}

impl Clone for Board {
    /// An independent board with the same value.
    fn clone(&self) -> (b: Board)
        ensures
            b@ == self@,
    {
        let mut pieces: Vec<Option<Player>> = Vec::new();
        let mut i: usize = 0;
        while i < self.pieces.len()
            invariant
                i <= self.pieces@.len(),
                pieces@.len() == i,
                forall|j: int| 0 <= j < i ==> pieces@[j] == self.pieces@[j],
            decreases self.pieces.len() - i,
        {
            pieces.push(self.pieces[i]);
            i = i + 1;
        }
        proof {
            assert(pieces@ =~= self.pieces@);
        }
        let b = Board {
            rows: self.rows,
            cols: self.cols,
            pieces,
            played: self.played,
            last_move: self.last_move,
        };
        proof {
            assert(b@ =~= self@);
        }
        b
    }
}

} // verus!
