//! Line enumeration: every board is scanned along four families of
//! cell-lines (rows, columns, and the two diagonal directions), produced
//! here by one parameterized generator over the index formulas.

use vstd::prelude::*;

use crate::board::{lemma_idx_bounds, Board, BoardModel, Player};

verus! {

/// The four families of cell-lines a board is scanned along: one line per
/// row, one per column, and one per diagonal of each diagonal direction.
#[derive(Debug, PartialEq, Eq, Structural, Clone, Copy)]
pub enum LineFamily {
    Rows,
    Cols,
    MainDiagonals,
    SecondaryDiagonals,
}

/// First column touched by diagonal `d` (both diagonal families share it).
pub open spec fn diag_q_start(m: BoardModel, d: int) -> int {
    if d + 1 - m.rows > 0 {
        d + 1 - m.rows
    } else {
        0
    }
}

/// One past the last column touched by diagonal `d`.
pub open spec fn diag_q_end(m: BoardModel, d: int) -> int {
    if d + 1 < m.cols {
        d + 1
    } else {
        m.cols
    }
}

/// How many lines the family has on board `m`.
pub open spec fn line_count(m: BoardModel, fam: LineFamily) -> int {
    match fam {
        LineFamily::Rows => m.rows,
        LineFamily::Cols => m.cols,
        LineFamily::MainDiagonals => m.rows + m.cols - 1,
        LineFamily::SecondaryDiagonals => m.rows + m.cols - 1,
    }
}

/// How many cells line `d` of the family has.
pub open spec fn line_len(m: BoardModel, fam: LineFamily, d: int) -> int {
    match fam {
        LineFamily::Rows => m.cols,
        LineFamily::Cols => m.rows,
        LineFamily::MainDiagonals => diag_q_end(m, d) - diag_q_start(m, d),
        LineFamily::SecondaryDiagonals => diag_q_end(m, d) - diag_q_start(m, d),
    }
}

/// The board row holding cell `j` of line `d`.  Main diagonals run from the
/// bottom-left corner's diagonal up to the top-right corner's; secondary
/// diagonals run from the top-left corner's down to the bottom-right's.
pub open spec fn line_row(m: BoardModel, fam: LineFamily, d: int, j: int) -> int {
    match fam {
        LineFamily::Rows => d,
        LineFamily::Cols => j,
        LineFamily::MainDiagonals => m.rows + (diag_q_start(m, d) + j) - 1 - d,
        LineFamily::SecondaryDiagonals => d - (diag_q_start(m, d) + j),
    }
}

/// The board column holding cell `j` of line `d`.
pub open spec fn line_col(m: BoardModel, fam: LineFamily, d: int, j: int) -> int {
    match fam {
        LineFamily::Rows => j,
        LineFamily::Cols => d,
        LineFamily::MainDiagonals => diag_q_start(m, d) + j,
        LineFamily::SecondaryDiagonals => diag_q_start(m, d) + j,
    }
}

pub open spec fn line_cell_at(m: BoardModel, fam: LineFamily, d: int, j: int) -> Option<Player> {
    m.cell(line_row(m, fam, d, j), line_col(m, fam, d, j))
}

/// Line `d` of the family, as the sequence of its cells.
pub open spec fn line_spec(m: BoardModel, fam: LineFamily, d: int) -> Seq<Option<Player>> {
    Seq::new(line_len(m, fam, d) as nat, |j: int| line_cell_at(m, fam, d, j))
}

/// Every cell of a valid line lies on the board, and the line is never
/// longer than either board dimension allows.
pub proof fn lemma_line_geometry(m: BoardModel, fam: LineFamily, d: int, j: int)
    requires
        m.dims_ok(),
        0 <= d < line_count(m, fam),
        0 <= j < line_len(m, fam, d),
    ensures
        m.in_bounds(line_row(m, fam, d, j), line_col(m, fam, d, j)),
{
}

/// A valid line is at most as long as the board's larger dimension.
pub proof fn lemma_line_len_bounds(m: BoardModel, fam: LineFamily, d: int)
    requires
        m.dims_ok(),
        0 <= d < line_count(m, fam),
    ensures
        0 <= line_len(m, fam, d),
        line_len(m, fam, d) <= m.rows || line_len(m, fam, d) <= m.cols,
{
}

impl Board {
    /// Builds one line of cells by the family's index formulas.
    #[verifier::loop_isolation(false)]
    fn line_cells(&self, family: LineFamily, d: usize) -> (line: Vec<Option<Player>>)
        requires
            self@.wf(),
            (d as int) < line_count(self@, family),
        ensures
            line@ == line_spec(self@, family, d as int),
    {
        let total = self.pieces.len();
        proof {
            assert(self@.rows + self@.cols - 1 <= total as int) by (nonlinear_arith)
                requires
                    1 <= self@.rows,
                    1 <= self@.cols,
                    total as int == self@.rows * self@.cols,
            ;
        }
        let mut line: Vec<Option<Player>> = Vec::new();
        match family {
            LineFamily::Rows => {
                let mut q: usize = 0;
                while q < self.cols
                    invariant
                        self@.wf(),
                        (d as int) < self@.rows,
                        q <= self@.cols,
                        line@.len() == q,
                        forall|j: int|
                            0 <= j < q ==> line@[j] == line_cell_at(
                                self@,
                                LineFamily::Rows,
                                d as int,
                                j,
                            ),
                    decreases self.cols - q,
                {
                    let p = self.get_piece_at(d, q);
                    proof {
                        lemma_line_geometry(self@, LineFamily::Rows, d as int, q as int);
                    }
                    line.push(p);
                    q = q + 1;
                }
            },
            LineFamily::Cols => {
                let mut q: usize = 0;
                while q < self.rows
                    invariant
                        self@.wf(),
                        (d as int) < self@.cols,
                        q <= self@.rows,
                        line@.len() == q,
                        forall|j: int|
                            0 <= j < q ==> line@[j] == line_cell_at(
                                self@,
                                LineFamily::Cols,
                                d as int,
                                j,
                            ),
                    decreases self.rows - q,
                {
                    let p = self.get_piece_at(q, d);
                    proof {
                        lemma_line_geometry(self@, LineFamily::Cols, d as int, q as int);
                    }
                    line.push(p);
                    q = q + 1;
                }
            },
            LineFamily::MainDiagonals => {
                let q0: usize = if d + 1 > self.rows {
                    d + 1 - self.rows
                } else {
                    0
                };
                let q1: usize = if d + 1 < self.cols {
                    d + 1
                } else {
                    self.cols
                };
                let mut q: usize = q0;
                while q < q1
                    invariant
                        self@.wf(),
                        (d as int) < line_count(self@, LineFamily::MainDiagonals),
                        q0 == diag_q_start(self@, d as int),
                        q1 == diag_q_end(self@, d as int),
                        q0 <= q <= q1,
                        line@.len() == q - q0,
                        forall|j: int|
                            0 <= j < q - q0 ==> line@[j] == line_cell_at(
                                self@,
                                LineFamily::MainDiagonals,
                                d as int,
                                j,
                            ),
                    decreases q1 - q,
                {
                    proof {
                        lemma_line_geometry(
                            self@,
                            LineFamily::MainDiagonals,
                            d as int,
                            (q - q0) as int,
                        );
                    }
                    let row = self.rows + q - 1 - d;
                    let p = self.get_piece_at(row, q);
                    line.push(p);
                    q = q + 1;
                }
            },
            LineFamily::SecondaryDiagonals => {
                let q0: usize = if d + 1 > self.rows {
                    d + 1 - self.rows
                } else {
                    0
                };
                let q1: usize = if d + 1 < self.cols {
                    d + 1
                } else {
                    self.cols
                };
                let mut q: usize = q0;
                while q < q1
                    invariant
                        self@.wf(),
                        (d as int) < line_count(self@, LineFamily::SecondaryDiagonals),
                        q0 == diag_q_start(self@, d as int),
                        q1 == diag_q_end(self@, d as int),
                        q0 <= q <= q1,
                        line@.len() == q - q0,
                        forall|j: int|
                            0 <= j < q - q0 ==> line@[j] == line_cell_at(
                                self@,
                                LineFamily::SecondaryDiagonals,
                                d as int,
                                j,
                            ),
                    decreases q1 - q,
                {
                    proof {
                        lemma_line_geometry(
                            self@,
                            LineFamily::SecondaryDiagonals,
                            d as int,
                            (q - q0) as int,
                        );
                    }
                    let row = d - q;
                    let p = self.get_piece_at(row, q);
                    line.push(p);
                    q = q + 1;
                }
            },
        }
        proof {
            assert(line@ =~= line_spec(self@, family, d as int));
        }
        line
    }
}

/// All lines of one family, in the family's order: rows top to bottom,
/// columns left to right, diagonals from the first of the family onwards.
pub fn get_lines(board: &Board, family: LineFamily) -> (lines: Vec<Vec<Option<Player>>>)
    requires
        board@.wf(),
    ensures
        lines@.len() == line_count(board@, family),
        forall|d: int|
            0 <= d < lines@.len() ==> (#[trigger] lines@[d])@ == line_spec(board@, family, d),
{
    let n: usize = match family {
        LineFamily::Rows => board.get_rows(),
        LineFamily::Cols => board.get_columns(),
        LineFamily::MainDiagonals => diag_count(board),
        LineFamily::SecondaryDiagonals => diag_count(board),
    };
    let mut lines: Vec<Vec<Option<Player>>> = Vec::new();
    let mut d: usize = 0;
    while d < n
        invariant
            board@.wf(),
            n == line_count(board@, family),
            d <= n,
            lines@.len() == d,
            forall|k: int|
                0 <= k < d ==> (#[trigger] lines@[k])@ == line_spec(board@, family, k),
        decreases n - d,
    {
        let line = board.line_cells(family, d);
        lines.push(line);
        d = d + 1;
    }
    lines
}

/// How many diagonals each diagonal family has: one per cell of the left
/// column plus one per cell of the top row, sharing the corner.
fn diag_count(board: &Board) -> (n: usize)
    requires
        board@.wf(),
    ensures
        n == board@.rows + board@.cols - 1,
{
    let total = board.get_pieces().len();
    proof {
        assert(board@.rows + board@.cols - 1 <= total as int) by (nonlinear_arith)
            requires
                1 <= board@.rows,
                1 <= board@.cols,
                total as int == board@.rows * board@.cols,
        ;
    }
    (board.rows - 1) + board.cols
}

} // verus!
