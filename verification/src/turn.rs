//! The mathematical model of one turn: a board, a piece and the player to
//! move, with the rules that decide which placements are legal.

use crate::player::{Cell, Player};
use vstd::prelude::*;

verus! {

/// The marker of an active piece cell.
pub const ACTIVE: char = 'O';

/// Whether all rows have the length of the first one.
pub open spec fn rectangular(rows: Seq<Seq<char>>) -> bool {
    forall|i: int| 0 <= i < rows.len() ==> (#[trigger] rows[i]).len() == rows[0].len()
}

/// Whether rows can serve as the board of a turn: rectangular, with at least
/// one cell and no more cells than a machine word counts.
pub open spec fn playable(rows: Seq<Seq<char>>) -> bool {
    &&& rows.len() >= 1
    &&& rows[0].len() >= 1
    &&& rectangular(rows)
    &&& rows[0].len() * rows.len() <= usize::MAX
}

/// What is wrong with rows that cannot serve as a board, in words; `None`
/// where nothing is.
pub open spec fn board_fault(rows: Seq<Seq<char>>) -> Option<Seq<char>> {
    if rows.len() == 0 || rows[0].len() == 0 {
        Some("Grid has no cells"@)
    } else if !rectangular(rows) {
        Some("Grid rows differ in length"@)
    } else if rows[0].len() * rows.len() > usize::MAX {
        Some("Grid has too many cells"@)
    } else {
        None
    }
}

/// What is wrong with rows that cannot serve as a piece, in words; `None`
/// where nothing is.
pub open spec fn piece_fault(rows: Seq<Seq<char>>) -> Option<Seq<char>> {
    if !rectangular(rows) {
        Some("Piece rows differ in length"@)
    } else {
        None
    }
}

/// The Manhattan distance between `(x1, y1)` and `(x2, y2)`.
pub open spec fn distance(x1: int, y1: int, x2: int, y2: int) -> int {
    (if x1 > x2 {
        x1 - x2
    } else {
        x2 - x1
    }) + (if y1 > y2 {
        y1 - y2
    } else {
        y2 - y1
    })
}

/// Whether `(x1, y1)` comes before `(x2, y2)` when the board is scanned row
/// by row, each row from left to right.
pub open spec fn precedes(x1: int, y1: int, x2: int, y2: int) -> bool {
    y1 < y2 || (y1 == y2 && x1 < x2)
}

/// One turn as the rules see it.
pub struct Turn {
    /// The rows of the board, top to bottom.
    pub board: Seq<Seq<char>>,
    /// The rows of the piece, top to bottom.
    pub piece: Seq<Seq<char>>,
    /// The player who places the piece.
    pub player: Player,
}

impl Turn {
    /// Whether the board is one that a turn can be played on: rectangular,
    /// with at least one cell and no more cells than a machine word counts.
    pub open spec fn has_board(self) -> bool {
        playable(self.board)
    }

    /// What holds of every session: the board is absent or playable, and the
    /// piece is rectangular.
    pub open spec fn well_formed(self) -> bool {
        &&& self.board.len() == 0 || self.has_board()
        &&& rectangular(self.piece)
    }

    /// The number of rows of the board.
    pub open spec fn height(self) -> int {
        self.board.len() as int
    }

    /// The length of the first row of the board, or 0 if it has no rows.
    pub open spec fn width(self) -> int {
        if self.board.len() == 0 {
            0
        } else {
            self.board[0].len() as int
        }
    }

    /// Whether column `x` of row `y` is a cell of the board.
    pub open spec fn on_board(self, x: int, y: int) -> bool {
        0 <= y < self.board.len() && 0 <= x < self.board[y].len()
    }

    /// What the cell at column `x` of row `y` means to the player.
    pub open spec fn cell(self, x: int, y: int) -> Cell
        recommends
            self.on_board(x, y),
    {
        self.player.spec_classify(self.board[y][x])
    }

    /// Whether column `px` of row `py` of the piece is an active cell.
    pub open spec fn active(self, px: int, py: int) -> bool {
        0 <= py < self.piece.len() && 0 <= px < self.piece[py].len() && self.piece[py][px]
            == ACTIVE
    }

    /// Whether the piece cell `(px, py)`, with the piece's corner at `(x, y)`,
    /// lands on a board cell that means `kind` to the player.
    pub open spec fn lands_on(self, x: int, y: int, px: int, py: int, kind: Cell) -> bool {
        self.on_board(x + px, y + py) && self.cell(x + px, y + py) == kind
    }

    /// Whether the piece, with its corner at `(x, y)`, touches the player's
    /// territory with the active cell `(ax, ay)` and with no other: every
    /// other active cell lands on an empty cell of the board.
    pub open spec fn attaches_at(self, x: int, y: int, ax: int, ay: int) -> bool {
        &&& self.active(ax, ay)
        &&& self.lands_on(x, y, ax, ay, Cell::Own)
        &&& forall|px: int, py: int|
            #![trigger self.active(px, py)]
            self.active(px, py) && (px, py) != (ax, ay) ==> self.lands_on(
                x,
                y,
                px,
                py,
                Cell::Empty,
            )
    }

    /// Whether placing the piece with its corner at `(x, y)` is legal: exactly
    /// one active cell lands on the player's territory and all the others
    /// land on empty cells.
    pub open spec fn legal(self, x: int, y: int) -> bool {
        exists|ax: int, ay: int| self.attaches_at(x, y, ax, ay)
    }

    /// Whether column `x` of row `y` is a cell of the board that the opponent
    /// owns.
    pub open spec fn opponent_at(self, x: int, y: int) -> bool {
        self.on_board(x, y) && self.cell(x, y) == Cell::Opponent
    }

    /// The number of opponent cells among the first `n` cells of row `y`.
    pub open spec fn opponents_in_row(self, y: int, n: int) -> int
        decreases n,
    {
        if n <= 0 {
            0
        } else {
            self.opponents_in_row(y, n - 1) + if self.opponent_at(n - 1, y) {
                1int
            } else {
                0int
            }
        }
    }

    /// The sum of the column indices of those cells.
    pub open spec fn columns_in_row(self, y: int, n: int) -> int
        decreases n,
    {
        if n <= 0 {
            0
        } else {
            self.columns_in_row(y, n - 1) + if self.opponent_at(n - 1, y) {
                n - 1
            } else {
                0int
            }
        }
    }

    /// The number of opponent cells in the first `m` rows.
    pub open spec fn opponents_in_rows(self, m: int) -> int
        decreases m,
    {
        if m <= 0 {
            0
        } else {
            self.opponents_in_rows(m - 1) + self.opponents_in_row(
                m - 1,
                self.board[m - 1].len() as int,
            )
        }
    }

    /// The sum of the column indices of the opponent cells in the first `m`
    /// rows.
    pub open spec fn columns_in_rows(self, m: int) -> int
        decreases m,
    {
        if m <= 0 {
            0
        } else {
            self.columns_in_rows(m - 1) + self.columns_in_row(
                m - 1,
                self.board[m - 1].len() as int,
            )
        }
    }

    /// The sum of the row indices of the opponent cells in the first `m`
    /// rows.
    pub open spec fn row_indices_in_rows(self, m: int) -> int
        decreases m,
    {
        if m <= 0 {
            0
        } else {
            self.row_indices_in_rows(m - 1) + (m - 1) * self.opponents_in_row(
                m - 1,
                self.board[m - 1].len() as int,
            )
        }
    }

    /// The number of opponent cells on the board.
    pub open spec fn opponent_count(self) -> int {
        self.opponents_in_rows(self.height())
    }

    /// The point that the score measures distances to: the mean column and
    /// the mean row of the opponent's cells, each rounded down, or the middle
    /// of the board where the opponent has no cell.
    pub open spec fn opponent_center(self) -> (int, int) {
        let n = self.opponent_count();
        if n == 0 {
            (self.width() / 2, self.height() / 2)
        } else {
            (
                self.columns_in_rows(self.height()) / n,
                self.row_indices_in_rows(self.height()) / n,
            )
        }
    }

    /// 10 if the opponent owns the cell at column `x` of row `y`, else 0.
    pub open spec fn pressure_at(self, x: int, y: int) -> int {
        if self.opponent_at(x, y) {
            10
        } else {
            0
        }
    }

    /// The pressure of the cells at columns `x - 1`, `x` and `x + 1` of row
    /// `y`.
    pub open spec fn pressure_in_row(self, x: int, y: int) -> int {
        self.pressure_at(x - 1, y) + self.pressure_at(x, y) + self.pressure_at(x + 1, y)
    }

    /// 10 for each opponent cell among `(x, y)` and its up to eight
    /// neighbours on the board.
    pub open spec fn surrounding_score(self, x: int, y: int) -> int {
        self.pressure_in_row(x, y - 1) + self.pressure_in_row(x, y) + self.pressure_in_row(
            x,
            y + 1,
        )
    }

    /// The score of a placement with the piece's corner at `(x, y)`: higher
    /// is better.
    pub open spec fn score(self, x: int, y: int) -> int {
        let center = self.opponent_center();
        self.surrounding_score(x, y) - distance(x, y, center.0, center.1)
    }

    /// Whether `(x, y)` is a corner that a turn may answer with: a cell
    /// within the height and the width of the board where placing the piece
    /// is legal.
    pub open spec fn candidate(self, x: int, y: int) -> bool {
        0 <= y < self.height() && 0 <= x < self.width() && self.legal(x, y)
    }

    /// Whether `(x, y)` is the best candidate: none scores higher, and none
    /// that scores as high comes before it when the board is scanned row by
    /// row.
    pub open spec fn best(self, x: int, y: int) -> bool {
        &&& self.candidate(x, y)
        &&& forall|i: int, j: int|
            #![trigger self.candidate(i, j)]
            self.candidate(i, j) ==> self.score(i, j) < self.score(x, y) || (self.score(i, j)
                == self.score(x, y) && !precedes(i, j, x, y))
    }

    /// Whether a turn answers with the corner `(x, y)` and the score `score`:
    /// the best candidate with its score, or `(0, 0)` with score 0 where no
    /// placement is legal.
    pub open spec fn chooses(self, x: int, y: int, score: int) -> bool {
        if exists|i: int, j: int| self.candidate(i, j) {
            self.best(x, y) && score == self.score(x, y)
        } else {
            x == 0 && y == 0 && score == 0
        }
    }

    /// The rows of the board once the piece lies on it with its corner at
    /// `(x, y)`: a cell under an active cell of the piece holds the player's
    /// territory marker, any other cell holds what it held. Cells of the
    /// piece beyond the board are lost.
    pub open spec fn with_piece(self, x: int, y: int) -> Seq<Seq<char>> {
        Seq::new(
            self.board.len(),
            |j: int|
                Seq::new(
                    self.board[j].len(),
                    |i: int|
                        if self.active(i - x, j - y) {
                            self.player.spec_chars()[0]
                        } else {
                            self.board[j][i]
                        },
                ),
        )
    }

    /// A placement is illegal as soon as one active cell of the piece lands
    /// outside the board.
    pub proof fn lemma_outside_is_illegal(self, x: int, y: int, px: int, py: int)
        requires
            self.active(px, py),
            !self.on_board(x + px, y + py),
        ensures
            !self.legal(x, y),
    {
    }

    /// A placement is illegal as soon as one active cell of the piece lands on
    /// a cell of the opponent, whatever the other cells land on.
    pub proof fn lemma_opponent_is_illegal(self, x: int, y: int, px: int, py: int)
        requires
            self.active(px, py),
            self.lands_on(x, y, px, py, Cell::Opponent),
        ensures
            !self.legal(x, y),
    {
    }

    /// A placement is illegal as soon as one active cell of the piece lands on
    /// a marker that is neither empty nor the player's.
    pub proof fn lemma_blocked_is_illegal(self, x: int, y: int, px: int, py: int)
        requires
            self.active(px, py),
            !self.lands_on(x, y, px, py, Cell::Empty),
            !self.lands_on(x, y, px, py, Cell::Own),
        ensures
            !self.legal(x, y),
    {
    }

    /// A placement is illegal as soon as two active cells of the piece land on
    /// the player's territory.
    pub proof fn lemma_two_overlaps_are_illegal(
        self,
        x: int,
        y: int,
        ax: int,
        ay: int,
        bx: int,
        by: int,
    )
        requires
            self.active(ax, ay),
            self.active(bx, by),
            (ax, ay) != (bx, by),
            self.lands_on(x, y, ax, ay, Cell::Own),
            self.lands_on(x, y, bx, by, Cell::Own),
        ensures
            !self.legal(x, y),
    {
    }

    /// A placement is illegal when no active cell of the piece lands on the
    /// player's territory.
    pub proof fn lemma_no_overlap_is_illegal(self, x: int, y: int)
        requires
            forall|px: int, py: int|
                #![trigger self.active(px, py)]
                self.active(px, py) ==> !self.lands_on(x, y, px, py, Cell::Own),
        ensures
            !self.legal(x, y),
    {
    }

    /// Where some placement on the board is legal, the answer of a turn is a
    /// legal placement on the board.
    pub proof fn lemma_choice_is_legal(self, x: int, y: int, score: int)
        requires
            self.chooses(x, y, score),
            exists|i: int, j: int| self.candidate(i, j),
        ensures
            self.legal(x, y),
            self.candidate(x, y),
    {
    }

    /// No legal placement on the board scores higher than the answer of a
    /// turn.
    pub proof fn lemma_choice_is_highest(self, x: int, y: int, score: int, i: int, j: int)
        requires
            self.chooses(x, y, score),
            self.candidate(i, j),
        ensures
            self.score(i, j) <= score,
    {
    }

    /// A turn has one answer: whatever answers twice, answers the same, so
    /// asking again for the same board, piece and player changes nothing.
    pub proof fn lemma_choice_is_unique(
        self,
        x1: int,
        y1: int,
        score1: int,
        x2: int,
        y2: int,
        score2: int,
    )
        requires
            self.chooses(x1, y1, score1),
            self.chooses(x2, y2, score2),
        ensures
            x1 == x2,
            y1 == y2,
            score1 == score2,
    {
    }

    /// Of two legal placements that both reach the highest score, a turn
    /// never answers with the one that the row-by-row scan meets second.
    pub proof fn lemma_ties_go_to_the_first(
        self,
        x: int,
        y: int,
        score: int,
        x1: int,
        y1: int,
        x2: int,
        y2: int,
    )
        requires
            self.chooses(x, y, score),
            self.candidate(x1, y1),
            self.candidate(x2, y2),
            precedes(x1, y1, x2, y2),
            self.score(x1, y1) == self.score(x2, y2),
            forall|i: int, j: int|
                #![trigger self.candidate(i, j)]
                self.candidate(i, j) ==> self.score(i, j) <= self.score(x1, y1),
        ensures
            (x, y) != (x2, y2),
    {
    }
}

} // verus!
