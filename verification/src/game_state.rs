//! The state of a game session and the decision taken each turn.

use crate::player::{Cell, Player};
use crate::turn::{board_fault, distance, piece_fault, playable, precedes, rectangular, Turn, ACTIVE};
use vstd::prelude::*;

verus! {

/// The state of one player's session: the board and the piece of the current
/// turn, and the player's identity.
pub struct GameState {
    grid: Vec<Vec<char>>,
    piece: Vec<Vec<char>>,
    player: Player,
}

/// A place on the board, with the score it was given.
#[derive(Clone, Copy)]
pub struct Position {
    /// The column, counted from the left edge.
    pub x: usize,
    /// The row, counted from the top edge.
    pub y: usize,
    /// The score of a placement with its corner here; 0 where none was
    /// scored.
    pub score: i128,
}

/// The rows of a grid as sequences of markers.
pub open spec fn rows_of(grid: Vec<Vec<char>>) -> Seq<Seq<char>> {
    Seq::new(grid@.len(), |i: int| grid@[i]@)
}

impl View for GameState {
    type V = Turn;

    closed spec fn view(&self) -> Turn {
        Turn { board: rows_of(self.grid), piece: rows_of(self.piece), player: self.player }
    }
}

impl GameState {
    /// Starts a session for `player`, with no board and the empty piece.
    pub fn new(player: Player) -> (state: GameState)
        ensures
            state@ == (Turn { board: Seq::empty(), piece: Seq::empty(), player }),
            state@.well_formed(),
    {
        let state = GameState { grid: Vec::new(), piece: Vec::new(), player };
        assert(state@.board =~= Seq::empty());
        assert(state@.piece =~= Seq::empty());
        state
    }

    /// Takes the rows of the board for this turn, top to bottom, each a row
    /// of markers. Rows that cannot serve as a board are refused, and the
    /// session is then left without a board.
    pub fn read_grid(&mut self, rows: Vec<Vec<char>>) -> (outcome: Result<(), String>)
        requires
            old(self)@.well_formed(),
        ensures
            final(self)@.well_formed(),
            final(self)@.piece == old(self)@.piece,
            final(self)@.player == old(self)@.player,
            outcome is Ok <==> playable(rows_of(rows)),
            match outcome {
                Ok(_) => final(self)@.board == rows_of(rows),
                Err(fault) => final(self)@.board.len() == 0 && board_fault(rows_of(rows)) == Some(
                    fault@,
                ),
            },
    {
        self.grid = Vec::new();
        assert(rows_of(self.grid) =~= Seq::empty());
        if rows.len() == 0 || rows[0].len() == 0 {
            return Err("Grid has no cells".to_owned());
        }
        let width = rows[0].len();
        if !same_lengths(&rows) {
            return Err("Grid rows differ in length".to_owned());
        }
        if width.checked_mul(rows.len()).is_none() {
            return Err("Grid has too many cells".to_owned());
        }
        self.grid = rows;
        Ok(())
    }

    /// Takes the rows of the piece for this turn, top to bottom, each a row
    /// of markers. Rows of different lengths are refused, and the session is
    /// then left with the empty piece.
    pub fn read_piece(&mut self, rows: Vec<Vec<char>>) -> (outcome: Result<(), String>)
        requires
            old(self)@.well_formed(),
        ensures
            final(self)@.well_formed(),
            final(self)@.board == old(self)@.board,
            final(self)@.player == old(self)@.player,
            outcome is Ok <==> rectangular(rows_of(rows)),
            match outcome {
                Ok(_) => final(self)@.piece == rows_of(rows),
                Err(fault) => final(self)@.piece.len() == 0 && piece_fault(rows_of(rows)) == Some(
                    fault@,
                ),
            },
    {
        self.piece = Vec::new();
        assert(rows_of(self.piece) =~= Seq::empty());
        if !same_lengths(&rows) {
            return Err("Piece rows differ in length".to_owned());
        }
        self.piece = rows;
        Ok(())
    }

    /// Decides whether the piece may be placed with its top-left corner at
    /// column `pos.0` of row `pos.1`.
    pub fn is_valid_placement(&self, pos: (usize, usize)) -> (ok: bool)
        ensures
            ok == self@.legal(pos.0 as int, pos.1 as int),
            ok ==> forall|px: int, py: int|
                #![trigger self@.active(px, py)]
                self@.active(px, py) ==> self@.on_board(pos.0 + px, pos.1 + py) && self@.cell(
                    pos.0 + px,
                    pos.1 + py,
                ) != Cell::Opponent,
    {
        let (x, y) = pos;
        let ghost turn = self@;
        let mut attached = false;
        let ghost mut anchor: (int, int) = (0, 0);
        for py in 0..self.piece.len()
            invariant
                turn == self@,
                pos == (x, y),
                forall|qx: int, qy: int|
                    #![trigger turn.active(qx, qy)]
                    turn.active(qx, qy) && qy < py && !(attached && (qx, qy) == anchor)
                        ==> turn.lands_on(x as int, y as int, qx, qy, Cell::Empty),
                attached ==> anchor.1 < py && turn.active(anchor.0, anchor.1) && turn.lands_on(
                    x as int,
                    y as int,
                    anchor.0,
                    anchor.1,
                    Cell::Own,
                ),
        {
            let row = &self.piece[py];
            for px in 0..row.len()
                invariant
                    turn == self@,
                    pos == (x, y),
                    py < self.piece.len(),
                    row == &self.piece[py as int],
                    forall|qx: int, qy: int|
                        #![trigger turn.active(qx, qy)]
                        turn.active(qx, qy) && (qy < py || (qy == py && qx < px)) && !(attached
                            && (qx, qy) == anchor) ==> turn.lands_on(
                            x as int,
                            y as int,
                            qx,
                            qy,
                            Cell::Empty,
                        ),
                    attached ==> (anchor.1 < py || (anchor.1 == py && anchor.0 < px))
                        && turn.active(anchor.0, anchor.1) && turn.lands_on(
                        x as int,
                        y as int,
                        anchor.0,
                        anchor.1,
                        Cell::Own,
                    ),
            {
                if row[px] == ACTIVE {
                    assert(turn.active(px as int, py as int));
                    if y >= self.grid.len() || py >= self.grid.len() - y {
                        proof {
                            turn.lemma_outside_is_illegal(x as int, y as int, px as int, py as int);
                        }
                        return false;
                    }
                    let board_row = &self.grid[y + py];
                    if x >= board_row.len() || px >= board_row.len() - x {
                        proof {
                            turn.lemma_outside_is_illegal(x as int, y as int, px as int, py as int);
                        }
                        return false;
                    }
                    assert(turn.on_board(x + px, y + py));
                    match self.player.classify(board_row[x + px]) {
                        Cell::Empty => {},
                        Cell::Own => {
                            if attached {
                                proof {
                                    turn.lemma_two_overlaps_are_illegal(
                                        x as int,
                                        y as int,
                                        anchor.0,
                                        anchor.1,
                                        px as int,
                                        py as int,
                                    );
                                }
                                return false;
                            }
                            attached = true;
                            proof {
                                anchor = (px as int, py as int);
                            }
                        },
                        _ => {
                            proof {
                                turn.lemma_blocked_is_illegal(
                                    x as int,
                                    y as int,
                                    px as int,
                                    py as int,
                                );
                            }
                            return false;
                        },
                    }
                }
            }
        }
        proof {
            if attached {
                assert(turn.attaches_at(x as int, y as int, anchor.0, anchor.1));
            } else {
                turn.lemma_no_overlap_is_illegal(x as int, y as int);
            }
        }
        attached
    }

    /// Chooses where to place the piece this turn.
    pub fn choose_coordinates(&self) -> (choice: Position)
        requires
            self@.has_board(),
        ensures
            self@.chooses(choice.x as int, choice.y as int, choice.score as int),
            self@.legal(choice.x as int, choice.y as int) <==> exists|x: int, y: int|
                self@.candidate(x, y),
    {
        let ghost turn = self@;
        let center = self.find_opponent_center();
        let height = self.grid.len();
        let width = self.grid[0].len();
        let mut best = Position { x: 0, y: 0, score: 0 };
        let mut found = false;
        for y in 0..height
            invariant
                turn == self@,
                turn.has_board(),
                height == turn.height(),
                width == turn.width(),
                (center.x as int, center.y as int) == turn.opponent_center(),
                center.x < width,
                center.y < height,
                !found ==> best.x == 0 && best.y == 0 && best.score == 0,
                found ==> turn.candidate(best.x as int, best.y as int) && best.score
                    == turn.score(best.x as int, best.y as int) && best.y < y,
                forall|i: int, j: int|
                    #![trigger turn.candidate(i, j)]
                    turn.candidate(i, j) && j < y ==> found && (turn.score(i, j) < best.score || (
                    turn.score(i, j) == best.score && !precedes(
                        i,
                        j,
                        best.x as int,
                        best.y as int,
                    ))),
        {
            for x in 0..width
                invariant
                    turn == self@,
                    turn.has_board(),
                    height == turn.height(),
                    width == turn.width(),
                    y < height,
                    (center.x as int, center.y as int) == turn.opponent_center(),
                    center.x < width,
                    center.y < height,
                    !found ==> best.x == 0 && best.y == 0 && best.score == 0,
                    found ==> turn.candidate(best.x as int, best.y as int) && best.score
                        == turn.score(best.x as int, best.y as int) && precedes(
                        best.x as int,
                        best.y as int,
                        x as int,
                        y as int,
                    ),
                    forall|i: int, j: int|
                        #![trigger turn.candidate(i, j)]
                        turn.candidate(i, j) && precedes(i, j, x as int, y as int) ==> found && (
                        turn.score(i, j) < best.score || (turn.score(i, j) == best.score
                            && !precedes(i, j, best.x as int, best.y as int))),
            {
                if self.is_valid_placement((x, y)) {
                    proof {
                        lemma_distance_fits(
                            x as int,
                            y as int,
                            center.x as int,
                            center.y as int,
                            width as int,
                            height as int,
                        );
                    }
                    let distance = Self::calculate_distance(x, y, center.x, center.y);
                    let surrounding_score = self.calculate_surrounding_score(x, y);
                    let score = surrounding_score as i128 - distance as i128;
                    if !found || score > best.score {
                        best = Position { x, y, score };
                        found = true;
                    }
                }
            }
        }
        proof {
            if !found {
                assert(!turn.candidate(0, 0));
            }
        }
        best
    }

    /// Gives the rows of the board as they are once the piece lies on it with
    /// its top-left corner at column `pos.0` of row `pos.1`.
    pub fn place_piece(&self, pos: (usize, usize)) -> (rows: Vec<Vec<char>>)
        ensures
            rows_of(rows) == self@.with_piece(pos.0 as int, pos.1 as int),
    {
        let (x, y) = pos;
        let ghost turn = self@;
        let markers = self.player.chars();
        let territory = markers[0];
        let mut rows: Vec<Vec<char>> = Vec::new();
        for j in 0..self.grid.len()
            invariant
                turn == self@,
                pos == (x, y),
                territory == turn.player.spec_chars()[0],
                rows.len() == j,
                forall|k: int|
                    0 <= k < j ==> (#[trigger] rows[k])@ == turn.with_piece(x as int, y as int)[k],
        {
            let source = &self.grid[j];
            let mut row: Vec<char> = Vec::new();
            for i in 0..source.len()
                invariant
                    turn == self@,
                    j < self.grid.len(),
                    source == &self.grid[j as int],
                    row.len() == i,
                    forall|k: int|
                        0 <= k < i ==> #[trigger] row[k] == (if turn.active(k - x, j - y) {
                            territory
                        } else {
                            source[k]
                        }),
            {
                let covered = j >= y && i >= x && j - y < self.piece.len() && i - x
                    < self.piece[j - y].len() && self.piece[j - y][i - x] == ACTIVE;
                row.push(
                    if covered {
                        territory
                    } else {
                        source[i]
                    },
                );
            }
            assert(row@ =~= turn.with_piece(x as int, y as int)[j as int]);
            rows.push(row);
        }
        assert(rows_of(rows) =~= turn.with_piece(x as int, y as int));
        rows
    }

    /// Finds the point that scores measure distances to.
    pub fn find_opponent_center(&self) -> (center: Position)
        requires
            self@.has_board(),
        ensures
            (center.x as int, center.y as int) == self@.opponent_center(),
            center.score == 0,
            center.x < self@.width(),
            center.y < self@.height(),
    {
        let ghost turn = self@;
        let height = self.grid.len();
        let width = self.grid[0].len();
        let mut count: usize = 0;
        let mut sum_x: u128 = 0;
        let mut sum_y: u128 = 0;
        for y in 0..height
            invariant
                turn == self@,
                turn.has_board(),
                height == turn.height(),
                width == turn.width(),
                count == turn.opponents_in_rows(y as int),
                sum_x == turn.columns_in_rows(y as int),
                sum_y == turn.row_indices_in_rows(y as int),
                count <= y * width,
                sum_x <= count * (width - 1),
                sum_y <= count * (height - 1),
        {
            let row = &self.grid[y];
            assert(row@ == turn.board[y as int]);
            assert(row.len() == width);
            for x in 0..width
                invariant
                    turn == self@,
                    turn.has_board(),
                    height == turn.height(),
                    width == turn.width(),
                    y < height,
                    row == &self.grid[y as int],
                    row.len() == width,
                    count == turn.opponents_in_rows(y as int) + turn.opponents_in_row(
                        y as int,
                        x as int,
                    ),
                    sum_x == turn.columns_in_rows(y as int) + turn.columns_in_row(
                        y as int,
                        x as int,
                    ),
                    sum_y == turn.row_indices_in_rows(y as int) + y * turn.opponents_in_row(
                        y as int,
                        x as int,
                    ),
                    count <= y * width + x,
                    sum_x <= count * (width - 1),
                    sum_y <= count * (height - 1),
            {
                assert(turn.on_board(x as int, y as int));
                if self.player.classify(row[x]) == Cell::Opponent {
                    proof {
                        lemma_accumulators_fit(
                            count as int,
                            x as int,
                            y as int,
                            width as int,
                            height as int,
                            sum_x as int,
                            sum_y as int,
                        );
                        assert(y * (turn.opponents_in_row(y as int, x as int) + 1) == y
                            * turn.opponents_in_row(y as int, x as int) + y) by (nonlinear_arith);
                    }
                    sum_x += x as u128;
                    sum_y += y as u128;
                    count += 1;
                }
            }
            proof {
                assert((y + 1) * width == y * width + width) by (nonlinear_arith);
            }
        }
        if count == 0 {
            return Position { x: width / 2, y: height / 2, score: 0 };
        }
        proof {
            lemma_mean_is_below(sum_x as int, count as int, width - 1);
            lemma_mean_is_below(sum_y as int, count as int, height - 1);
        }
        Position { x: (sum_x / count as u128) as usize, y: (sum_y / count as u128) as usize, score: 0 }
    }

    /// The Manhattan distance between two points.
    pub fn calculate_distance(x1: usize, y1: usize, x2: usize, y2: usize) -> (d: usize)
        requires
            distance(x1 as int, y1 as int, x2 as int, y2 as int) <= usize::MAX,
        ensures
            d == distance(x1 as int, y1 as int, x2 as int, y2 as int),
    {
        let dx = if x1 > x2 {
            x1 - x2
        } else {
            x2 - x1
        };
        let dy = if y1 > y2 {
            y1 - y2
        } else {
            y2 - y1
        };
        dx + dy
    }

    /// Scores the neighbourhood of `(x, y)`: 10 for each cell of the opponent
    /// among the cell itself and its neighbours on the board.
    pub fn calculate_surrounding_score(&self, x: usize, y: usize) -> (score: i32)
        ensures
            score == self@.surrounding_score(x as int, y as int),
    {
        let ghost turn = self@;
        let mut score: i32 = 0;
        for dy in 0..3usize
            invariant
                turn == self@,
                score == (if dy >= 1 {
                    turn.pressure_in_row(x as int, y - 1)
                } else {
                    0
                }) + (if dy >= 2 {
                    turn.pressure_in_row(x as int, y as int)
                } else {
                    0
                }) + (if dy >= 3 {
                    turn.pressure_in_row(x as int, y + 1)
                } else {
                    0
                }),
        {
            let ghost above = score;
            let new_y = y as i128 + dy as i128 - 1;
            for dx in 0..3usize
                invariant
                    turn == self@,
                    new_y == y + dy - 1,
                    0 <= above <= 60,
                    score == above + (if dx >= 1 {
                        turn.pressure_at(x - 1, new_y as int)
                    } else {
                        0
                    }) + (if dx >= 2 {
                        turn.pressure_at(x as int, new_y as int)
                    } else {
                        0
                    }) + (if dx >= 3 {
                        turn.pressure_at(x + 1, new_y as int)
                    } else {
                        0
                    }),
            {
                let new_x = x as i128 + dx as i128 - 1;
                if new_y >= 0 && new_y < self.grid.len() as i128 {
                    let row = &self.grid[new_y as usize];
                    if new_x >= 0 && new_x < row.len() as i128 {
                        if self.player.classify(row[new_x as usize]) == Cell::Opponent {
                            score += 10;
                        }
                    }
                }
            }
        }
        score
    }
}

/// Tells whether all rows are as long as the first.
fn same_lengths(rows: &Vec<Vec<char>>) -> (same: bool)
    ensures
        same == rectangular(rows_of(*rows)),
{
    for i in 0..rows.len()
        invariant
            forall|j: int| 0 <= j < i ==> (#[trigger] rows_of(*rows)[j]).len() == rows_of(
                *rows,
            )[0].len(),
    {
        if rows[i].len() != rows[0].len() {
            assert(rows_of(*rows)[i as int].len() != rows_of(*rows)[0].len());
            return false;
        }
    }
    true
}

/// Adding one more opponent cell at `(x, y)` keeps the count within a machine
/// word and both index sums within two.
proof fn lemma_accumulators_fit(
    count: int,
    x: int,
    y: int,
    width: int,
    height: int,
    sum_x: int,
    sum_y: int,
)
    requires
        0 <= x < width,
        0 <= y < height,
        width * height <= usize::MAX,
        0 <= count <= y * width + x,
        0 <= sum_x <= count * (width - 1),
        0 <= sum_y <= count * (height - 1),
    ensures
        count + 1 <= usize::MAX,
        sum_x + x <= (count + 1) * (width - 1) <= u128::MAX,
        sum_y + y <= (count + 1) * (height - 1) <= u128::MAX,
{
    assert(y * width + width <= width * height) by (nonlinear_arith)
        requires
            0 <= y < height,
            0 <= width,
    ;
    assert((count + 1) * (width - 1) == count * (width - 1) + (width - 1)) by (nonlinear_arith);
    assert((count + 1) * (height - 1) == count * (height - 1) + (height - 1)) by (nonlinear_arith);
    assert(width <= usize::MAX && height <= usize::MAX) by (nonlinear_arith)
        requires
            width * height <= usize::MAX,
            width >= 1,
            height >= 1,
    ;
    assert((count + 1) * (width - 1) <= 0x1_0000_0000_0000_0000 * 0xffff_ffff_ffff_fffe)
        by (nonlinear_arith)
        requires
            0 <= count + 1 <= 0x1_0000_0000_0000_0000,
            0 <= width - 1 <= 0xffff_ffff_ffff_fffe,
    ;
    assert((count + 1) * (height - 1) <= 0x1_0000_0000_0000_0000 * 0xffff_ffff_ffff_fffe)
        by (nonlinear_arith)
        requires
            0 <= count + 1 <= 0x1_0000_0000_0000_0000,
            0 <= height - 1 <= 0xffff_ffff_ffff_fffe,
    ;
}

/// The mean of `count` values, none above `bound`, is not above `bound`.
proof fn lemma_mean_is_below(sum: int, count: int, bound: int)
    requires
        count > 0,
        0 <= sum <= count * bound,
    ensures
        0 <= sum / count <= bound,
{
    assert(0 <= sum / count <= bound) by (nonlinear_arith)
        requires
            count > 0,
            0 <= sum <= count * bound,
    ;
}

/// The distance between two cells of a board fits in a machine word.
proof fn lemma_distance_fits(x1: int, y1: int, x2: int, y2: int, width: int, height: int)
    requires
        0 <= x1 < width,
        0 <= x2 < width,
        0 <= y1 < height,
        0 <= y2 < height,
        width * height <= usize::MAX,
    ensures
        distance(x1, y1, x2, y2) <= usize::MAX,
{
    assert(width + height - 2 <= width * height) by (nonlinear_arith)
        requires
            width >= 1,
            height >= 1,
    ;
}

} // verus!
