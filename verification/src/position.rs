//! The game as it looks on the table: seven columns of stacked pieces.
//!
//! Everything here is mathematics. The packed board in `board` is held to
//! this model by its contracts.

use vstd::prelude::*;

verus! {

/// Number of columns of the grid.
pub const COLUMNS: usize = 7;

/// Number of rows of the grid.
pub const ROWS: usize = 6;

/// Number of cells of the grid.
pub const CELLS: usize = 42;

/// Whether `(dc, dr)`, a step of `dc` columns and `dr` rows, is one of the
/// four directions in which a line counts: falling diagonal, rising diagonal,
/// row, column.
pub open spec fn is_direction(dc: int, dr: int) -> bool {
    ||| dc == 1 && dr == -1
    ||| dc == 1 && dr == 1
    ||| dc == 1 && dr == 0
    ||| dc == 0 && dr == 1
}

/// A position of the game. Players are numbered 0 (who moves first) and 1.
pub struct Position {
    /// For each column, left to right, the owners of the pieces stacked in
    /// it, lowest piece first.
    pub columns: Seq<Seq<int>>,
}

impl Position {
    /// The board before the first move.
    pub open spec fn start() -> Position {
        Position { columns: Seq::new(COLUMNS as nat, |c: int| Seq::<int>::empty()) }
    }

    /// Seven columns, none higher than six pieces, every piece owned by
    /// player 0 or player 1.
    pub open spec fn valid(self) -> bool {
        &&& self.columns.len() == COLUMNS
        &&& forall|c: int| 0 <= c < COLUMNS ==> (#[trigger] self.columns[c]).len() <= ROWS
        &&& forall|c: int, r: int|
            0 <= c < COLUMNS && 0 <= r < self.columns[c].len() ==> 0 <= #[trigger] self.columns[c][r]
                <= 1
    }

    /// Number of pieces in column `c`.
    pub open spec fn height(self, c: int) -> nat {
        self.columns[c].len()
    }

    /// Number of pieces on the board.
    pub open spec fn pieces(self) -> nat {
        self.height(0) + self.height(1) + self.height(2) + self.height(3) + self.height(4)
            + self.height(5) + self.height(6)
    }

    /// The player who places the next piece: player 0 when the number of
    /// pieces is even, player 1 when it is odd.
    pub open spec fn to_move(self) -> int {
        (self.pieces() % 2) as int
    }

    /// The player who placed the latest piece. On the empty board this is
    /// player 1, who has no piece yet.
    pub open spec fn last_mover(self) -> int {
        1 - self.to_move()
    }

    /// Whether column `c` has room for another piece.
    pub open spec fn accepts(self, c: int) -> bool {
        self.height(c) < ROWS
    }

    /// Whether every cell holds a piece.
    pub open spec fn full(self) -> bool {
        self.pieces() == CELLS
    }

    /// The position after a drop into column `c` was asked for: the player
    /// to move gets a piece on top of the column, or nothing changes when
    /// the column is full.
    pub open spec fn after_drop(self, c: int) -> Position {
        if self.accepts(c) {
            Position { columns: self.columns.update(c, self.columns[c].push(self.to_move())) }
        } else {
            self
        }
    }

    /// Whether the cell in column `c`, row `r` is on the grid and holds a
    /// piece of `player`.
    pub open spec fn owned(self, player: int, c: int, r: int) -> bool {
        0 <= c < COLUMNS && 0 <= r < self.height(c) && self.columns[c][r] == player
    }

    /// What the cell in column `c`, row `r` shows: 0 when it is empty, 1 for
    /// a piece of player 0, 2 for a piece of player 1.
    pub open spec fn token(self, c: int, r: int) -> int {
        if 0 <= c < COLUMNS && 0 <= r < self.height(c) {
            self.columns[c][r] + 1
        } else {
            0
        }
    }

    /// Whether `player` owns the four cells that start at column `c`, row
    /// `r` and go on by `dc` columns and `dr` rows each.
    pub open spec fn four(self, player: int, c: int, r: int, dc: int, dr: int) -> bool {
        &&& self.owned(player, c, r)
        &&& self.owned(player, c + dc, r + dr)
        &&& self.owned(player, c + 2 * dc, r + 2 * dr)
        &&& self.owned(player, c + 3 * dc, r + 3 * dr)
    }

    /// Whether `player` has four in a line somewhere in the direction
    /// `(dc, dr)`.
    pub open spec fn has_line(self, player: int, dc: int, dr: int) -> bool {
        exists|c: int, r: int| #[trigger] self.four(player, c, r, dc, dr)
    }

    /// Whether `player` has four in a line: falling diagonal, rising
    /// diagonal, row or column.
    pub open spec fn has_four(self, player: int) -> bool {
        ||| self.has_line(player, 1, -1)
        ||| self.has_line(player, 1, 1)
        ||| self.has_line(player, 1, 0)
        ||| self.has_line(player, 0, 1)
    }
}

/// The start position is valid and empty.
pub proof fn lemma_start_valid()
    ensures
        Position::start().valid(),
        Position::start().pieces() == 0,
        forall|c: int| 0 <= c < COLUMNS ==> Position::start().height(c) == 0,
{
}

/// A drop into a column with room adds one piece, owned by the player to
/// move, on top of that column and leaves every other cell as it was. A
/// drop into a full column changes nothing.
pub proof fn lemma_after_drop(p: Position, c: int)
    requires
        p.valid(),
        0 <= c < COLUMNS,
    ensures
        p.after_drop(c).valid(),
        p.accepts(c) ==> p.after_drop(c).height(c) == p.height(c) + 1,
        p.accepts(c) ==> p.after_drop(c).pieces() == p.pieces() + 1,
        p.accepts(c) ==> p.after_drop(c).owned(p.to_move(), c, p.height(c) as int),
        !p.accepts(c) ==> p.after_drop(c) == p,
        forall|d: int| 0 <= d < COLUMNS && d != c ==> p.after_drop(c).height(d) == p.height(d),
        forall|player: int, d: int, r: int|
            p.owned(player, d, r) ==> #[trigger] p.after_drop(c).owned(player, d, r),
{
    let q = p.after_drop(c);
    if p.accepts(c) {
        assert forall|d: int| 0 <= d < COLUMNS implies (#[trigger] q.columns[d]).len() <= ROWS by {
            if d != c {
                assert(q.columns[d] == p.columns[d]);
            }
        }
        assert forall|d: int, r: int| 0 <= d < COLUMNS && 0 <= r < q.columns[d].len() implies 0
            <= #[trigger] q.columns[d][r] <= 1 by {
            if d != c || r < p.height(c) {
                assert(q.columns[d][r] == p.columns[d][r]);
            }
        }
    }
}

/// Each direction counts by itself: four cells in a line in any one of the
/// four directions are four in a line.
pub proof fn lemma_any_line_wins(p: Position, player: int, c: int, r: int, dc: int, dr: int)
    requires
        is_direction(dc, dr),
        p.four(player, c, r, dc, dr),
    ensures
        p.has_line(player, dc, dr),
        p.has_four(player),
{
}

/// A line of four lies on the grid with all its cells: it neither leaves a
/// column at the top to go on at the foot of the next, nor passes the last
/// column.
pub proof fn lemma_line_on_grid(p: Position, player: int, c: int, r: int, dc: int, dr: int)
    requires
        p.valid(),
        p.four(player, c, r, dc, dr),
    ensures
        0 <= c < COLUMNS && 0 <= r < ROWS,
        0 <= c + dc < COLUMNS && 0 <= r + dr < ROWS,
        0 <= c + 2 * dc < COLUMNS && 0 <= r + 2 * dr < ROWS,
        0 <= c + 3 * dc < COLUMNS && 0 <= r + 3 * dr < ROWS,
{
    assert(p.owned(player, c, r));
    assert(p.owned(player, c + dc, r + dr));
    assert(p.owned(player, c + 2 * dc, r + 2 * dr));
    assert(p.owned(player, c + 3 * dc, r + 3 * dr));
}

/// The grid is full exactly when no column has room.
pub proof fn lemma_full_means_no_room(p: Position)
    requires
        p.valid(),
    ensures
        p.pieces() <= CELLS,
        p.full() <==> forall|c: int| 0 <= c < COLUMNS ==> !p.accepts(c),
{
    if p.full() {
        assert(p.columns[0].len() <= ROWS);
        assert(p.columns[1].len() <= ROWS);
        assert(p.columns[2].len() <= ROWS);
        assert(p.columns[3].len() <= ROWS);
        assert(p.columns[4].len() <= ROWS);
        assert(p.columns[5].len() <= ROWS);
        assert(p.columns[6].len() <= ROWS);
    }
    if forall|c: int| 0 <= c < COLUMNS ==> !p.accepts(c) {
        assert(!p.accepts(0) && !p.accepts(1) && !p.accepts(2) && !p.accepts(3) && !p.accepts(4)
            && !p.accepts(5) && !p.accepts(6));
    }
}

} // verus!
