//! The packed board: one 64-bit set per player, seven bits to a column.
//!
//! How the bits of a set map to the grid:
//!
//! ```text
//!   6 13 20 27 34 41 48      padding row, never set
//!   5 12 19 26 33 40 47      top row
//!   4 11 18 25 32 39 46
//!   3 10 17 24 31 38 45
//!   2  9 16 23 30 37 44
//!   1  8 15 22 29 36 43
//!   0  7 14 21 28 35 42      bottom row
//! ```

use vstd::prelude::*;
use crate::bits::bit_at;
use crate::position::{is_direction, Position, CELLS, COLUMNS, ROWS};

verus! {

/// Width of the lane of bits that a column has in a set: its six rows and
/// one padding bit above them.
pub const LANE: usize = 7;

/// The bit that stands for column `c`, row `r`.
pub open spec fn cell_bit(c: int, r: int) -> int {
    LANE * c + r
}

/// How many bits above a cell's bit the bit of the next cell in direction
/// `(dc, dr)` lies: 6 on the falling diagonal, 8 on the rising one, 7 along a
/// row and 1 up a column.
pub open spec fn stride(dc: int, dr: int) -> u64 {
    (LANE * dc + dr) as u64
}

/// A Connect Four game in progress.
#[derive(Clone, Copy, Debug, PartialEq, Eq)]
pub struct Bitboard {
    // One set per player; bit `cell_bit(c, r)` says that the player has a
    // piece in column `c`, row `r`.
    players: [u64; 2],
    // For each column the bit of its lowest free cell. A full column points
    // at its padding bit.
    heights: [u8; 7],
    // Pieces placed so far.
    move_counter: usize,
}

impl View for Bitboard {
    type V = Position;

    /// The position that the board holds. A cell below a column's free cell
    /// belongs to player 1 if player 1's set has its bit, else to player 0.
    open spec fn view(&self) -> Position {
        Position {
            columns: Seq::new(
                COLUMNS as nat,
                |c: int|
                    Seq::new(
                        (self.free_bit(c) - cell_bit(c, 0)) as nat,
                        |r: int|
                            if bit_at(self.player_bits(1), cell_bit(c, r)) {
                                1int
                            } else {
                                0int
                            },
                    ),
            ),
        }
    }
}

impl Bitboard {
    /// The set of `player`, 0 or 1.
    pub closed spec fn player_bits(&self, player: int) -> u64 {
        self.players[player]
    }

    /// The bit of the lowest free cell of column `c`, or of the column's
    /// padding bit when it is full.
    pub closed spec fn free_bit(&self, c: int) -> int {
        self.heights[c] as int
    }

    /// The count of pieces that the board keeps.
    pub closed spec fn moves(&self) -> nat {
        self.move_counter as nat
    }

    /// Whether either player has bit `i`.
    pub open spec fn occupied(&self, i: int) -> bool {
        bit_at(self.player_bits(0), i) || bit_at(self.player_bits(1), i)
    }

    /// What holds of every board in play:
    /// each column's free cell lies in the column's own lane;
    /// the two sets share no bit;
    /// the bits set are those of the cells below the free cells, so none is
    /// a padding bit or lies past the last lane;
    /// the count of moves is the number of pieces.
    pub open spec fn wf(&self) -> bool {
        &&& forall|c: int|
            0 <= c < COLUMNS ==> cell_bit(c, 0) <= #[trigger] self.free_bit(c) <= cell_bit(
                c,
                ROWS as int,
            )
        &&& self.player_bits(0) & self.player_bits(1) == 0
        &&& forall|i: int|
            0 <= i < 64 ==> (#[trigger] self.occupied(i) <==> i / 7 < COLUMNS && i < self.free_bit(
                i / 7,
            ))
        &&& self.moves() == self@.pieces()
    }

    /// A board with no piece on it.
    pub fn new() -> (board: Bitboard)
        ensures
            board.wf(),
            board@ == Position::start(),
            board.player_bits(0) == 0,
            board.player_bits(1) == 0,
            forall|c: int| 0 <= c < COLUMNS ==> board.free_bit(c) == cell_bit(c, 0),
            board.moves() == 0,
    {
        let mut heights: [u8; 7] = [0;7];
        for i in 1..7usize
            invariant
                forall|c: int| 0 <= c < i ==> heights[c] == 7 * c,
                heights[0] == 0,
        {
            heights[i] = i as u8 * 7;
        }
        let board = Bitboard { players: [0;2], heights, move_counter: 0 };
        proof {
            assert forall|i: int| 0 <= i < 64 implies !board.occupied(i) by {
                crate::bits::lemma_zero_has_no_bit(i);
            }
            assert(0u64 & 0u64 == 0) by (bit_vector);
            assert(board@.columns =~~= Position::start().columns);
        }
        board
    }

    /// Pieces placed so far; 42 when the grid is full. The count is even
    /// when player 0 is to move and odd when player 1 is.
    pub fn move_count(&self) -> (n: usize)
        ensures
            n == self.moves(),
            self.wf() ==> n == self@.pieces() && n <= CELLS,
    {
        self.move_counter
    }

    /// The set of `player`, 0 or 1: bit `7 * c + r` is set when the player
    /// has a piece in column `c`, row `r`.
    pub fn bits_of(&self, player: usize) -> (set: u64)
        requires
            player < 2,
        ensures
            set == self.player_bits(player as int),
    {
        self.players[player]
    }

    /// The bit of the lowest free cell of `column`: `7 * column` when the
    /// column is empty, `7 * column + 6` when it is full.
    pub fn next_free(&self, column: usize) -> (bit: u8)
        requires
            column < COLUMNS,
        ensures
            bit == self.free_bit(column as int),
    {
        self.heights[column]
    }

    /// Drops a piece of the player to move into `column`, unless the column
    /// is full. Says whether the piece was placed; when it was not, the
    /// board is as before.
    pub fn drop_piece(&mut self, column: usize) -> (placed: bool)
        requires
            old(self).wf(),
            column < COLUMNS,
        ensures
            final(self).wf(),
            placed == old(self)@.accepts(column as int),
            final(self)@ == old(self)@.after_drop(column as int),
            !placed ==> *final(self) == *old(self),
            placed ==> {
                let mover = old(self)@.to_move();
                let target = old(self).free_bit(column as int);
                &&& final(self).player_bits(mover) == old(self).player_bits(mover) | (1u64 << (
                target as u64))
                &&& final(self).player_bits(1 - mover) == old(self).player_bits(1 - mover)
                &&& final(self).free_bit(column as int) == target + 1
                &&& forall|c: int|
                    0 <= c < COLUMNS && c != column ==> final(self).free_bit(c) == old(
                        self,
                    ).free_bit(c)
                &&& final(self).moves() == old(self).moves() + 1
                &&& final(self)@.owned(
                    (old(self).moves() % 2) as int,
                    column as int,
                    old(self)@.height(column as int) as int,
                )
            },
            forall|c: int|
                0 <= c < COLUMNS ==> old(self).free_bit(c) <= #[trigger] final(self).free_bit(c)
                    <= cell_bit(c, ROWS as int),
    {
        if self.heights[column] == column as u8 * 7 + 6 {
            return false;
        }
        let ghost before = *self;
        let count = self.move_counter;
        let turn = count & 1;
        assert(turn == count % 2) by (bit_vector)
            requires
                turn == count & 1,
        ;
        let place = 1 << self.heights[column];
        self.heights[column] += 1;
        self.players[turn] |= place;
        self.move_counter += 1;
        proof {
            lemma_drop_step(before, *self, column as int);
        }
        true
    }

    /// What the cell in `column`, `row` shows: 0 when it is empty, 1 for a
    /// piece of player 0, 2 for a piece of player 1.
    pub fn cell(&self, column: usize, row: usize) -> (token: u8)
        requires
            self.wf(),
            column < COLUMNS,
            row < ROWS,
        ensures
            token == self@.token(column as int, row as int),
    {
        let index = row + column * 7;
        let first = (self.players[0] >> index) & 1;
        let second = (self.players[1] >> index) & 1;
        proof {
            crate::bits::lemma_read_bit(self.players[0], index as u64);
            crate::bits::lemma_read_bit(self.players[1], index as u64);
            crate::bits::lemma_disjoint_bit(self.players[0], self.players[1], index as int);
            assert(index / 7 == column);
            assert(self.occupied(index as int) <==> index < self.free_bit(column as int));
        }
        (first + second * 2) as u8
    }

    /// Whether the player who placed the latest piece has four in a line.
    /// On a board with no piece the answer is no.
    pub fn check_win(&self) -> (won: bool)
        requires
            self.wf(),
        ensures
            won == self@.has_four(self@.last_mover()),
            self.moves() == 0 ==> !won,
    {
        let count = self.move_counter;
        let turn = count & 1;
        assert(turn == count % 2) by (bit_vector)
            requires
                turn == count & 1,
        ;
        let player = self.players[1 - turn];
        proof {
            let who = self@.last_mover();
            lemma_runs_are_lines(*self, who, 1, -1);
            lemma_runs_are_lines(*self, who, 1, 1);
            lemma_runs_are_lines(*self, who, 1, 0);
            lemma_runs_are_lines(*self, who, 0, 1);
            if self.moves() == 0 {
                assert forall|c: int, r: int, dc: int, dr: int| !self@.four(who, c, r, dc, dr) by {
                    assert(!self@.owned(who, c, r));
                }
            }
        }

        // Falling diagonal: one column on and one row down is 6 bits on.
        if player & (player >> 6) & (player >> 12) & (player >> 18) != 0 {
            return true;
        }
        // Rising diagonal: one column on and one row up is 8 bits on.
        if player & (player >> 8) & (player >> 16) & (player >> 24) != 0 {
            return true;
        }
        // Row: one column on is 7 bits on.
        if player & (player >> 7) & (player >> 14) & (player >> 21) != 0 {
            return true;
        }
        // Column: one row up is 1 bit on.
        if player & (player >> 1) & (player >> 2) & (player >> 3) != 0 {
            return true;
        }
        false
    }
}

/// One piece more: a board that differs from a board in play by the bit of
/// the free cell of a column with room, given to the player to move, by that
/// column's free cell moved up one, and by the count of moves raised by one,
/// is a board in play too, and holds the position after the drop.
pub proof fn lemma_drop_step(before: Bitboard, after: Bitboard, column: int)
    requires
        before.wf(),
        0 <= column < COLUMNS,
        before@.accepts(column),
        after.player_bits(before@.to_move()) == before.player_bits(before@.to_move()) | (1u64 << (
        before.free_bit(column) as u64)),
        after.player_bits(1 - before@.to_move()) == before.player_bits(1 - before@.to_move()),
        after.free_bit(column) == before.free_bit(column) + 1,
        forall|c: int| 0 <= c < COLUMNS && c != column ==> after.free_bit(c) == before.free_bit(c),
        after.moves() == before.moves() + 1,
    ensures
        after.wf(),
        after@ == before@.after_drop(column),
{
    let mover = before@.to_move();
    let target = before.free_bit(column) as u64;
    assert(!before.occupied(target as int));
    assert(after.player_bits(0) & after.player_bits(1) == 0) by {
        crate::bits::lemma_and_commutes(before.player_bits(0), before.player_bits(1));
        crate::bits::lemma_disjoint_after_set(
            before.player_bits(mover),
            before.player_bits(1 - mover),
            target,
        );
    }
    assert forall|i: int| 0 <= i < 64 implies (#[trigger] after.occupied(i) <==> i / 7 < COLUMNS
        && i < after.free_bit(i / 7)) by {
        crate::bits::lemma_bit_after_set(before.player_bits(mover), target, i);
        assert(before.occupied(i) <==> i / 7 < COLUMNS && i < before.free_bit(i / 7));
    }
    let want = before@.after_drop(column);
    assert forall|c: int| 0 <= c < COLUMNS implies #[trigger] after@.columns[c]
        == want.columns[c] by {
        let got = after@.columns[c];
        assert(got.len() == want.columns[c].len());
        assert forall|r: int| 0 <= r < got.len() implies got[r] == want.columns[c][r] by {
            let i = cell_bit(c, r);
            crate::bits::lemma_bit_after_set(before.player_bits(mover), target, i);
            assert(before.occupied(i) <==> i / 7 < COLUMNS && i < before.free_bit(i / 7));
        }
        assert(got =~= want.columns[c]);
    }
    assert(after@.columns =~= want.columns);
}

/// A board in play holds a valid position.
pub proof fn lemma_view_valid(board: Bitboard)
    requires
        board.wf(),
    ensures
        board@.valid(),
{
    assert forall|c: int| 0 <= c < COLUMNS implies (#[trigger] board@.columns[c]).len() <= ROWS by {
        assert(board.free_bit(c) <= cell_bit(c, ROWS as int));
    }
}

/// The two players' sets share no bit.
pub proof fn lemma_sets_disjoint(board: Bitboard, i: int)
    requires
        board.wf(),
    ensures
        board.player_bits(0) & board.player_bits(1) == 0,
        !(bit_at(board.player_bits(0), i) && bit_at(board.player_bits(1), i)),
{
    crate::bits::lemma_disjoint_bit(board.player_bits(0), board.player_bits(1), i);
}

/// No set has a bit that stands for no cell: neither a column's padding bit
/// nor a bit past the last lane.
pub proof fn lemma_padding_clear(board: Bitboard, player: int, i: int)
    requires
        board.wf(),
        0 <= player <= 1,
        i % 7 == ROWS || i >= cell_bit(COLUMNS as int, 0),
    ensures
        !bit_at(board.player_bits(player), i),
{
    if bit_at(board.player_bits(player), i) {
        lemma_bit_is_owned(board, player, i);
    }
}

/// A bit in a player's set stands for a cell of the grid that the player
/// owns.
pub proof fn lemma_bit_is_owned(board: Bitboard, player: int, i: int)
    requires
        board.wf(),
        0 <= player <= 1,
        bit_at(board.player_bits(player), i),
    ensures
        0 <= i / 7 < COLUMNS,
        0 <= i % 7 < ROWS,
        board@.owned(player, i / 7, i % 7),
{
    assert(board.occupied(i));
    crate::bits::lemma_disjoint_bit(board.player_bits(0), board.player_bits(1), i);
    assert(cell_bit(i / 7, i % 7) == i);
}

/// A cell that a player owns has its bit in the player's set.
pub proof fn lemma_owned_is_bit(board: Bitboard, player: int, c: int, r: int)
    requires
        board.wf(),
        0 <= player <= 1,
        board@.owned(player, c, r),
    ensures
        bit_at(board.player_bits(player), cell_bit(c, r)),
{
    let i = cell_bit(c, r);
    assert(i / 7 == c);
    assert(board.occupied(i));
}

/// One step along a line, in bits and in cells: when bit `i` and the bit
/// `stride(dc, dr)` above it both stand for cells, the second cell lies `dc`
/// columns and `dr` rows from the first.
proof fn lemma_step_in_cells(i: int, dc: int, dr: int)
    requires
        is_direction(dc, dr),
        0 <= i,
        i % 7 < ROWS,
        (i + stride(dc, dr)) % 7 < ROWS,
    ensures
        (i + stride(dc, dr)) / 7 == i / 7 + dc,
        (i + stride(dc, dr)) % 7 == i % 7 + dr,
{
}

/// Along a line, in cells and in bits: the cells one, two and three steps
/// of `dc` columns and `dr` rows from a cell have the bits one, two and three
/// times `stride(dc, dr)` above that cell's bit.
proof fn lemma_steps_in_bits(c: int, r: int, dc: int, dr: int)
    requires
        is_direction(dc, dr),
    ensures
        cell_bit(c + dc, r + dr) == cell_bit(c, r) + stride(dc, dr),
        cell_bit(c + 2 * dc, r + 2 * dr) == cell_bit(c, r) + 2 * stride(dc, dr),
        cell_bit(c + 3 * dc, r + 3 * dr) == cell_bit(c, r) + 3 * stride(dc, dr),
{
}

/// The shift test finds what it should: a player's set has a run of four
/// bits, `stride(dc, dr)` apart, exactly when the player owns four cells in
/// a line in direction `(dc, dr)`. The padding bits keep a run from passing
/// from the top of one column into the next.
pub proof fn lemma_runs_are_lines(board: Bitboard, player: int, dc: int, dr: int)
    requires
        board.wf(),
        0 <= player <= 1,
        is_direction(dc, dr),
    ensures
        crate::bits::runs(board.player_bits(player), stride(dc, dr)) != 0 <==> board@.has_line(
            player,
            dc,
            dr,
        ),
{
    let x = board.player_bits(player);
    let s = stride(dc, dr);
    let found = crate::bits::runs(x, s);
    if found != 0 {
        let i = crate::bits::lemma_nonzero_has_bit(found);
        crate::bits::lemma_run_start(x, s, i);
        lemma_bit_is_owned(board, player, i);
        lemma_bit_is_owned(board, player, i + s);
        lemma_bit_is_owned(board, player, i + 2 * s);
        lemma_bit_is_owned(board, player, i + 3 * s);
        lemma_step_in_cells(i, dc, dr);
        lemma_step_in_cells(i + s, dc, dr);
        lemma_step_in_cells(i + 2 * s, dc, dr);
        let c = i / 7;
        let r = i % 7;
        assert(board@.four(player, c, r, dc, dr));
    }
    if board@.has_line(player, dc, dr) {
        let (c, r) = choose|c: int, r: int| #[trigger] board@.four(player, c, r, dc, dr);
        lemma_owned_is_bit(board, player, c, r);
        lemma_owned_is_bit(board, player, c + dc, r + dr);
        lemma_owned_is_bit(board, player, c + 2 * dc, r + 2 * dr);
        lemma_owned_is_bit(board, player, c + 3 * dc, r + 3 * dr);
        lemma_steps_in_bits(c, r, dc, dr);
        let i = cell_bit(c, r);
        crate::bits::lemma_run_start(x, s, i);
        crate::bits::lemma_bit_means_nonzero(found, i);
    }
}

/// A board in play is no more than its position: two boards in play that
/// hold the same position are the same board, bit for bit.
pub proof fn lemma_position_determines_board(a: Bitboard, b: Bitboard)
    requires
        a.wf(),
        b.wf(),
        a@ == b@,
    ensures
        a == b,
{
    assert forall|c: int| 0 <= c < COLUMNS implies a.heights[c] == b.heights[c] by {
        assert(a@.height(c) == b@.height(c));
        assert(a.free_bit(c) == b.free_bit(c));
    }
    assert(a.heights =~= b.heights);
    assert forall|player: int| 0 <= player <= 1 implies a.players[player]
        == b.players[player] by {
        assert forall|i: int| 0 <= i < 64 implies bit_at(a.player_bits(player), i) == bit_at(
            b.player_bits(player),
            i,
        ) by {
            if bit_at(a.player_bits(player), i) {
                lemma_bit_is_owned(a, player, i);
                lemma_owned_is_bit(b, player, i / 7, i % 7);
            }
            if bit_at(b.player_bits(player), i) {
                lemma_bit_is_owned(b, player, i);
                lemma_owned_is_bit(a, player, i / 7, i % 7);
            }
        }
        crate::bits::lemma_same_bits_same_word(a.player_bits(player), b.player_bits(player));
    }
    assert(a.players =~= b.players);
    assert(a.moves() == b.moves());
}

} // verus!
