//! The board as text: a bordered grid, 23 characters wide, with the columns
//! numbered 1 to 7 above it and the top row first.

use vstd::prelude::*;
use vstd::string::*;
use crate::board::Bitboard;
use crate::position::{Position, COLUMNS, ROWS};

verus! {

impl Position {
    /// How a cell is written: its token between two spaces.
    pub open spec fn cell_text(self, c: int, r: int) -> Seq<char> {
        if self.token(c, r) == 0 {
            " 0 "@
        } else if self.token(c, r) == 1 {
            " 1 "@
        } else {
            " 2 "@
        }
    }

    /// Row `r` from its left border up to and without the cell of column
    /// `n`.
    pub open spec fn row_start(self, r: int, n: nat) -> Seq<char>
        decreases n,
    {
        if n == 0 {
            "│"@
        } else {
            self.row_start(r, (n - 1) as nat) + self.cell_text(n - 1, r)
        }
    }

    /// Row `r` as a line of text: border, seven cells, border, line end.
    pub open spec fn row_text(self, r: int) -> Seq<char> {
        self.row_start(r, COLUMNS as nat) + "│\n"@
    }

    /// The text from its first line down to and with the `n`-th row from
    /// the top.
    pub open spec fn text_start(self, n: nat) -> Seq<char>
        decreases n,
    {
        if n == 0 {
            "╭ 1  2  3  4  5  6  7 ╮\n"@ + "├─────────────────────┤\n"@
        } else {
            self.text_start((n - 1) as nat) + self.row_text(ROWS - n)
        }
    }

    /// The whole text: the column numbers, a rule, the six rows from the
    /// top row down, and the lower border, which no line end follows.
    pub open spec fn text(self) -> Seq<char> {
        self.text_start(ROWS as nat) + "╰─────────────────────╯"@
    }
}

impl Bitboard {
    /// The board as text for a person to read.
    pub fn render(&self) -> (text: String)
        requires
            self.wf(),
        ensures
            text@ == self@.text(),
    {
        let mut text = String::new();
        text.append("╭ 1  2  3  4  5  6  7 ╮\n");
        text.append("├─────────────────────┤\n");
        assert(text@ =~= self@.text_start(0));
        let mut row: usize = ROWS;
        while row > 0
            invariant
                self.wf(),
                row <= ROWS,
                text@ == self@.text_start((ROWS - row) as nat),
            decreases row,
        {
            let ghost above = text@;
            row -= 1;
            text.append("│");
            for column in 0..COLUMNS
                invariant
                    self.wf(),
                    row < ROWS,
                    text@ == above + self@.row_start(row as int, column as nat),
            {
                let ghost left = self@.row_start(row as int, column as nat);
                let token = self.cell(column, row);
                if token == 0 {
                    text.append(" 0 ");
                } else if token == 1 {
                    text.append(" 1 ");
                } else {
                    text.append(" 2 ");
                }
                assert(text@ =~= above + (left + self@.cell_text(column as int, row as int)));
            }
            text.append("│\n");
            assert(text@ =~= above + self@.row_text(row as int));
        }
        text.append("╰─────────────────────╯");
        text
    }
}

} // verus!
