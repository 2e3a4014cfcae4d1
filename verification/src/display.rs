//! The text of the board: rows, the indentation of odd rows, and each
//! cell's label (its colour is the owner's, applied by the program).
use vstd::prelude::*;

use crate::constants::{col, location_to_x, location_to_y, row, GRID_SIZE, X_MAX, Y_MAX};
use crate::game::Game;
use crate::grid::Grid;
use crate::text::{digits_value, is_digit, parsed_unsigned};

verus! {

/// The character of a decimal digit.
pub open spec fn digit_char(d: int) -> char {
    if d == 0 {
        '0'
    } else if d == 1 {
        '1'
    } else if d == 2 {
        '2'
    } else if d == 3 {
        '3'
    } else if d == 4 {
        '4'
    } else if d == 5 {
        '5'
    } else if d == 6 {
        '6'
    } else if d == 7 {
        '7'
    } else if d == 8 {
        '8'
    } else {
        '9'
    }
}

/// The decimal text of a byte, without leading zeros.
pub open spec fn decimal_u8(v: u8) -> Seq<char> {
    if v < 10 {
        seq![digit_char(v as int)]
    } else if v < 100 {
        seq![digit_char(v as int / 10), digit_char(v as int % 10)]
    } else {
        seq![digit_char(v as int / 100), digit_char((v as int / 10) % 10), digit_char(v as int % 10)]
    }
}

/// The label of a cell: `P` and the value, on at least two digits, for an
/// owned cell; ` X ` for a hole; ` · ` for a free cell.
pub open spec fn tile_text(taken: bool, owner: u8, value: u8) -> Seq<char> {
    if owner > 0 {
        if value < 10 {
            seq!['P', '0'] + decimal_u8(value)
        } else {
            seq!['P'] + decimal_u8(value)
        }
    } else if taken && owner == 0 {
        seq![' ', 'X', ' ']
    } else {
        seq![' ', '·', ' ']
    }
}

/// Each digit character is `'0'` moved on by the digit: its code, less that
/// of `'0'`, is the digit itself.
pub proof fn lemma_digit_char_code(d: int)
    requires
        0 <= d < 10,
    ensures
        digit_char(d) as int == '0' as int + d,
        is_digit(digit_char(d)),
{
}

/// The label of an owned cell is `P` followed by at least two decimal digits
/// that read back as the cell's value.
pub proof fn lemma_owned_label_reads_value(taken: bool, owner: u8, value: u8)
    requires
        owner > 0,
    ensures
        tile_text(taken, owner, value).len() >= 3,
        tile_text(taken, owner, value)[0] == 'P',
        parsed_unsigned(tile_text(taken, owner, value).drop_first(), u8::MAX as int) == Some(value as int),
{
    let t = tile_text(taken, owner, value);
    let d = t.drop_first();
    let v = value as int;
    lemma_digit_char_code(v % 10);
    lemma_digit_char_code((v / 10) % 10);
    lemma_digit_char_code(v / 100);
    if v < 10 {
        lemma_digit_char_code(v);
        lemma_digit_char_code(0);
        assert(d =~= seq!['0', digit_char(v)]);
        assert(d.drop_last() =~= seq!['0']);
        assert(seq!['0'].drop_last() =~= Seq::<char>::empty());
        let z = seq!['0'];
        assert(z.last() == '0');
        assert(digits_value(Seq::<char>::empty()) == 0);
        assert(digits_value(z) == 0);
        assert(digits_value(d) == v);
    } else if v < 100 {
        lemma_digit_char_code(v / 10);
        assert(d =~= seq![digit_char(v / 10), digit_char(v % 10)]);
        assert(d.drop_last() =~= seq![digit_char(v / 10)]);
        assert(seq![digit_char(v / 10)].drop_last() =~= Seq::<char>::empty());
        let h = seq![digit_char(v / 10)];
        assert(h.last() == digit_char(v / 10));
        assert(digits_value(Seq::<char>::empty()) == 0);
        assert(digits_value(h) == v / 10);
        assert(digits_value(d) == (v / 10) * 10 + v % 10);
    } else {
        assert(d =~= seq![digit_char(v / 100), digit_char((v / 10) % 10), digit_char(v % 10)]);
        assert(d.drop_last() =~= seq![digit_char(v / 100), digit_char((v / 10) % 10)]);
        assert(d.drop_last().drop_last() =~= seq![digit_char(v / 100)]);
        assert(seq![digit_char(v / 100)].drop_last() =~= Seq::<char>::empty());
        let h = seq![digit_char(v / 100)];
        assert(h.last() == digit_char(v / 100));
        assert(digits_value(Seq::<char>::empty()) == 0);
        assert(digits_value(h) == v / 100);
        assert(digits_value(d.drop_last()) == (v / 100) * 10 + (v / 10) % 10);
        assert(digits_value(d) == ((v / 100) * 10 + (v / 10) % 10) * 10 + v % 10);
    }
    assert(digits_value(d) == v);
    assert(d[0] != '+');
    assert(forall|i: int| 0 <= i < d.len() ==> is_digit(#[trigger] d[i]));
}

/// One piece of the board's text.
pub enum BoardPiece {
    /// A new row starts; odd rows are indented.
    NewRow { indent: bool },
    /// A cell: its label and its owner (0 for none), which gives its colour.
    Tile { text: Vec<char>, owner: u8 },
}

fn digit(d: u8) -> (r: char)
    requires
        d < 10,
    ensures
        r == digit_char(d as int),
{
    if d == 0 {
        '0'
    } else if d == 1 {
        '1'
    } else if d == 2 {
        '2'
    } else if d == 3 {
        '3'
    } else if d == 4 {
        '4'
    } else if d == 5 {
        '5'
    } else if d == 6 {
        '6'
    } else if d == 7 {
        '7'
    } else if d == 8 {
        '8'
    } else {
        '9'
    }
}

/// The label of a cell.
pub fn tile_label(taken: bool, owner: u8, value: u8) -> (r: Vec<char>)
    ensures
        r@ == tile_text(taken, owner, value),
{
    let mut r: Vec<char> = Vec::new();
    if owner > 0 {
        r.push('P');
        if value < 10 {
            r.push('0');
            r.push(digit(value));
        } else if value < 100 {
            r.push(digit(value / 10));
            r.push(digit(value % 10));
        } else {
            r.push(digit(value / 100));
            r.push(digit((value / 10) % 10));
            r.push(digit(value % 10));
        }
    } else if Game::is_hole(taken, owner) {
        r.push(' ');
        r.push('X');
        r.push(' ');
    } else {
        r.push(' ');
        r.push('·');
        r.push(' ');
    }
    assert(r@ =~= tile_text(taken, owner, value));
    r
}

/// Whether piece `p` is the label of cell `c` of the board.
pub open spec fn is_tile_of(p: BoardPiece, g: Grid, c: int) -> bool {
    match p {
        BoardPiece::Tile { text, owner } => text@ == tile_text(g.takens@[c], g.owners@[c], g.values@[c])
            && owner == g.owners@[c],
        _ => false,
    }
}

impl Game {
    /// The board's text, row by row: each row starts with a row break
    /// (indented for odd rows), followed by the labels of its cells.
    #[verifier::spinoff_prover]
    pub fn board_pieces(&self) -> (r: Vec<BoardPiece>)
        ensures
            r@.len() == GRID_SIZE + Y_MAX,
            forall|y: int|
                0 <= y < Y_MAX ==> #[trigger] r@[(X_MAX + 1) * y] == (BoardPiece::NewRow { indent: y % 2 == 1 }),
            forall|c: int| 0 <= c < GRID_SIZE ==> is_tile_of(#[trigger] r@[(X_MAX + 1) * row(c) + col(c) + 1], self.grid, c),
    {
        let mut r: Vec<BoardPiece> = Vec::new();
        let mut idx: usize = 0;
        while idx < GRID_SIZE
            invariant
                idx <= GRID_SIZE,
                r@.len() == idx + (idx + X_MAX - 1) / X_MAX as int,
                forall|y: int|
                    0 <= y && X_MAX * y < idx ==> #[trigger] r@[(X_MAX + 1) * y] == (BoardPiece::NewRow {
                        indent: y % 2 == 1,
                    }),
                forall|c: int| 0 <= c < idx ==> is_tile_of(#[trigger] r@[(X_MAX + 1) * row(c) + col(c) + 1], self.grid, c),
            decreases GRID_SIZE - idx,
        {
            let x = location_to_x(idx);
            let y = location_to_y(idx);
            if x == 0 {
                r.push(BoardPiece::NewRow { indent: y % 2 == 1 });
            }
            let text = tile_label(self.grid.takens[idx], self.grid.owners[idx], self.grid.values[idx]);
            r.push(BoardPiece::Tile { text: text, owner: self.grid.owners[idx] });
            idx = idx + 1;
        }
        r
    }
}

} // verus!
