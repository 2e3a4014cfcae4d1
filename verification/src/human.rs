//! What a person types to place a tile: reading the cell and judging it.
use vstd::prelude::*;

use crate::constants::{location_to_x, location_to_y, xy_to_location, GRID_SIZE, X_MAX, Y_MAX};
use crate::game::Game;
use crate::text::{parse_usize, parsed_unsigned, split_commas, split_commas_spec};

verus! {

/// The numbers among the first `n` pieces, in order; pieces that are not
/// numbers are skipped.
pub open spec fn numbers_in(pieces: Seq<Seq<char>>, n: int) -> Seq<usize>
    decreases n,
{
    if n <= 0 {
        Seq::empty()
    } else {
        match parsed_unsigned(pieces[n - 1], usize::MAX as int) {
            Some(v) => numbers_in(pieces, n - 1).push(v as usize),
            None => numbers_in(pieces, n - 1),
        }
    }
}

/// The numbers typed as a comma-separated line, e.g. `5,3,` gives 5 and 3.
pub open spec fn typed_numbers(input: Seq<char>) -> Seq<usize> {
    numbers_in(split_commas_spec(input), split_commas_spec(input).len() as int)
}

/// Whether a piece of a typed line reads as a number.
pub open spec fn reads_as_number() -> spec_fn(Seq<char>) -> bool {
    |p: Seq<char>| parsed_unsigned(p, usize::MAX as int) is Some
}

proof fn lemma_numbers_in_filter(pieces: Seq<Seq<char>>, n: int)
    requires
        0 <= n <= pieces.len(),
    ensures
        numbers_in(pieces, n).len() == pieces.take(n).filter(reads_as_number()).len(),
        forall|j: int|
            0 <= j < numbers_in(pieces, n).len() ==> #[trigger] numbers_in(pieces, n)[j] == parsed_unsigned(
                pieces.take(n).filter(reads_as_number())[j],
                usize::MAX as int,
            )->0 as usize,
    decreases n,
{
    reveal(Seq::filter);
    if n > 0 {
        lemma_numbers_in_filter(pieces, n - 1);
        let t = pieces.take(n);
        assert(t.drop_last() == pieces.take(n - 1));
        assert(t.last() == pieces[n - 1]);
        let f0 = pieces.take(n - 1).filter(reads_as_number());
        let f = t.filter(reads_as_number());
        if parsed_unsigned(pieces[n - 1], usize::MAX as int) is Some {
            assert(f == f0.push(pieces[n - 1]));
        } else {
            assert(f == f0);
        }
    }
}

/// Reading a typed line keeps, in order, every piece between commas that
/// reads as a number, and nothing else: there are as many numbers as such
/// pieces, and number `j` is the value of the `j`-th such piece.
pub proof fn lemma_typed_numbers_keeps_every_number(input: Seq<char>)
    ensures
        typed_numbers(input).len() == split_commas_spec(input).filter(reads_as_number()).len(),
        forall|j: int|
            0 <= j < typed_numbers(input).len() ==> #[trigger] typed_numbers(input)[j] == parsed_unsigned(
                split_commas_spec(input).filter(reads_as_number())[j],
                usize::MAX as int,
            )->0 as usize,
{
    let pieces = split_commas_spec(input);
    lemma_numbers_in_filter(pieces, pieces.len() as int);
    assert(pieces.take(pieces.len() as int) == pieces);
}

/// Reads the comma-separated numbers of a typed line; pieces that are not
/// numbers are skipped.
pub fn parse_xy_input(input: &str) -> (r: Vec<usize>)
    ensures
        r@ == typed_numbers(input@),
{
    let pieces = split_commas(input);
    let mut r: Vec<usize> = Vec::new();
    let mut i: usize = 0;
    while i < pieces.len()
        invariant
            i <= pieces@.len(),
            pieces@.len() == split_commas_spec(input@).len(),
            forall|j: int| 0 <= j < pieces@.len() ==> #[trigger] pieces@[j]@ == split_commas_spec(input@)[j],
            r@ == numbers_in(split_commas_spec(input@), i as int),
        decreases pieces@.len() - i,
    {
        let parsed = parse_usize(pieces[i].as_str());
        proof {
            assert(pieces@[i as int]@ == split_commas_spec(input@)[i as int]);
        }
        match parsed {
            Some(v) => {
                r.push(v);
            },
            None => {},
        }
        i = i + 1;
    }
    r
}

/// The judgement on a typed cell.
#[derive(Clone, Copy, Debug, PartialEq, Eq, Structural)]
pub enum HumanChoice {
    /// Not exactly two numbers were typed.
    InvalidInput,
    /// The cell lies below the last row.
    OutOfBounds,
    /// The cell is already taken.
    Taken,
    /// The tile can go on this cell.
    Place(usize),
}

/// The cell at column `xy[0]` of row `xy[1]`.
pub open spec fn typed_cell(xy: Seq<usize>) -> int {
    xy[1] * X_MAX + xy[0]
}

/// Whether judging `xy` goes through: two numbers whose cell fits in a
/// `usize` and is either on the board or past row `Y_MAX` (a cell of row
/// `Y_MAX` itself would be read past the end of the board).
pub open spec fn choice_readable(xy: Seq<usize>) -> bool {
    xy.len() == 2 ==> typed_cell(xy) <= usize::MAX && (typed_cell(xy) < GRID_SIZE || typed_cell(xy) >= (
    Y_MAX + 1) * X_MAX)
}

impl Game {
    /// Judges two typed numbers as a column and a row: not two numbers, a
    /// cell past the last row, a taken cell, or a cell to place on.
    pub fn check_human_choice(&self, xy: &Vec<usize>) -> (r: HumanChoice)
        requires
            choice_readable(xy@),
        ensures
            xy@.len() != 2 ==> r == HumanChoice::InvalidInput,
            xy@.len() == 2 && typed_cell(xy@) >= (Y_MAX + 1) * X_MAX ==> r == HumanChoice::OutOfBounds,
            xy@.len() == 2 && typed_cell(xy@) < GRID_SIZE && self.grid.takens@[typed_cell(xy@)] ==> r
                == HumanChoice::Taken,
            xy@.len() == 2 && typed_cell(xy@) < GRID_SIZE && !self.grid.takens@[typed_cell(xy@)] ==> r
                == HumanChoice::Place(typed_cell(xy@) as usize),
    {
        if xy.len() != 2 {
            return HumanChoice::InvalidInput;
        }
        let x = xy[0];
        let y = xy[1];
        let location = xy_to_location(x, y);
        if location_to_x(location) > X_MAX || location_to_y(location) > Y_MAX {
            return HumanChoice::OutOfBounds;
        }
        if self.grid.takens[location] {
            return HumanChoice::Taken;
        }
        HumanChoice::Place(location)
    }
}

} // verus!
