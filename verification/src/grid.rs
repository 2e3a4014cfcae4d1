//! The board: tile values, owners, taken cells, the list of free cells, and
//! how a placed tile acts on its neighbours.
use arrayvec::ArrayVec;
use vstd::prelude::*;

use crate::constants::{
    col, free_cells, get_valid_moves_from_takens, lemma_free_cells, location_to_x, location_to_y, row,
    EVEN_OFFSETS, GRID_ISIZE, GRID_SIZE, ODD_OFFSETS, PLAYER_NUMBER, X_MAX,
};
use crate::player::Player;
use crate::valid_moves::{
    move_list, moves_clone, moves_is_empty, moves_new, moves_push,
};

verus! {

/// Offset of neighbour `k` (0 to 5) of a cell, in an odd or an even row.
pub open spec fn hex_offset(odd_row: bool, k: int) -> int {
    if k == 0 {
        1
    } else if k == 1 {
        -1
    } else if k == 2 {
        X_MAX as int
    } else if k == 3 {
        -(X_MAX as int)
    } else if k == 4 {
        if odd_row { X_MAX + 1 } else { X_MAX - 1 }
    } else {
        if odd_row { -(X_MAX as int) + 1 } else { -(X_MAX as int) - 1 }
    }
}

/// Absolute value.
pub open spec fn abs_int(a: int) -> int {
    if a < 0 { -a } else { a }
}

/// Neighbour `k` of `loc`, if it is kept: it must lie on the board, and an
/// offset that moves right (`1`, or of size `X_MAX + 1`) is dropped in the
/// last column, one that moves left (`-1`, or of size `X_MAX - 1`) in the
/// first column.
pub open spec fn neighbor_candidate(loc: int, k: int) -> Option<int> {
    let x = col(loc);
    let off = hex_offset(row(loc) % 2 == 1, k);
    let n = loc + off;
    if n < 0 || n >= GRID_SIZE {
        None
    } else if (off == 1 || abs_int(off) == X_MAX + 1) && x + 1 >= X_MAX {
        None
    } else if (off == -1 || abs_int(off) == X_MAX - 1) && x == 0 {
        None
    } else {
        Some(n)
    }
}

/// The kept neighbours among the first `k` offsets, in offset order.
pub open spec fn neighbors_upto(loc: int, k: int) -> Seq<usize>
    decreases k,
{
    if k <= 0 {
        Seq::empty()
    } else {
        match neighbor_candidate(loc, k - 1) {
            Some(n) => neighbors_upto(loc, k - 1).push(n as usize),
            None => neighbors_upto(loc, k - 1),
        }
    }
}

/// The neighbours of a cell, in offset order.
pub open spec fn neighbors(loc: int) -> Seq<usize> {
    neighbors_upto(loc, 6)
}

/// `n` is the kept neighbour of `loc` at one of the first `k` offsets.
spec fn at_some_offset(loc: int, n: int, k: int) -> bool {
    exists|j: int|
        #![trigger neighbor_candidate(loc, j)]
        0 <= j < k && n == loc + hex_offset(row(loc) % 2 == 1, j) && neighbor_candidate(loc, j) is Some
}

proof fn lemma_neighbors_upto(loc: int, k: int)
    requires
        0 <= k <= 6,
    ensures
        neighbors_upto(loc, k).len() <= k,
        forall|i: int|
            0 <= i < neighbors_upto(loc, k).len() ==> at_some_offset(loc, #[trigger] neighbors_upto(loc, k)[i] as int, k),
        forall|i: int|
            0 <= i < neighbors_upto(loc, k).len() ==> #[trigger] neighbors_upto(loc, k)[i] < GRID_SIZE,
        forall|i: int|
            0 <= i < neighbors_upto(loc, k).len() ==> #[trigger] neighbors_upto(loc, k)[i] != loc,
        forall|i: int, j: int|
            0 <= i < j < neighbors_upto(loc, k).len() ==> neighbors_upto(loc, k)[i] != neighbors_upto(
                loc,
                k,
            )[j],
    decreases k,
{
    if k > 0 {
        lemma_neighbors_upto(loc, k - 1);
        let s = neighbors_upto(loc, k - 1);
        let odd = row(loc) % 2 == 1;
        match neighbor_candidate(loc, k - 1) {
            Some(n) => {
                let t = neighbors_upto(loc, k);
                assert(t == s.push(n as usize));
                assert forall|i: int|
                    0 <= i < t.len() implies at_some_offset(loc, #[trigger] t[i] as int, k) by {
                    if i == s.len() {
                        assert(t[i] == loc + hex_offset(odd, k - 1));
                        assert(neighbor_candidate(loc, k - 1) is Some);
                    } else {
                        assert(t[i] == s[i]);
                        assert(at_some_offset(loc, s[i] as int, k - 1));
                        let jj = choose|jj: int|
                            #![trigger neighbor_candidate(loc, jj)]
                            0 <= jj < k - 1 && s[i] == loc + hex_offset(odd, jj)
                                && neighbor_candidate(loc, jj) is Some;
                        assert(neighbor_candidate(loc, jj) is Some);
                    }
                }
                assert forall|i: int, j: int| 0 <= i < j < t.len() implies t[i] != t[j] by {
                    if j == s.len() {
                        assert(at_some_offset(loc, s[i] as int, k - 1));
                        let jj = choose|jj: int|
                            0 <= jj < k - 1 && s[i] == loc + hex_offset(odd, jj)
                                && neighbor_candidate(loc, jj) is Some;
                        assert(t[i] == s[i]);
                        assert(hex_offset(odd, jj) != hex_offset(odd, k - 1));
                    } else {
                        assert(t[i] == s[i] && t[j] == s[j]);
                    }
                }
                assert forall|i: int| 0 <= i < t.len() implies #[trigger] t[i] != loc && t[i]
                    < GRID_SIZE by {
                    if i < s.len() {
                        assert(t[i] == s[i]);
                    }
                }
            },
            None => {
                let t = neighbors_upto(loc, k);
                assert(t == s);
                assert forall|i: int|
                    0 <= i < t.len() implies at_some_offset(loc, #[trigger] t[i] as int, k) by {
                    assert(at_some_offset(loc, s[i] as int, k - 1));
                    let jj = choose|jj: int|
                        #![trigger neighbor_candidate(loc, jj)]
                        0 <= jj < k - 1 && s[i] == loc + hex_offset(odd, jj)
                            && neighbor_candidate(loc, jj) is Some;
                    assert(t[i] == loc + hex_offset(odd, jj));
                    assert(neighbor_candidate(loc, jj) is Some);
                }
            },
        }
    }
}

/// The neighbours of a cell are cells of the board other than the cell
/// itself, at most six, each listed once.
pub proof fn lemma_neighbors(loc: int)
    ensures
        neighbors(loc).len() <= 6,
        forall|i: int| 0 <= i < neighbors(loc).len() ==> #[trigger] neighbors(loc)[i] < GRID_SIZE,
        forall|i: int| 0 <= i < neighbors(loc).len() ==> #[trigger] neighbors(loc)[i] != loc,
        forall|i: int, j: int|
            0 <= i < j < neighbors(loc).len() ==> neighbors(loc)[i] != neighbors(loc)[j],
{
    lemma_neighbors_upto(loc, 6);
}

/// `b` is a neighbour of `a` exactly when one of `a`'s six offsets keeps it.
proof fn lemma_neighbors_contains(a: int, b: int, k: int)
    requires
        0 <= k <= 6,
        0 <= b < GRID_SIZE,
    ensures
        neighbors_upto(a, k).contains(b as usize) <==> exists|j: int|
            0 <= j < k && #[trigger] neighbor_candidate(a, j) == Some(b),
    decreases k,
{
    if k > 0 {
        lemma_neighbors_contains(a, b, k - 1);
        lemma_neighbors_upto(a, k - 1);
        let s = neighbors_upto(a, k - 1);
        match neighbor_candidate(a, k - 1) {
            Some(n) => {
                let t = neighbors_upto(a, k);
                assert(t == s.push(n as usize));
                if t.contains(b as usize) {
                    let i = choose|i: int| 0 <= i < t.len() && t[i] == b as usize;
                    if i == s.len() {
                        assert(n < GRID_SIZE);
                        assert(neighbor_candidate(a, k - 1) == Some(b));
                    } else {
                        assert(s[i] == b as usize);
                        assert(s.contains(b as usize));
                    }
                }
                if exists|j: int| 0 <= j < k && #[trigger] neighbor_candidate(a, j) == Some(b) {
                    let j = choose|j: int| 0 <= j < k && #[trigger] neighbor_candidate(a, j) == Some(b);
                    if j == k - 1 {
                        assert(t[s.len() as int] == b as usize);
                    } else {
                        let i = choose|i: int| 0 <= i < s.len() && s[i] == b as usize;
                        assert(t[i] == b as usize);
                    }
                }
            },
            None => {},
        }
    }
}

/// A pair of cells that only one of them lists as a neighbour: the higher
/// cell lies in the first or the last column, and the lower one is a row up,
/// `X_MAX - 1` cells back from an odd row, `X_MAX + 1` from an even row.
pub open spec fn one_sided(a: int, b: int) -> bool {
    let lo = if a < b { a } else { b };
    let hi = if a < b { b } else { a };
    &&& (col(hi) == 0 || col(hi) == X_MAX - 1)
    &&& hi - lo == (if row(hi) % 2 == 1 { X_MAX - 1 } else { X_MAX + 1 })
}

/// `b` is a neighbour of `a` exactly when one of the six offsets keeps it.
proof fn lemma_contains_six(a: int, b: int)
    requires
        0 <= b < GRID_SIZE,
    ensures
        neighbors(a).contains(b as usize) <==> (neighbor_candidate(a, 0) == Some(b) || neighbor_candidate(a, 1)
            == Some(b) || neighbor_candidate(a, 2) == Some(b) || neighbor_candidate(a, 3) == Some(b)
            || neighbor_candidate(a, 4) == Some(b) || neighbor_candidate(a, 5) == Some(b)),
{
    lemma_neighbors_contains(a, b, 6);
    if neighbors(a).contains(b as usize) {
        let j = choose|j: int| 0 <= j < 6 && #[trigger] neighbor_candidate(a, j) == Some(b);
        assert(j == 0 || j == 1 || j == 2 || j == 3 || j == 4 || j == 5);
    }
}

/// Being neighbours is symmetric on every pair of cells but the one-sided
/// pairs: for cells `a` and `b` of the board, `b` is a neighbour of `a`
/// exactly when `a` is one of `b`, unless `one_sided(a, b)`; for a one-sided
/// pair, exactly one of the two lists the other.
#[verifier::spinoff_prover]
#[verifier::rlimit(50)]
pub proof fn lemma_neighbors_symmetric_exact(a: int, b: int)
    requires
        0 <= a < GRID_SIZE,
        0 <= b < GRID_SIZE,
    ensures
        (neighbors(a).contains(b as usize) <==> neighbors(b).contains(a as usize)) <==> !one_sided(a, b),
{
    lemma_contains_six(a, b);
    lemma_contains_six(b, a);
    assert(a == 10 * row(a) + col(a) && 0 <= col(a) < 10 && 0 <= row(a) < 8);
    assert(b == 10 * row(b) + col(b) && 0 <= col(b) < 10 && 0 <= row(b) < 8);
}

/// Neighbours do not wrap around a row: each neighbour lies in the same row
/// or the next row up or down, at most one column away. This holds for all
/// cells but those in the first column of an even row and the last column of
/// an odd row, where one diagonal offset wraps.
pub proof fn lemma_neighbors_adjacent(a: int)
    requires
        0 <= a < GRID_SIZE,
        !(row(a) % 2 == 0 && col(a) == 0),
        !(row(a) % 2 == 1 && col(a) == X_MAX - 1),
    ensures
        forall|i: int|
            0 <= i < neighbors(a).len() ==> {
                let n = #[trigger] neighbors(a)[i] as int;
                &&& -1 <= row(n) - row(a) <= 1
                &&& -1 <= col(n) - col(a) <= 1
            },
{
    lemma_neighbors_upto(a, 6);
    assert forall|i: int| 0 <= i < neighbors(a).len() implies {
        let n = #[trigger] neighbors(a)[i] as int;
        &&& -1 <= row(n) - row(a) <= 1
        &&& -1 <= col(n) - col(a) <= 1
    } by {
        let n = neighbors(a)[i] as int;
        assert(at_some_offset(a, n, 6));
        let j = choose|j: int|
            #![trigger neighbor_candidate(a, j)]
            0 <= j < 6 && n == a + hex_offset(row(a) % 2 == 1, j) && neighbor_candidate(a, j) is Some;
        assert(neighbor_candidate(a, j) is Some);
    }
}

/// Offset `k` of the neighbour table of an odd or an even row.
fn offset_at(odd_row: bool, k: usize) -> (r: isize)
    requires
        k < 6,
    ensures
        r == hex_offset(odd_row, k as int),
{
    let table = if odd_row {
        ODD_OFFSETS
    } else {
        EVEN_OFFSETS
    };
    let r = table[k];
    assert(r == hex_offset(odd_row, k as int));
    r
}

/// What a cell holding `val` adds to the score of player `p` when its
/// owner is `own`.
pub open spec fn contribution(val: u8, own: u8, p: int) -> int {
    if own == p {
        val as int
    } else {
        0
    }
}

/// Sum of the values of the cells owned by player `p` among the first `n`.
pub open spec fn owned_sum(values: Seq<u8>, owners: Seq<u8>, p: int, n: int) -> int
    decreases n,
{
    if n <= 0 {
        0
    } else {
        owned_sum(values, owners, p, n - 1) + contribution(values[n - 1], owners[n - 1], p)
    }
}

/// Changing one cell changes a player's sum by the change of that cell's
/// contribution.
pub proof fn lemma_owned_sum_update(
    values: Seq<u8>,
    owners: Seq<u8>,
    p: int,
    n: int,
    i: int,
    v: u8,
    o: u8,
)
    requires
        0 <= i < n <= values.len(),
        n <= owners.len(),
    ensures
        owned_sum(values.update(i, v), owners.update(i, o), p, n) == owned_sum(values, owners, p, n)
            - contribution(values[i], owners[i], p) + contribution(v, o, p),
    decreases n,
{
    if n - 1 > i {
        lemma_owned_sum_update(values, owners, p, n - 1, i, v, o);
    } else {
        lemma_owned_sum_same(values, owners, values.update(i, v), owners.update(i, o), p, n - 1);
    }
}

/// Sums over prefixes on which two boards agree are equal.
pub proof fn lemma_owned_sum_same(
    values: Seq<u8>,
    owners: Seq<u8>,
    values2: Seq<u8>,
    owners2: Seq<u8>,
    p: int,
    n: int,
)
    requires
        0 <= n <= values.len(),
        n <= owners.len(),
        n <= values2.len(),
        n <= owners2.len(),
        forall|i: int| 0 <= i < n ==> values[i] == values2[i] && owners[i] == owners2[i],
    ensures
        owned_sum(values, owners, p, n) == owned_sum(values2, owners2, p, n),
    decreases n,
{
    if n > 0 {
        lemma_owned_sum_same(values, owners, values2, owners2, p, n - 1);
    }
}

/// A player's sum lies between the contribution of any one of its cells and
/// 255 per cell.
pub proof fn lemma_owned_sum_bounds(values: Seq<u8>, owners: Seq<u8>, p: int, n: int)
    requires
        0 <= n <= values.len(),
        n <= owners.len(),
    ensures
        0 <= owned_sum(values, owners, p, n) <= 255 * n,
        forall|i: int| 0 <= i < n ==> contribution(values[i], owners[i], p) <= owned_sum(values, owners, p, n),
    decreases n,
{
    if n > 0 {
        lemma_owned_sum_bounds(values, owners, p, n - 1);
    }
}

/// Whether a tile of `value` placed by `owner` captures a neighbouring cell
/// owned by `own` and holding `val`: the cell must belong to another player
/// and hold less.
pub open spec fn captures(own: u8, val: u8, owner: u8, value: u8) -> bool {
    own != owner && own != 0 && val < value
}

/// Owner of a neighbouring cell after a tile of `value` is placed by `owner`.
pub open spec fn reacted_owner(own: u8, val: u8, owner: u8, value: u8) -> u8 {
    if captures(own, val, owner, value) {
        owner
    } else {
        own
    }
}

/// Value of a neighbouring cell after a tile is placed by `owner`: one more
/// when the cell is the owner's own.
pub open spec fn reacted_value(own: u8, val: u8, owner: u8) -> u8 {
    if own == owner {
        (val + 1) as u8
    } else {
        val
    }
}

/// The owners after the cells in `cells` react to a tile of `value` placed by `owner`.
pub open spec fn react_owners(
    values: Seq<u8>,
    owners: Seq<u8>,
    cells: Seq<usize>,
    owner: u8,
    value: u8,
) -> Seq<u8> {
    Seq::new(
        owners.len(),
        |i: int|
            if cells.contains(i as usize) {
                reacted_owner(owners[i], values[i], owner, value)
            } else {
                owners[i]
            },
    )
}

/// The values after the cells in `cells` react to a tile placed by `owner`.
pub open spec fn react_values(values: Seq<u8>, owners: Seq<u8>, cells: Seq<usize>, owner: u8) -> Seq<
    u8,
> {
    Seq::new(
        values.len(),
        |i: int|
            if cells.contains(i as usize) {
                reacted_value(owners[i], values[i], owner)
            } else {
                values[i]
            },
    )
}

/// How the cells in `cells` react to a tile of `value` placed by `owner`: a
/// cell of another player is captured exactly when it holds strictly less
/// than `value`, and keeps its value; a cell holding `value` or more keeps its
/// owner; a cell of `owner` stays its own and gains one; a free cell and every
/// cell outside `cells` stay as they were.
pub proof fn lemma_react_rules(values: Seq<u8>, owners: Seq<u8>, cells: Seq<usize>, owner: u8, value: u8, i: int)
    requires
        0 <= i < owners.len(),
        values.len() == owners.len(),
        owner != 0,
    ensures
        cells.contains(i as usize) && owners[i] != 0 && owners[i] != owner && values[i] < value ==> react_owners(
            values,
            owners,
            cells,
            owner,
            value,
        )[i] == owner && react_values(values, owners, cells, owner)[i] == values[i],
        owners[i] != owner && values[i] >= value ==> react_owners(values, owners, cells, owner, value)[i]
            == owners[i] && react_values(values, owners, cells, owner)[i] == values[i],
        cells.contains(i as usize) && owners[i] == owner && values[i] < 255 ==> react_owners(
            values,
            owners,
            cells,
            owner,
            value,
        )[i] == owner && react_values(values, owners, cells, owner)[i] == values[i] + 1,
        owners[i] == 0 ==> react_owners(values, owners, cells, owner, value)[i] == 0 && react_values(
            values,
            owners,
            cells,
            owner,
        )[i] == values[i],
        !cells.contains(i as usize) ==> react_owners(values, owners, cells, owner, value)[i] == owners[i]
            && react_values(values, owners, cells, owner)[i] == values[i],
{
}

/// How much player `p`'s sum changes when the neighbours of `location` react
/// to a tile of `value` placed by `owner`.
pub open spec fn score_change(
    values: Seq<u8>,
    owners: Seq<u8>,
    location: int,
    owner: u8,
    value: u8,
    p: int,
) -> int {
    owned_sum(
        react_values(values, owners, neighbors(location), owner),
        react_owners(values, owners, neighbors(location), owner, value),
        p,
        GRID_SIZE as int,
    ) - owned_sum(values, owners, p, GRID_SIZE as int)
}

/// The board.
pub struct Grid {
    pub values: [u8; GRID_SIZE],
    pub owners: [u8; GRID_SIZE],
    pub takens: [bool; GRID_SIZE],
    pub valid_moves: ArrayVec<usize, GRID_SIZE>,
    pub valid_moves_indices: ArrayVec<usize, GRID_SIZE>,
    pub adjacency: [bool; GRID_SIZE],
    pub turn: usize,
}

impl Clone for Grid {
    /// A copy of the board, with the same cells and the same list of free cells.
    fn clone(&self) -> (r: Self)
        ensures
            r.values == self.values,
            r.owners == self.owners,
            r.takens == self.takens,
            move_list(r.valid_moves) == move_list(self.valid_moves),
            move_list(r.valid_moves_indices) == move_list(self.valid_moves_indices),
            r.adjacency == self.adjacency,
            r.turn == self.turn,
    {
        Grid {
            values: self.values,
            owners: self.owners,
            takens: self.takens,
            valid_moves: moves_clone(&self.valid_moves),
            valid_moves_indices: moves_clone(&self.valid_moves_indices),
            adjacency: self.adjacency,
            turn: self.turn,
        }
    }
}

impl Grid {
    /// The free cells, in the order the list holds them.
    pub open spec fn moves(&self) -> Seq<usize> {
        move_list(self.valid_moves)
    }

    /// Well-formedness: the list of valid moves holds each free cell exactly
    /// once and nothing else; owners are players or 0; an owned cell is taken.
    pub open spec fn wf(&self) -> bool {
        &&& self.moves().len() <= GRID_SIZE
        &&& forall|i: int, j: int| 0 <= i < j < self.moves().len() ==> self.moves()[i] != self.moves()[j]
        &&& forall|i: int| 0 <= i < self.moves().len() ==> #[trigger] self.moves()[i] < GRID_SIZE
        &&& forall|c: usize| c < GRID_SIZE ==> (#[trigger] self.moves().contains(c) <==> !self.takens@[c as int])
        &&& forall|c: int| 0 <= c < GRID_SIZE ==> #[trigger] self.owners@[c] <= PLAYER_NUMBER
        &&& forall|c: int| 0 <= c < GRID_SIZE ==> #[trigger] self.owners@[c] != 0 ==> self.takens@[c]
    }

    /// A well-formed board has no free cell left exactly when every cell is taken.
    pub proof fn lemma_terminal_iff_full(&self)
        requires
            self.wf(),
        ensures
            self.moves().len() == 0 <==> forall|c: int| 0 <= c < GRID_SIZE ==> #[trigger] self.takens@[c],
    {
        if self.moves().len() == 0 {
            assert forall|c: int| 0 <= c < GRID_SIZE implies #[trigger] self.takens@[c] by {
                assert(!self.moves().contains(c as usize));
            }
        }
        if self.moves().len() > 0 {
            let c = self.moves()[0];
            assert(self.moves().contains(c));
            assert(!self.takens@[c as int]);
        }
    }

    /// The total value player `p` owns on the board.
    pub open spec fn owned_total(&self, p: int) -> int {
        owned_sum(self.values@, self.owners@, p, GRID_SIZE as int)
    }

    /// A board with the given taken cells (holes) and nothing placed.
    pub fn init(takens: [bool; GRID_SIZE]) -> (r: Grid)
        ensures
            r.wf(),
            r.takens@ == takens@,
            r.moves() == free_cells(takens@, GRID_SIZE as int),
            move_list(r.valid_moves_indices) == r.moves(),
            forall|c: int| 0 <= c < GRID_SIZE ==> #[trigger] r.values@[c] == 0 && r.owners@[c] == 0
                && !r.adjacency@[c],
            r.turn == 0,
    {
        let values = [0u8; GRID_SIZE];
        let owners = [0u8; GRID_SIZE];
        let turn: usize = 0;
        let adj = [false; GRID_SIZE];
        let free = get_valid_moves_from_takens(&takens);
        proof {
            lemma_free_cells(takens@, GRID_SIZE as int);
        }
        let mut valid_moves = moves_new();
        let mut i: usize = 0;
        while i < free.len()
            invariant
                i <= free.len(),
                free@ == free_cells(takens@, GRID_SIZE as int),
                free@.len() <= GRID_SIZE,
                move_list(valid_moves) == free@.take(i as int),
            decreases free.len() - i,
        {
            moves_push(&mut valid_moves, free[i]);
            assert(free@.take(i + 1) == free@.take(i as int).push(free@[i as int]));
            i = i + 1;
        }
        assert(free@.take(i as int) == free@);
        let r = Grid {
            values: values,
            owners: owners,
            takens: takens,
            valid_moves: moves_clone(&valid_moves),
            valid_moves_indices: valid_moves,
            adjacency: adj,
            turn: turn,
        };
        assert forall|c: int| 0 <= c < GRID_SIZE implies #[trigger] r.values@[c] == 0 && r.owners@[c] == 0
            && !r.adjacency@[c] by {}
        r
    }

    /// Whether no free cell is left.
    pub fn is_terminal(&self) -> (r: bool)
        ensures
            r == (self.moves().len() == 0),
    {
        moves_is_empty(&self.valid_moves)
    }

    /// Records whether a cell is adjacent to a placed tile.
    pub fn update_adjacency(&mut self, location: usize, add: bool)
        requires
            location < GRID_SIZE,
        ensures
            final(self).adjacency@ == old(self).adjacency@.update(location as int, add),
            final(self).values == old(self).values,
            final(self).owners == old(self).owners,
            final(self).takens == old(self).takens,
            final(self).valid_moves == old(self).valid_moves,
            final(self).valid_moves_indices == old(self).valid_moves_indices,
            final(self).turn == old(self).turn,
    {
        self.adjacency[location] = add;
    }

    /// Every cell `owner` places next to acts on the cell's neighbours: a
    /// neighbour of the owner's gains one; a neighbour of another player
    /// holding less than `value` is captured. Each player's score moves by the
    /// change of the total value it owns.
    #[verifier::spinoff_prover]
    pub fn update_neighbors(
        &mut self,
        value: u8,
        owner: u8,
        location: usize,
        players: &mut [Player; PLAYER_NUMBER],
    )
        requires
            location < GRID_SIZE,
            1 <= owner <= PLAYER_NUMBER,
            forall|i: int|
                0 <= i < neighbors(location as int).len() ==> #[trigger] old(self).owners@[neighbors(
                    location as int,
                )[i] as int] <= PLAYER_NUMBER,
            forall|i: int|
                0 <= i < neighbors(location as int).len() ==> (old(self).owners@[neighbors(
                    location as int,
                )[i] as int] == owner ==> #[trigger] old(self).values@[neighbors(location as int)[i] as int]
                    < 255),
            forall|k: int|
                0 <= k < PLAYER_NUMBER ==> #[trigger] old(players)@[k].score <= i16::MAX && 0
                    <= old(players)@[k].score + score_change(
                    old(self).values@,
                    old(self).owners@,
                    location as int,
                    owner,
                    value,
                    k + 1,
                ) <= i16::MAX,
        ensures
            final(self).owners@ == react_owners(
                old(self).values@,
                old(self).owners@,
                neighbors(location as int),
                owner,
                value,
            ),
            final(self).values@ == react_values(
                old(self).values@,
                old(self).owners@,
                neighbors(location as int),
                owner,
            ),
            final(self).takens == old(self).takens,
            final(self).valid_moves == old(self).valid_moves,
            final(self).valid_moves_indices == old(self).valid_moves_indices,
            final(self).adjacency == old(self).adjacency,
            final(self).turn == old(self).turn,
            forall|k: int|
                #![trigger final(players)@[k]]
                0 <= k < PLAYER_NUMBER ==> {
                    &&& final(players)@[k].score == old(players)@[k].score + score_change(
                        old(self).values@,
                        old(self).owners@,
                        location as int,
                        owner,
                        value,
                        k + 1,
                    )
                    &&& final(players)@[k].id == old(players)@[k].id
                    &&& final(players)@[k].move_type == old(players)@[k].move_type
                    &&& final(players)@[k].turn == old(players)@[k].turn
                    &&& final(players)@[k].numbank == old(players)@[k].numbank
                },
    {
        let nbrs = Self::get_neighbors(location);
        proof {
            lemma_neighbors(location as int);
        }
        let ghost old_values = self.values@;
        let ghost old_owners = self.owners@;
        let ghost nb = nbrs@;
        let my_idx = (owner - 1) as usize;
        let mut gain: usize = 0;
        let mut losses: [usize; PLAYER_NUMBER] = [0usize; PLAYER_NUMBER];
        let mut j: usize = 0;
        while j < nbrs.len()
            invariant
                j <= nbrs@.len(),
                nb == nbrs@,
                nb == neighbors(location as int),
                nb.len() <= 6,
                forall|i: int| 0 <= i < nb.len() ==> #[trigger] nb[i] < GRID_SIZE,
                forall|a: int, b: int| 0 <= a < b < nb.len() ==> nb[a] != nb[b],
                1 <= owner <= PLAYER_NUMBER,
                my_idx == owner - 1,
                old_values.len() == GRID_SIZE,
                old_owners.len() == GRID_SIZE,
                forall|i: int| 0 <= i < nb.len() ==> #[trigger] old_owners[nb[i] as int] <= PLAYER_NUMBER,
                forall|i: int|
                    0 <= i < nb.len() ==> (old_owners[nb[i] as int] == owner ==> #[trigger] old_values[nb[i] as int]
                        < 255),
                self.owners@ == react_owners(old_values, old_owners, nb.take(j as int), owner, value),
                self.values@ == react_values(old_values, old_owners, nb.take(j as int), owner),
                self.takens == old(self).takens,
                self.valid_moves == old(self).valid_moves,
                self.valid_moves_indices == old(self).valid_moves_indices,
                self.adjacency == old(self).adjacency,
                self.turn == old(self).turn,
                gain <= 256 * j,
                gain == owned_sum(self.values@, self.owners@, owner as int, GRID_SIZE as int) - owned_sum(
                    old_values,
                    old_owners,
                    owner as int,
                    GRID_SIZE as int,
                ),
                forall|k: int|
                    0 <= k < PLAYER_NUMBER ==> #[trigger] losses@[k] <= 255 * j,
                forall|k: int|
                    0 <= k < PLAYER_NUMBER && k != my_idx ==> #[trigger] losses@[k] == owned_sum(
                        old_values,
                        old_owners,
                        k + 1,
                        GRID_SIZE as int,
                    ) - owned_sum(self.values@, self.owners@, k + 1, GRID_SIZE as int),
            decreases nbrs@.len() - j,
        {
            let n = nbrs[j];
            let old_val = self.values[n];
            let old_own = self.owners[n];
            let ghost cur_values = self.values@;
            let ghost cur_owners = self.owners@;
            proof {
                assert(!nb.take(j as int).contains(n)) by {
                    if nb.take(j as int).contains(n) {
                        let a = choose|a: int| 0 <= a < j && nb.take(j as int)[a] == n;
                        assert(nb[a] == nb[j as int]);
                    }
                }
                assert(old_val == old_values[n as int]);
                assert(old_own == old_owners[n as int]);
            }
            let is_my_color = old_own == owner;
            let is_capture = !is_my_color && old_own != 0 && old_val < value;
            if is_my_color {
                self.values[n] = old_val + 1;
                gain = gain + 1;
            }
            if is_capture {
                self.owners[n] = owner;
                gain = gain + old_val as usize;
                let d = (old_own - 1) as usize;
                losses[d] = losses[d] + old_val as usize;
            }
            proof {
                let new_val = reacted_value(old_own, old_val, owner);
                let new_own = reacted_owner(old_own, old_val, owner, value);
                assert(self.values@ == cur_values.update(n as int, new_val));
                assert(self.owners@ == cur_owners.update(n as int, new_own));
                let t1 = nb.take(j + 1);
                assert(t1 == nb.take(j as int).push(n));
                assert(self.owners@ =~= react_owners(old_values, old_owners, t1, owner, value)) by {
                    assert forall|c: int| 0 <= c < GRID_SIZE implies self.owners@[c] == react_owners(
                        old_values,
                        old_owners,
                        t1,
                        owner,
                        value,
                    )[c] by {
                        if c != n {
                            assert(t1.contains(c as usize) <==> nb.take(j as int).contains(c as usize));
                        } else {
                            assert(t1[j as int] == n);
                            assert(t1.contains(n));
                        }
                    }
                }
                assert(self.values@ =~= react_values(old_values, old_owners, t1, owner)) by {
                    assert forall|c: int| 0 <= c < GRID_SIZE implies self.values@[c] == react_values(
                        old_values,
                        old_owners,
                        t1,
                        owner,
                    )[c] by {
                        if c != n {
                            assert(t1.contains(c as usize) <==> nb.take(j as int).contains(c as usize));
                        } else {
                            assert(t1[j as int] == n);
                            assert(t1.contains(n));
                        }
                    }
                }
                assert forall|p: int|
                    #![trigger owned_sum(self.values@, self.owners@, p, GRID_SIZE as int)]
                    true implies owned_sum(self.values@, self.owners@, p, GRID_SIZE as int) == owned_sum(
                    cur_values,
                    cur_owners,
                    p,
                    GRID_SIZE as int,
                ) - contribution(old_val, old_own, p) + contribution(new_val, new_own, p) by {
                    lemma_owned_sum_update(cur_values, cur_owners, p, GRID_SIZE as int, n as int, new_val, new_own);
                }
                assert(owned_sum(self.values@, self.owners@, owner as int, GRID_SIZE as int) == owned_sum(
                    cur_values,
                    cur_owners,
                    owner as int,
                    GRID_SIZE as int,
                ) - contribution(old_val, old_own, owner as int) + contribution(new_val, new_own, owner as int));
                assert forall|k: int|
                    0 <= k < PLAYER_NUMBER && k != my_idx implies #[trigger] losses@[k] == owned_sum(
                        old_values,
                        old_owners,
                        k + 1,
                        GRID_SIZE as int,
                    ) - owned_sum(self.values@, self.owners@, k + 1, GRID_SIZE as int) by {
                    assert(owned_sum(self.values@, self.owners@, k + 1, GRID_SIZE as int) == owned_sum(
                        cur_values,
                        cur_owners,
                        k + 1,
                        GRID_SIZE as int,
                    ) - contribution(old_val, old_own, k + 1) + contribution(new_val, new_own, k + 1));
                }
            }
            j = j + 1;
        }
        proof {
            assert(nb.take(j as int) == nb);
        }
        let mut k: usize = 0;
        while k < PLAYER_NUMBER
            invariant
                k <= PLAYER_NUMBER,
                old_values == old(self).values@,
                old_owners == old(self).owners@,
                my_idx == owner - 1,
                1 <= owner <= PLAYER_NUMBER,
                gain == score_change(old_values, old_owners, location as int, owner, value, owner as int),
                forall|q: int|
                    0 <= q < PLAYER_NUMBER && q != my_idx ==> #[trigger] losses@[q] == -score_change(
                        old_values,
                        old_owners,
                        location as int,
                        owner,
                        value,
                        q + 1,
                    ),
                forall|q: int|
                    0 <= q < PLAYER_NUMBER ==> #[trigger] old(players)@[q].score <= i16::MAX && 0
                        <= old(players)@[q].score + score_change(
                        old_values,
                        old_owners,
                        location as int,
                        owner,
                        value,
                        q + 1,
                    ) <= i16::MAX,
                forall|q: int|
                    0 <= q < PLAYER_NUMBER ==> {
                        &&& #[trigger] players@[q].id == old(players)@[q].id
                        &&& players@[q].move_type == old(players)@[q].move_type
                        &&& players@[q].turn == old(players)@[q].turn
                        &&& players@[q].numbank == old(players)@[q].numbank
                    },
                forall|q: int| 0 <= q < k ==> #[trigger] players@[q].score == old(players)@[q].score
                    + score_change(old_values, old_owners, location as int, owner, value, q + 1),
                forall|q: int| k <= q < PLAYER_NUMBER ==> #[trigger] players@[q].score == old(players)@[q].score,
            decreases PLAYER_NUMBER - k,
        {
            let ghost before = players@;
            let mut pl = players[k];
            if k == my_idx {
                pl.score = pl.score + gain;
            } else {
                pl.score = pl.score - losses[k];
            }
            players[k] = pl;
            proof {
                assert(players@ == before.update(k as int, pl));
                assert(pl.id == before[k as int].id && pl.turn == before[k as int].turn);
                assert forall|q: int|
                    0 <= q < PLAYER_NUMBER implies {
                        &&& #[trigger] players@[q].id == old(players)@[q].id
                        &&& players@[q].move_type == old(players)@[q].move_type
                        &&& players@[q].turn == old(players)@[q].turn
                        &&& players@[q].numbank == old(players)@[q].numbank
                    } by {
                    if q == k {
                        assert(players@[q] == pl);
                        assert(before[q].id == old(players)@[q].id);
                        assert(before[q].numbank == old(players)@[q].numbank);
                    } else {
                        assert(players@[q] == before[q]);
                        assert(before[q].id == old(players)@[q].id);
                    }
                }
            }
            k = k + 1;
        }
        assert forall|q: int| #![trigger players@[q]] 0 <= q < PLAYER_NUMBER implies {
            &&& players@[q].score == old(players)@[q].score + score_change(
                old(self).values@,
                old(self).owners@,
                location as int,
                owner,
                value,
                q + 1,
            )
            &&& players@[q].id == old(players)@[q].id
            &&& players@[q].move_type == old(players)@[q].move_type
            &&& players@[q].turn == old(players)@[q].turn
            &&& players@[q].numbank == old(players)@[q].numbank
        } by {
            assert(players@[q].id == old(players)@[q].id);
        }
    }

    /// The neighbours of a cell, in the order right, left, below, above, and
    /// the two diagonal ones of its row parity.
    pub fn get_neighbors(location: usize) -> (r: Vec<usize>)
        requires
            location + X_MAX + 1 <= isize::MAX,
        ensures
            r@ == neighbors(location as int),
    {
        let x = location_to_x(location);
        let y = location_to_y(location);
        let loc = location as isize;
        let odd = y % 2 == 1;
        let x_isize = X_MAX as isize;
        let mut r: Vec<usize> = Vec::new();
        let mut k: usize = 0;
        while k < 6
            invariant
                k <= 6,
                x == col(location as int),
                odd == (row(location as int) % 2 == 1),
                loc == location,
                x_isize == X_MAX,
                location + X_MAX + 1 <= isize::MAX,
                r@ == neighbors_upto(location as int, k as int),
            decreases 6 - k,
        {
            let off = offset_at(odd, k);
            let n = loc + off;
            let abs_off = if off < 0 { -off } else { off };
            if n < 0 || n >= GRID_ISIZE {
            } else if (off == 1 || abs_off == x_isize + 1) && x + 1 >= X_MAX {
            } else if (off == -1 || abs_off == x_isize - 1) && x == 0 {
            } else {
                r.push(n as usize);
            }
            k = k + 1;
        }
        r
    }
}

} // verus!
