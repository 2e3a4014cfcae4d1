//! A game: the board, the players, placing tiles, scores and the winner.
use vstd::prelude::*;

use crate::constants::{free_cells, Config, GRID_SIZE, NUMBANK_SIZE, PLAYER_NUMBER};
use crate::grid::{
    contribution, lemma_neighbors, lemma_owned_sum_bounds, lemma_owned_sum_update, neighbors,
    owned_sum, react_owners, react_values, reacted_owner, Grid,
};
use crate::player::{unshuffled_bank, Player};
use crate::valid_moves::{move_list, moves_get, moves_len, moves_remove, moves_swap_remove};

verus! {

/// `s` with the item at `idx` replaced by the last item, and the last item dropped.
pub open spec fn swap_removed(s: Seq<usize>, idx: int) -> Seq<usize> {
    s.update(idx, s.last()).drop_last()
}

/// Removing one item of a list without repeats by swapping the last item in
/// keeps the other items, each once.
pub proof fn lemma_swap_removed(s: Seq<usize>, idx: int)
    requires
        0 <= idx < s.len(),
        forall|i: int, j: int| 0 <= i < j < s.len() ==> s[i] != s[j],
    ensures
        swap_removed(s, idx).len() == s.len() - 1,
        forall|i: int, j: int|
            0 <= i < j < swap_removed(s, idx).len() ==> swap_removed(s, idx)[i] != swap_removed(s, idx)[j],
        forall|c: usize| #[trigger]
            swap_removed(s, idx).contains(c) <==> (s.contains(c) && c != s[idx]),
        forall|i: int|
            0 <= i < swap_removed(s, idx).len() ==> s.contains(#[trigger] swap_removed(s, idx)[i]),
{
    let r = swap_removed(s, idx);
    let last = s.len() - 1;
    assert forall|i: int| 0 <= i < r.len() implies #[trigger] r[i] == (if i == idx {
        s[last]
    } else {
        s[i]
    }) by {}
    assert forall|i: int, j: int| 0 <= i < j < r.len() implies r[i] != r[j] by {
        if i == idx {
            assert(r[i] == s[last] && r[j] == s[j]);
        } else if j == idx {
            assert(r[i] == s[i] && r[j] == s[last]);
        } else {
            assert(r[i] == s[i] && r[j] == s[j]);
        }
    }
    assert forall|c: usize| #[trigger] r.contains(c) <==> (s.contains(c) && c != s[idx]) by {
        if r.contains(c) {
            let i = choose|i: int| 0 <= i < r.len() && r[i] == c;
            if i == idx {
                assert(s[last] == c);
            } else {
                assert(s[i] == c);
            }
        }
        if s.contains(c) && c != s[idx] {
            let i = choose|i: int| 0 <= i < s.len() && s[i] == c;
            if i == last {
                assert(r[idx] == c);
            } else {
                assert(r[i] == c);
            }
        }
    }
    assert forall|i: int| 0 <= i < r.len() implies s.contains(#[trigger] r[i]) by {
        if i == idx {
            assert(s[last] == r[i]);
        } else {
            assert(s[i] == r[i]);
        }
    }
}

/// A game in progress.
pub struct Game {
    pub grid: Grid,
    pub players: [Player; PLAYER_NUMBER],
    pub moves: usize,
    pub absolute_turn: usize,
}

/// Each player's score, as the players record it.
pub open spec fn scores_from_players(g: Game) -> Seq<usize> {
    Seq::new(PLAYER_NUMBER as nat, |k: int| g.players@[k].score)
}

/// Each player's score, as the board shows it: the total value of its cells.
pub open spec fn scores_from_board(g: Game) -> Seq<int> {
    Seq::new(PLAYER_NUMBER as nat, |k: int| g.grid.owned_total(k + 1))
}

/// The board after `owner` puts a tile of `value` on `loc`, before the
/// neighbours react: values.
pub open spec fn placed_values(g: Grid, loc: int, value: u8) -> Seq<u8> {
    g.values@.update(loc, value)
}

/// The board after `owner` puts a tile on `loc`, before the neighbours react: owners.
pub open spec fn placed_owners(g: Grid, loc: int, owner: u8) -> Seq<u8> {
    g.owners@.update(loc, owner)
}

/// Whether every neighbour of `loc` that `owner` owns holds less than 255,
/// so that it can gain one.
pub open spec fn reinforce_ok(g: Grid, loc: int, owner: u8) -> bool {
    forall|i: int|
        0 <= i < neighbors(loc).len() ==> (g.owners@[neighbors(loc)[i] as int] == owner
            ==> #[trigger] g.values@[neighbors(loc)[i] as int] < 255)
}

/// What placing a tile of `value` for `owner` on `loc` makes of `pre`, but
/// for the order of the free cells: the cell is taken, owned by `owner` and
/// holds `value`; its neighbours react; the player's count of tiles and the
/// board's turn go up by one.
pub open spec fn placed_result(pre: Game, post: Game, value: u8, owner: u8, loc: int) -> bool {
    let pv = placed_values(pre.grid, loc, value);
    let po = placed_owners(pre.grid, loc, owner);
    &&& post.grid.takens@ == pre.grid.takens@.update(loc, true)
    &&& post.grid.owners@ == react_owners(pv, po, neighbors(loc), owner, value)
    &&& post.grid.values@ == react_values(pv, po, neighbors(loc), owner)
    &&& post.grid.adjacency == pre.grid.adjacency
    &&& move_list(post.grid.valid_moves_indices) == move_list(pre.grid.valid_moves_indices)
    &&& post.grid.turn == pre.grid.turn + 1
    &&& forall|k: int|
        #![trigger post.players@[k]]
        0 <= k < PLAYER_NUMBER ==> {
            &&& post.players@[k].id == pre.players@[k].id
            &&& post.players@[k].move_type == pre.players@[k].move_type
            &&& post.players@[k].numbank == pre.players@[k].numbank
            &&& post.players@[k].turn == pre.players@[k].turn + (if k == owner - 1 {
                1int
            } else {
                0int
            })
        }
}

/// Placing a tile of `value` for `owner` on `loc`: the cell becomes the
/// owner's with that value; a neighbour of another player is captured exactly
/// when it holds strictly less than `value` (keeping its value), so one holding
/// `value` or more keeps its owner; a neighbour of the owner gains one; every
/// other cell is unchanged.
pub proof fn lemma_placement_rules(pre: Game, post: Game, value: u8, owner: u8, loc: int, c: int)
    requires
        0 <= loc < GRID_SIZE,
        0 <= c < GRID_SIZE,
        1 <= owner <= PLAYER_NUMBER,
        placed_result(pre, post, value, owner, loc),
    ensures
        post.grid.owners@[loc] == owner && post.grid.values@[loc] == value && post.grid.takens@[loc],
        c != loc && neighbors(loc).contains(c as usize) && pre.grid.owners@[c] != 0 && pre.grid.owners@[c] != owner
            && pre.grid.values@[c] < value ==> post.grid.owners@[c] == owner && post.grid.values@[c]
            == pre.grid.values@[c],
        c != loc && pre.grid.owners@[c] != owner && pre.grid.values@[c] >= value ==> post.grid.owners@[c]
            == pre.grid.owners@[c] && post.grid.values@[c] == pre.grid.values@[c],
        c != loc && neighbors(loc).contains(c as usize) && pre.grid.owners@[c] == owner && pre.grid.values@[c]
            < 255 ==> post.grid.owners@[c] == owner && post.grid.values@[c] == pre.grid.values@[c] + 1,
        c != loc && !neighbors(loc).contains(c as usize) ==> post.grid.owners@[c] == pre.grid.owners@[c]
            && post.grid.values@[c] == pre.grid.values@[c],
{
    lemma_neighbors(loc);
    let pv = placed_values(pre.grid, loc, value);
    let po = placed_owners(pre.grid, loc, owner);
    assert(!neighbors(loc).contains(loc as usize)) by {
        if neighbors(loc).contains(loc as usize) {
            let i = choose|i: int| 0 <= i < neighbors(loc).len() && neighbors(loc)[i] == loc as usize;
        }
    }
    crate::grid::lemma_react_rules(pv, po, neighbors(loc), owner, value, loc);
    crate::grid::lemma_react_rules(pv, po, neighbors(loc), owner, value, c);
}

/// What placing a tile of `value` for `owner` on `loc` makes of `pre`: the
/// cell is taken, owned by `owner` and holds `value`; its neighbours react;
/// the cell leaves the list of free cells (the last free cell takes its
/// place); the player's count of tiles and the board's turn go up by one.
pub open spec fn add_result(pre: Game, post: Game, value: u8, owner: u8, loc: int) -> bool {
    &&& placed_result(pre, post, value, owner, loc)
    &&& exists|idx: int|
        0 <= idx < pre.grid.moves().len() && pre.grid.moves()[idx] == loc && post.grid.moves()
            == swap_removed(pre.grid.moves(), idx)
}

/// Whether the cells of `s` are in increasing order.
pub open spec fn increasing(s: Seq<usize>) -> bool {
    forall|i: int, j: int| 0 <= i < j < s.len() ==> s[i] < s[j]
}

/// As `add_result`, for a list of free cells kept in increasing order: the
/// cell leaves the list and the later cells move up one place.
pub open spec fn add_sorted_result(pre: Game, post: Game, value: u8, owner: u8, loc: int) -> bool {
    &&& placed_result(pre, post, value, owner, loc)
    &&& exists|idx: int|
        0 <= idx < pre.grid.moves().len() && pre.grid.moves()[idx] == loc && post.grid.moves()
            == pre.grid.moves().remove(idx)
}

/// Removing one item of a list without repeats, the later items moving up,
/// keeps the other items, each once, and keeps an increasing list increasing.
pub proof fn lemma_removed(s: Seq<usize>, idx: int)
    requires
        0 <= idx < s.len(),
        forall|i: int, j: int| 0 <= i < j < s.len() ==> s[i] != s[j],
    ensures
        s.remove(idx).len() == s.len() - 1,
        forall|i: int, j: int| 0 <= i < j < s.remove(idx).len() ==> s.remove(idx)[i] != s.remove(idx)[j],
        forall|c: usize| #[trigger] s.remove(idx).contains(c) <==> (s.contains(c) && c != s[idx]),
        forall|i: int| 0 <= i < s.remove(idx).len() ==> s.contains(#[trigger] s.remove(idx)[i]),
        increasing(s) ==> increasing(s.remove(idx)),
{
    let r = s.remove(idx);
    s.remove_ensures(idx);
    assert forall|i: int| 0 <= i < r.len() implies #[trigger] r[i] == (if i < idx {
        s[i]
    } else {
        s[i + 1]
    }) by {}
    assert forall|i: int, j: int| 0 <= i < j < r.len() implies r[i] != r[j] by {
        let a = if i < idx { i } else { i + 1 };
        let b = if j < idx { j } else { j + 1 };
        assert(r[i] == s[a] && r[j] == s[b] && a < b);
    }
    assert forall|c: usize| #[trigger] r.contains(c) <==> (s.contains(c) && c != s[idx]) by {
        if r.contains(c) {
            let i = choose|i: int| 0 <= i < r.len() && r[i] == c;
            let a = if i < idx { i } else { i + 1 };
            assert(s[a] == c && a != idx);
        }
        if s.contains(c) && c != s[idx] {
            let a = choose|a: int| 0 <= a < s.len() && s[a] == c;
            let i = if a < idx { a } else { a - 1 };
            assert(r[i] == c);
        }
    }
    assert forall|i: int| 0 <= i < r.len() implies s.contains(#[trigger] r[i]) by {
        let a = if i < idx { i } else { i + 1 };
        assert(s[a] == r[i]);
    }
    if increasing(s) {
        assert forall|i: int, j: int| 0 <= i < j < r.len() implies r[i] < r[j] by {
            let a = if i < idx { i } else { i + 1 };
            let b = if j < idx { j } else { j + 1 };
            assert(r[i] == s[a] && r[j] == s[b] && a < b);
        }
    }
}

impl Clone for Game {
    /// A copy of the game.
    fn clone(&self) -> (r: Self)
        ensures
            r.grid.values == self.grid.values,
            r.grid.owners == self.grid.owners,
            r.grid.takens == self.grid.takens,
            r.grid.moves() == self.grid.moves(),
            move_list(r.grid.valid_moves_indices) == move_list(self.grid.valid_moves_indices),
            r.grid.adjacency == self.grid.adjacency,
            r.grid.turn == self.grid.turn,
            r.players == self.players,
            r.moves == self.moves,
            r.absolute_turn == self.absolute_turn,
    {
        Game {
            grid: self.grid.clone(),
            players: self.players,
            moves: self.moves,
            absolute_turn: self.absolute_turn,
        }
    }
}

/// A board where nobody owns a cell gives every player a total of 0.
proof fn lemma_owned_sum_unowned(values: Seq<u8>, owners: Seq<u8>, p: int, n: int)
    requires
        p >= 1,
        0 <= n <= owners.len(),
        forall|c: int| 0 <= c < n ==> owners[c] == 0,
    ensures
        owned_sum(values, owners, p, n) == 0,
    decreases n,
{
    if n > 0 {
        lemma_owned_sum_unowned(values, owners, p, n - 1);
    }
}

impl Game {
    /// A new game on a board whose taken cells are `takens` (the holes):
    /// player `k + 1` gets move type `config.player_movetypes[k]` and a
    /// shuffled bank of rolls up to `config.roll_max`.
    pub fn new(config: &Config, takens: [bool; GRID_SIZE]) -> (r: Game)
        requires
            config.roll_max > 0,
        ensures
            r.wf(),
            r.grid.takens@ == takens@,
            r.grid.moves() == free_cells(takens@, GRID_SIZE as int),
            forall|c: int| 0 <= c < GRID_SIZE ==> #[trigger] r.grid.values@[c] == 0 && r.grid.owners@[c] == 0,
            r.grid.turn == 0,
            forall|k: int|
                #![trigger r.players@[k]]
                0 <= k < PLAYER_NUMBER ==> {
                    &&& r.players@[k].move_type == config.player_movetypes@[k]
                    &&& r.players@[k].score == 0
                    &&& r.players@[k].turn == 0
                    &&& r.players@[k].numbank@.to_multiset() == unshuffled_bank(config.roll_max).to_multiset()
                    &&& forall|i: int| 0 <= i < NUMBANK_SIZE ==> 1 <= #[trigger] r.players@[k].numbank@[i] <= config.roll_max
                },
            r.moves == 0,
            r.absolute_turn == 0,
    {
        let first = Player::init(1, config.player_movetypes[0], config.roll_max);
        let mut players: [Player; PLAYER_NUMBER] = [first; PLAYER_NUMBER];
        let mut pnum: usize = 1;
        while pnum < PLAYER_NUMBER
            invariant
                1 <= pnum <= PLAYER_NUMBER,
                config.roll_max > 0,
                forall|k: int|
                    #![trigger players@[k]]
                    0 <= k < pnum ==> {
                        &&& players@[k].id == k + 1
                        &&& players@[k].move_type == config.player_movetypes@[k]
                        &&& players@[k].score == 0
                        &&& players@[k].turn == 0
                        &&& players@[k].numbank@.to_multiset() == unshuffled_bank(config.roll_max).to_multiset()
                        &&& forall|i: int| 0 <= i < NUMBANK_SIZE ==> 1 <= #[trigger] players@[k].numbank@[i] <= config.roll_max
                    },
            decreases PLAYER_NUMBER - pnum,
        {
            players[pnum] = Player::init((pnum + 1) as u8, config.player_movetypes[pnum], config.roll_max);
            pnum = pnum + 1;
        }
        let grid = Grid::init(takens);
        let r = Game { grid: grid, players: players, moves: 0, absolute_turn: 0 };
        proof {
            assert forall|c: int| 0 <= c < GRID_SIZE implies #[trigger] r.grid.owners@[c] == 0 by {
                assert(r.grid.values@[c] == 0);
            }
            assert forall|k: int| 0 <= k < PLAYER_NUMBER implies #[trigger] r.players@[k].score == r.grid.owned_total(k + 1) by {
                lemma_owned_sum_unowned(r.grid.values@, r.grid.owners@, k + 1, GRID_SIZE as int);
                assert(r.players@[k].score == 0);
            }
            assert forall|k: int| 0 <= k < PLAYER_NUMBER implies #[trigger] r.players@[k].id == k + 1 by {
                assert(r.players@[k].id == k + 1);
            }
        }
        r
    }

    /// Well-formedness: the board is well formed, player `k` (from 0) has
    /// number `k + 1`, and each player's score is the total value it owns.
    pub open spec fn wf(&self) -> bool {
        &&& self.grid.wf()
        &&& forall|k: int| 0 <= k < PLAYER_NUMBER ==> #[trigger] self.players@[k].id == k + 1
        &&& forall|k: int|
            0 <= k < PLAYER_NUMBER ==> #[trigger] self.players@[k].score == self.grid.owned_total(k + 1)
    }

    /// A cell is a hole when it is taken but owned by nobody.
    pub fn is_hole(taken: bool, owner: u8) -> (r: bool)
        ensures
            r == (taken && owner == 0),
    {
        taken && owner == 0
    }

    /// Takes a cell out of the list of free cells: the first position that
    /// holds it receives the last item.
    pub fn remove_valid_tile(&mut self, location: usize)
        requires
            old(self).grid.moves().contains(location),
        ensures
            exists|idx: int|
                0 <= idx < old(self).grid.moves().len() && old(self).grid.moves()[idx] == location
                    && (forall|i: int| 0 <= i < idx ==> old(self).grid.moves()[i] != location)
                    && final(self).grid.moves() == swap_removed(old(self).grid.moves(), idx),
            final(self).grid.values == old(self).grid.values,
            final(self).grid.owners == old(self).grid.owners,
            final(self).grid.takens == old(self).grid.takens,
            final(self).grid.valid_moves_indices == old(self).grid.valid_moves_indices,
            final(self).grid.adjacency == old(self).grid.adjacency,
            final(self).grid.turn == old(self).grid.turn,
            final(self).players == old(self).players,
            final(self).moves == old(self).moves,
            final(self).absolute_turn == old(self).absolute_turn,
    {
        let len = moves_len(&self.grid.valid_moves);
        let mut idx: usize = 0;
        while idx < len && moves_get(&self.grid.valid_moves, idx) != location
            invariant
                len == self.grid.moves().len(),
                idx <= len,
                self.grid.moves().contains(location),
                forall|i: int| 0 <= i < idx ==> self.grid.moves()[i] != location,
            decreases len - idx,
        {
            idx = idx + 1;
        }
        proof {
            if idx == len {
                let i = choose|i: int| 0 <= i < self.grid.moves().len() && self.grid.moves()[i] == location;
                assert(self.grid.moves()[i] != location);
            }
        }
        let _removed = moves_swap_remove(&mut self.grid.valid_moves, idx);
    }

    /// Takes a cell out of a list of free cells kept in increasing order,
    /// found by binary search in fewer steps than there are cells; the list
    /// stays in increasing order.
    pub fn remove_valid_tile_sorted(&mut self, location: usize)
        requires
            old(self).grid.moves().contains(location),
            forall|i: int, j: int|
                0 <= i < j < old(self).grid.moves().len() ==> old(self).grid.moves()[i] < old(self).grid.moves()[j],
        ensures
            exists|idx: int|
                0 <= idx < old(self).grid.moves().len() && old(self).grid.moves()[idx] == location
                    && final(self).grid.moves() == old(self).grid.moves().remove(idx),
            final(self).grid.values == old(self).grid.values,
            final(self).grid.owners == old(self).grid.owners,
            final(self).grid.takens == old(self).grid.takens,
            final(self).grid.valid_moves_indices == old(self).grid.valid_moves_indices,
            final(self).grid.adjacency == old(self).grid.adjacency,
            final(self).grid.turn == old(self).grid.turn,
            final(self).players == old(self).players,
            final(self).moves == old(self).moves,
            final(self).absolute_turn == old(self).absolute_turn,
    {
        let ghost m = self.grid.moves();
        let ghost target = choose|k: int| 0 <= k < m.len() && m[k] == location;
        let len = moves_len(&self.grid.valid_moves);
        let mut lo: usize = 0;
        let mut hi: usize = len - 1;
        let mut mid: usize = lo + (hi - lo) / 2;
        let mut v = moves_get(&self.grid.valid_moves, mid);
        let ghost mut itr: int = 0;
        while v != location
            invariant
                itr + (hi - lo) < len,
                len <= GRID_SIZE,
                m == self.grid.moves(),
                *self == *old(self),
                len == m.len(),
                0 <= target < len,
                m[target] == location,
                forall|i: int, j: int| 0 <= i < j < m.len() ==> m[i] < m[j],
                lo <= target <= hi,
                hi < len,
                lo <= mid <= hi,
                v == m[mid as int],
            decreases hi - lo,
        {
            if v < location {
                lo = mid + 1;
            } else {
                hi = mid - 1;
            }
            mid = lo + (hi - lo) / 2;
            v = moves_get(&self.grid.valid_moves, mid);
            proof {
                itr = itr + 1;
            }
        }
        assert(itr < GRID_SIZE);
        proof {
            if mid != target {
                if mid < target {
                    assert(m[mid as int] < m[target]);
                } else {
                    assert(m[target] < m[mid as int]);
                }
            }
        }
        let _removed = moves_remove(&mut self.grid.valid_moves, mid);
    }

    /// Places a tile of `value` for player `owner` on `location`: the cell is
    /// taken and owned, leaves the free list, its neighbours react, the
    /// player's tile count and score go up, and the board's turn advances.
    pub fn add(&mut self, value: u8, owner: u8, location: usize)
        requires
            old(self).wf(),
            location < GRID_SIZE,
            !old(self).grid.takens@[location as int],
            1 <= owner <= PLAYER_NUMBER,
            old(self).players@[owner - 1].turn < usize::MAX,
            old(self).grid.turn < usize::MAX,
            reinforce_ok(old(self).grid, location as int, owner),
        ensures
            final(self).wf(),
            add_result(*old(self), *final(self), value, owner, location as int),
            final(self).moves == old(self).moves,
            final(self).absolute_turn == old(self).absolute_turn,
    {
        self.place(value, owner, location, false);
    }

    /// As `add`, on a list of free cells kept in increasing order: the cell
    /// is found by binary search and leaves the list, which stays in
    /// increasing order.
    pub fn add_sorted(&mut self, value: u8, owner: u8, location: usize)
        requires
            old(self).wf(),
            increasing(old(self).grid.moves()),
            location < GRID_SIZE,
            !old(self).grid.takens@[location as int],
            1 <= owner <= PLAYER_NUMBER,
            old(self).players@[owner - 1].turn < usize::MAX,
            old(self).grid.turn < usize::MAX,
            reinforce_ok(old(self).grid, location as int, owner),
        ensures
            final(self).wf(),
            increasing(final(self).grid.moves()),
            add_sorted_result(*old(self), *final(self), value, owner, location as int),
            final(self).moves == old(self).moves,
            final(self).absolute_turn == old(self).absolute_turn,
    {
        self.place(value, owner, location, true);
    }

    /// Places a tile; the cell leaves the free list by binary search, the
    /// order kept (`keep_order`), or by swapping the last free cell in.
    #[verifier::spinoff_prover]
    fn place(&mut self, value: u8, owner: u8, location: usize, keep_order: bool)
        requires
            old(self).wf(),
            keep_order ==> increasing(old(self).grid.moves()),
            location < GRID_SIZE,
            !old(self).grid.takens@[location as int],
            1 <= owner <= PLAYER_NUMBER,
            old(self).players@[owner - 1].turn < usize::MAX,
            old(self).grid.turn < usize::MAX,
            reinforce_ok(old(self).grid, location as int, owner),
        ensures
            final(self).wf(),
            !keep_order ==> add_result(*old(self), *final(self), value, owner, location as int),
            keep_order ==> add_sorted_result(*old(self), *final(self), value, owner, location as int),
            keep_order ==> increasing(final(self).grid.moves()),
            final(self).moves == old(self).moves,
            final(self).absolute_turn == old(self).absolute_turn,
    {
        let ghost pre = *self;
        proof {
            lemma_neighbors(location as int);
        }
        self.grid.values[location] = value;
        self.grid.owners[location] = owner;
        self.grid.takens[location] = true;
        proof {
            assert(!pre.grid.moves().contains(location) ==> pre.grid.takens@[location as int]);
        }
        if keep_order {
            self.remove_valid_tile_sorted(location);
        } else {
            self.remove_valid_tile(location);
        }
        let ghost placed = *self;
        let ghost rm = pre.grid.moves();
        proof {
            let pm = placed.grid.moves();
            if keep_order {
                let i = choose|i: int| 0 <= i < rm.len() && rm[i] == location && pm == rm.remove(i);
                lemma_removed(rm, i);
            } else {
                let i = choose|i: int|
                    0 <= i < rm.len() && rm[i] == location && (forall|j: int| 0 <= j < i ==> rm[j] != location)
                        && pm == swap_removed(rm, i);
                lemma_swap_removed(rm, i);
            }
            assert(pm.len() == rm.len() - 1);
            assert(forall|i: int, j: int| 0 <= i < j < pm.len() ==> pm[i] != pm[j]);
            assert(forall|c: usize| #[trigger] pm.contains(c) <==> (rm.contains(c) && c != location));
            assert(forall|i: int| 0 <= i < pm.len() ==> rm.contains(#[trigger] pm[i]));
        }
        let ghost pv = placed_values(pre.grid, location as int, value);
        let ghost po = placed_owners(pre.grid, location as int, owner);
        let ghost nb = neighbors(location as int);
        proof {
            assert(placed.grid.values@ == pv);
            assert(placed.grid.owners@ == po);
            assert(pre.grid.owners@[location as int] == 0);
            assert forall|p: int|
                #![trigger owned_sum(pv, po, p, GRID_SIZE as int)]
                1 <= p <= PLAYER_NUMBER implies owned_sum(pv, po, p, GRID_SIZE as int) == pre.grid.owned_total(p) + contribution(
                    value,
                    owner,
                    p,
                ) by {
                lemma_owned_sum_update(pre.grid.values@, pre.grid.owners@, p, GRID_SIZE as int, location as int, value, owner);
            }
            let rv = react_values(pv, po, nb, owner);
            let ro = react_owners(pv, po, nb, owner, value);
            assert(!nb.contains(location)) by {
                if nb.contains(location) {
                    let i = choose|i: int| 0 <= i < nb.len() && nb[i] == location;
                }
            }
            assert(rv[location as int] == value && ro[location as int] == owner);
            assert forall|p: int|
                #![trigger owned_sum(rv, ro, p, GRID_SIZE as int)]
                1 <= p <= PLAYER_NUMBER implies 0 <= owned_sum(rv, ro, p, GRID_SIZE as int) <= 255
                    * GRID_SIZE && (p == owner ==> value <= owned_sum(rv, ro, p, GRID_SIZE as int)) by {
                lemma_owned_sum_bounds(rv, ro, p, GRID_SIZE as int);
                assert(contribution(rv[location as int], ro[location as int], p) <= owned_sum(rv, ro, p, GRID_SIZE as int));
            }
            assert forall|k: int| 0 <= k < PLAYER_NUMBER implies #[trigger] pre.players@[k].score <= i16::MAX by {
                lemma_owned_sum_bounds(pre.grid.values@, pre.grid.owners@, k + 1, GRID_SIZE as int);
            }
            assert forall|i: int|
                0 <= i < nb.len() && po[nb[i] as int] == owner implies #[trigger] pv[nb[i] as int] < 255 by {
                assert(nb[i] != location);
                assert(pre.grid.owners@[nb[i] as int] == owner ==> pre.grid.values@[nb[i] as int] < 255);
            }
        }
        self.grid.update_neighbors(value, owner, location, &mut self.players);
        let idx = (owner - 1) as usize;
        assert(self.players@[idx as int].turn == pre.players@[idx as int].turn);
        let mut pl = self.players[idx];
        pl.turn = pl.turn + 1;
        pl.score = pl.score + value as usize;
        self.players[idx] = pl;
        self.grid.turn = self.grid.turn + 1;
        proof {
            let ghost g = self.grid;
            assert(g.moves() == placed.grid.moves());
            assert forall|c: usize| c < GRID_SIZE implies (#[trigger] g.moves().contains(c)
                <==> !g.takens@[c as int]) by {
                assert(pre.grid.moves().contains(c) <==> !pre.grid.takens@[c as int]);
            }
            assert(g.moves().len() <= GRID_SIZE);
            assert forall|i: int| 0 <= i < g.moves().len() implies #[trigger] g.moves()[i] < GRID_SIZE by {
                assert(rm.contains(g.moves()[i]));
            }
            assert forall|c: int| 0 <= c < GRID_SIZE implies #[trigger] g.owners@[c] <= PLAYER_NUMBER && (
            g.owners@[c] != 0 ==> g.takens@[c]) by {
                assert(pre.grid.owners@[c] <= PLAYER_NUMBER);
                assert(pre.grid.owners@[c] != 0 ==> pre.grid.takens@[c]);
                if c != location {
                    assert(po[c] == pre.grid.owners@[c]);
                    assert(g.owners@[c] == (if nb.contains(c as usize) {
                        reacted_owner(po[c], pv[c], owner, value)
                    } else {
                        po[c]
                    }));
                }
            }
            assert forall|k: int|
                0 <= k < PLAYER_NUMBER implies #[trigger] self.players@[k].score == self.grid.owned_total(
                k + 1,
            ) by {
                assert(pre.players@[k].score == pre.grid.owned_total(k + 1));
            }
            assert forall|k: int| 0 <= k < PLAYER_NUMBER implies #[trigger] self.players@[k].id == k + 1 by {
                assert(pre.players@[k].id == k + 1);
            }
            assert(placed_result(pre, *self, value, owner, location as int));
        }
    }

    /// Each player's score: as the players record it (`from_score`), or as
    /// the board shows it (the total value of the player's cells).
    pub fn get_scores(&self, from_score: bool) -> (r: [usize; PLAYER_NUMBER])
        ensures
            from_score ==> r@ == scores_from_players(*self),
            !from_score ==> forall|k: int| 0 <= k < PLAYER_NUMBER ==> #[trigger] r@[k] == scores_from_board(*self)[k],
    {
        let mut scores: [usize; PLAYER_NUMBER] = [0usize; PLAYER_NUMBER];
        let mut k: usize = 0;
        while k < PLAYER_NUMBER
            invariant
                k <= PLAYER_NUMBER,
                forall|q: int| 0 <= q < k ==> #[trigger] scores@[q] == (if from_score {
                    self.players@[q].score as int
                } else {
                    self.grid.owned_total(q + 1)
                }),
            decreases PLAYER_NUMBER - k,
        {
            if from_score {
                scores[k] = self.players[k].score;
            } else {
                let player_number = (k + 1) as u8;
                let mut pscore: usize = 0;
                let mut location: usize = 0;
                while location < GRID_SIZE
                    invariant
                        location <= GRID_SIZE,
                        player_number == k + 1,
                        pscore == owned_sum(self.grid.values@, self.grid.owners@, k + 1, location as int),
                        pscore <= 255 * location,
                    decreases GRID_SIZE - location,
                {
                    if self.grid.owners[location] == player_number {
                        pscore = pscore + self.grid.values[location] as usize;
                    }
                    location = location + 1;
                }
                scores[k] = pscore;
            }
            k = k + 1;
        }
        proof {
            if from_score {
                assert(scores@ =~= scores_from_players(*self));
            }
        }
        scores
    }

    /// The winner: the number of the player with the highest recorded score;
    /// among equal highest scores, the last player.
    pub fn get_winner(&self) -> (r: u8)
        ensures
            1 <= r <= PLAYER_NUMBER,
            forall|k: int| 0 <= k < PLAYER_NUMBER ==> #[trigger] self.players@[k].score <= self.players@[r - 1].score,
            forall|k: int| r - 1 < k < PLAYER_NUMBER ==> #[trigger] self.players@[k].score < self.players@[r - 1].score,
    {
        let scores = self.get_scores(true);
        let mut best: usize = 0;
        let mut k: usize = 1;
        while k < PLAYER_NUMBER
            invariant
                1 <= k <= PLAYER_NUMBER,
                best < k,
                scores@ == scores_from_players(*self),
                forall|q: int| 0 <= q < k ==> scores@[q] <= scores@[best as int],
                forall|q: int| best < q < k ==> scores@[q] < scores@[best as int],
            decreases PLAYER_NUMBER - k,
        {
            if scores[k] >= scores[best] {
                best = k;
            }
            k = k + 1;
        }
        assert forall|q: int| 0 <= q < PLAYER_NUMBER implies #[trigger] self.players@[q].score <= self.players@[best as int].score
            && (best < q ==> self.players@[q].score < self.players@[best as int].score) by {
            assert(scores@[q] == self.players@[q].score);
            assert(scores@[best as int] == self.players@[best as int].score);
        }
        ((best + 1) as u8)
    }
}

impl Game {
    /// A copy of the cells' values.
    pub fn get_raw_values(&self) -> (r: [u8; GRID_SIZE])
        ensures
            r == self.grid.values,
    {
        self.grid.values
    }

    /// A copy of the cells' owners.
    pub fn get_raw_owners(&self) -> (r: [u8; GRID_SIZE])
        ensures
            r == self.grid.owners,
    {
        self.grid.owners
    }

    /// A copy of which cells are taken.
    pub fn get_raw_takens(&self) -> (r: [bool; GRID_SIZE])
        ensures
            r == self.grid.takens,
    {
        self.grid.takens
    }

    /// The roll of player `owner` at the board's turn count.
    pub fn roll_py(&self, owner: u8) -> (r: u8)
        requires
            1 <= owner <= PLAYER_NUMBER,
            self.grid.turn < NUMBANK_SIZE,
        ensures
            r == self.players@[owner - 1].numbank@[self.grid.turn as int],
    {
        self.players[(owner as usize) - 1].numbank[self.grid.turn]
    }

    /// Whether no free cell is left.
    pub fn is_terminal_py(&self) -> (r: bool)
        ensures
            r == (self.grid.moves().len() == 0),
    {
        self.grid.is_terminal()
    }
}

/// The scores the players record are the scores the board shows, in every
/// well-formed game.
pub proof fn lemma_scores_agree(g: Game)
    requires
        g.wf(),
    ensures
        forall|k: int| 0 <= k < PLAYER_NUMBER ==> #[trigger] scores_from_players(g)[k] == scores_from_board(g)[k],
{
}

} // verus!
