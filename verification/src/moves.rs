//! How players choose moves: at random, greedily, and by random playouts.
use vstd::prelude::*;

use crate::constants::{Config, GRID_SIZE, NUMBANK_SIZE, PLAYER_NUMBER, TWO_POW_32};
use crate::game::{add_result, reinforce_ok, Game};
use crate::grid::{lemma_neighbors, neighbors, Grid};
use crate::player::Player;
use crate::valid_moves::{move_list, moves_choose, moves_get, moves_len};

verus! {

/// What a neighbour owned by `own` and holding `val` is worth to `owner`
/// placing a tile of `value`: nothing when unowned, 1 when it is the owner's
/// own, `value` when it can be captured, nothing otherwise.
pub open spec fn move_gain(own: u8, val: u8, owner: u8, value: u8) -> int {
    if own == 0 {
        0
    } else if own == owner {
        1
    } else if val < value {
        value as int
    } else {
        0
    }
}

/// The worth of the first `k` cells of `nb` for `owner` placing `value`.
pub open spec fn move_score_upto(g: Grid, nb: Seq<usize>, k: int, owner: u8, value: u8) -> int
    decreases k,
{
    if k <= 0 {
        0
    } else {
        move_score_upto(g, nb, k - 1, owner, value) + move_gain(
            g.owners@[nb[k - 1] as int],
            g.values@[nb[k - 1] as int],
            owner,
            value,
        )
    }
}

/// The worth of placing a tile of `value` for `owner` on `loc`: the sum of
/// what its neighbours are worth.
pub open spec fn move_score(g: Grid, loc: int, owner: u8, value: u8) -> int {
    move_score_upto(g, neighbors(loc), neighbors(loc).len() as int, owner, value)
}

proof fn lemma_move_score_mono(g: Grid, nb: Seq<usize>, j: int, k: int, owner: u8, value: u8)
    requires
        0 <= j <= k,
    ensures
        0 <= move_score_upto(g, nb, j, owner, value) <= move_score_upto(g, nb, k, owner, value),
    decreases k,
{
    if k > j {
        lemma_move_score_mono(g, nb, j, k - 1, owner, value);
    } else if k > 0 {
        lemma_move_score_mono(g, nb, 0, k - 1, owner, value);
    }
}

proof fn lemma_move_score_upto_change(
    g: Grid,
    g2: Grid,
    nb: Seq<usize>,
    k: int,
    c: int,
    owner: u8,
    value: u8,
    delta: int,
)
    requires
        0 <= k <= nb.len(),
        0 <= c < GRID_SIZE,
        forall|i: int| 0 <= i < nb.len() ==> #[trigger] nb[i] < GRID_SIZE,
        forall|i: int, j: int| 0 <= i < j < nb.len() ==> nb[i] != nb[j],
        g2.owners@ == g.owners@.update(c, g2.owners@[c]),
        g2.values@ == g.values@.update(c, g2.values@[c]),
        delta == move_gain(g2.owners@[c], g2.values@[c], owner, value) - move_gain(
            g.owners@[c],
            g.values@[c],
            owner,
            value,
        ),
    ensures
        move_score_upto(g2, nb, k, owner, value) == move_score_upto(g, nb, k, owner, value) + (if nb.take(
            k,
        ).contains(c as usize) {
            delta
        } else {
            0
        }),
    decreases k,
{
    if k > 0 {
        lemma_move_score_upto_change(g, g2, nb, k - 1, c, owner, value, delta);
        let t = nb.take(k);
        let t0 = nb.take(k - 1);
        assert(t == t0.push(nb[k - 1]));
        if nb[k - 1] == c as usize {
            assert(t[k - 1] == c as usize);
            assert(t.contains(c as usize));
            assert(!t0.contains(c as usize)) by {
                if t0.contains(c as usize) {
                    let i = choose|i: int| 0 <= i < t0.len() && t0[i] == c as usize;
                    assert(nb[i] == nb[k - 1]);
                }
            }
        } else {
            assert(t.contains(c as usize) == t0.contains(c as usize)) by {
                if t.contains(c as usize) {
                    let i = choose|i: int| 0 <= i < t.len() && t[i] == c as usize;
                    assert(t0[i] == c as usize);
                }
                if t0.contains(c as usize) {
                    let i = choose|i: int| 0 <= i < t0.len() && t0[i] == c as usize;
                    assert(t[i] == c as usize);
                }
            }
        }
    }
}

/// How one neighbour counts in the worth of a move: when a free neighbour
/// `c` of `loc` becomes a cell of `own` holding `val` and nothing else
/// changes, the worth for `owner` placing `value` goes up by 1 if the cell is
/// the owner's own, whatever its value; by `value` if it is another player's
/// and holds strictly less; and not at all otherwise.
pub proof fn lemma_move_score_neighbour(
    g: Grid,
    g2: Grid,
    loc: int,
    c: int,
    owner: u8,
    value: u8,
)
    requires
        0 <= c < GRID_SIZE,
        owner != 0,
        neighbors(loc).contains(c as usize),
        g.owners@[c] == 0,
        g2.owners@ == g.owners@.update(c, g2.owners@[c]),
        g2.values@ == g.values@.update(c, g2.values@[c]),
    ensures
        g2.owners@[c] == owner ==> move_score(g2, loc, owner, value) == move_score(g, loc, owner, value) + 1,
        g2.owners@[c] != 0 && g2.owners@[c] != owner && g2.values@[c] < value ==> move_score(g2, loc, owner, value)
            == move_score(g, loc, owner, value) + value,
        g2.owners@[c] != owner && g2.values@[c] >= value ==> move_score(g2, loc, owner, value) == move_score(
            g,
            loc,
            owner,
            value,
        ),
        g2.owners@[c] == 0 ==> move_score(g2, loc, owner, value) == move_score(g, loc, owner, value),
{
    lemma_neighbors(loc);
    let nb = neighbors(loc);
    let delta = move_gain(g2.owners@[c], g2.values@[c], owner, value) - move_gain(
        g.owners@[c],
        g.values@[c],
        owner,
        value,
    );
    lemma_move_score_upto_change(g, g2, nb, nb.len() as int, c, owner, value, delta);
    assert(nb.take(nb.len() as int) == nb);
}

/// The cell the greedy player picks among the free cells: position `b` of
/// the list scores highest, and no earlier position scores as high.
pub open spec fn greedy_choice(g: Grid, owner: u8, value: u8, b: int) -> bool {
    &&& 0 <= b < g.moves().len()
    &&& forall|i: int|
        0 <= i < g.moves().len() ==> #[trigger] move_score(g, g.moves()[i] as int, owner, value) <= move_score(
            g,
            g.moves()[b] as int,
            owner,
            value,
        )
    &&& forall|i: int|
        0 <= i < b ==> #[trigger] move_score(g, g.moves()[i] as int, owner, value) < move_score(
            g,
            g.moves()[b] as int,
            owner,
            value,
        )
}

/// Whether every free cell lets `owner` place there without a neighbour's
/// value overflowing.
pub open spec fn all_moves_reinforce_ok(g: Grid, owner: u8) -> bool {
    forall|i: int| 0 <= i < g.moves().len() ==> #[trigger] reinforce_ok(g, g.moves()[i] as int, owner)
}

/// What a move by `player` needs: a free cell, a roll left in its bank, a
/// valid number, room in the counters, and no value that would overflow.
pub open spec fn move_ready(g: Game, player: Player) -> bool {
    &&& g.wf()
    &&& g.grid.moves().len() > 0
    &&& player.turn < NUMBANK_SIZE
    &&& 1 <= player.id <= PLAYER_NUMBER
    &&& g.players@[player.id - 1].turn < usize::MAX
    &&& g.grid.turn < usize::MAX
    &&& all_moves_reinforce_ok(g.grid, player.id)
}

/// `player`'s next roll exists and, placed on any free cell of `g`, fits
/// with what that cell can gain afterwards.
pub open spec fn roll_fits_everywhere(g: Game, player: Player) -> bool {
    &&& player.turn < NUMBANK_SIZE
    &&& forall|l: int|
        0 <= l < g.grid.moves().len() ==> player.numbank@[player.turn as int] + #[trigger] free_listers(
            g,
            g.grid.moves()[l] as int,
        ) <= 255
}

/// Whether the players' banks fit a random playout: the player to move next,
/// `next`, and the other player can each roll for every move that is theirs
/// while the board fills up, taking turns.
pub open spec fn turns_fit(g: Game, next: int) -> bool {
    let r = g.grid.moves().len() as int;
    &&& g.players@[next].turn + (r + 1) / 2 <= NUMBANK_SIZE
    &&& g.players@[(next + 1) % (PLAYER_NUMBER as int)].turn + r / 2 <= NUMBANK_SIZE
}

/// A tile placed on cell `m` acts on cell `c`: `c` is among `m`'s neighbours.
pub open spec fn lists(m: usize, c: int) -> bool {
    neighbors(m as int).contains(c as usize)
}

/// How many cells of `s` act on cell `c`.
pub open spec fn listers_in(s: Seq<usize>, c: int) -> int
    decreases s.len(),
{
    if s.len() == 0 {
        0
    } else {
        listers_in(s.drop_last(), c) + (if lists(s.last(), c) {
            1int
        } else {
            0int
        })
    }
}

/// How many free cells of `g` act on cell `c`: each can reinforce `c` once,
/// so `c` can gain at most this much before the board is full.
pub open spec fn free_listers(g: Game, c: int) -> int {
    listers_in(g.grid.moves(), c)
}

/// Whether a random playout from `g`, with player `next + 1` to move, runs
/// to the end without overflow: the game is well formed and the banks fit;
/// every roll still to be used, placed on a free cell, plus what that cell can
/// gain afterwards fits in a byte; so does every value plus what its cell can
/// still gain.
pub open spec fn playout_ready(g: Game, next: int) -> bool {
    &&& g.wf()
    &&& 0 <= next < PLAYER_NUMBER
    &&& turns_fit(g, next)
    &&& forall|k: int, i: int, l: int|
        0 <= k < PLAYER_NUMBER && g.players@[k].turn <= i < NUMBANK_SIZE && 0 <= l < g.grid.moves().len()
            ==> #[trigger] g.players@[k].numbank@[i] + #[trigger] free_listers(g, g.grid.moves()[l] as int)
            <= 255
    &&& forall|c: int| 0 <= c < GRID_SIZE ==> #[trigger] g.grid.values@[c] + free_listers(g, c) <= 255
    &&& g.grid.turn + g.grid.moves().len() <= usize::MAX
}

/// A count of cells is between 0 and the number of cells.
proof fn lemma_listers_bounds(s: Seq<usize>, c: int)
    ensures
        0 <= listers_in(s, c) <= s.len(),
    decreases s.len(),
{
    if s.len() > 0 {
        lemma_listers_bounds(s.drop_last(), c);
    }
}

/// A list holding a cell that acts on `c` counts at least one.
proof fn lemma_listers_positive(s: Seq<usize>, c: int, i: int)
    requires
        0 <= i < s.len(),
        lists(s[i], c),
    ensures
        listers_in(s, c) >= 1,
    decreases s.len(),
{
    lemma_listers_bounds(s.drop_last(), c);
    if i < s.len() - 1 {
        assert(s.drop_last()[i] == s[i]);
        lemma_listers_positive(s.drop_last(), c, i);
    }
}

/// Replacing one cell of a list changes the count by what the two cells do to `c`.
proof fn lemma_listers_update(s: Seq<usize>, idx: int, x: usize, c: int)
    requires
        0 <= idx < s.len(),
    ensures
        listers_in(s.update(idx, x), c) == listers_in(s, c) - (if lists(s[idx], c) {
            1int
        } else {
            0int
        }) + (if lists(x, c) {
            1int
        } else {
            0int
        }),
    decreases s.len(),
{
    let u = s.update(idx, x);
    if idx == s.len() - 1 {
        assert(u.drop_last() == s.drop_last());
    } else {
        assert(u.drop_last() == s.drop_last().update(idx, x));
        assert(s.drop_last()[idx] == s[idx]);
        lemma_listers_update(s.drop_last(), idx, x, c);
    }
}

/// Taking a free cell out of the list takes its action on `c` out of the count.
proof fn lemma_listers_swap_removed(s: Seq<usize>, idx: int, c: int)
    requires
        0 <= idx < s.len(),
    ensures
        listers_in(crate::game::swap_removed(s, idx), c) == listers_in(s, c) - (if lists(s[idx], c) {
            1int
        } else {
            0int
        }),
{
    let u = s.update(idx, s.last());
    if idx == s.len() - 1 {
        assert(u == s);
    } else {
        lemma_listers_update(s, idx, s.last(), c);
        assert(u.last() == s.last());
    }
}

/// Readiness for a playout depends only on the board and the players.
proof fn lemma_ready_copy(a: Game, b: Game, next: int)
    requires
        playout_ready(a, next),
        b.grid.values == a.grid.values,
        b.grid.owners == a.grid.owners,
        b.grid.takens == a.grid.takens,
        b.grid.moves() == a.grid.moves(),
        b.grid.turn == a.grid.turn,
        b.players == a.players,
    ensures
        playout_ready(b, next),
{
    assert forall|c: int| #![trigger free_listers(b, c)] free_listers(b, c) == free_listers(a, c) by {}
    assert(b.wf());
    assert forall|k: int, i: int, l: int|
        0 <= k < PLAYER_NUMBER && b.players@[k].turn <= i < NUMBANK_SIZE && 0 <= l < b.grid.moves().len()
            implies #[trigger] b.players@[k].numbank@[i] + #[trigger] free_listers(b, b.grid.moves()[l] as int)
        <= 255 by {
        assert(a.players@[k].numbank@[i] + free_listers(a, a.grid.moves()[l] as int) <= 255);
    }
    assert forall|c: int| 0 <= c < GRID_SIZE implies #[trigger] b.grid.values@[c] + free_listers(b, c) <= 255 by {
        assert(a.grid.values@[c] + free_listers(a, c) <= 255);
    }
}

/// In a game ready for a playout, any player can place on any free cell:
/// every neighbour of a free cell can still gain one.
pub proof fn lemma_ready_reinforce_ok(g: Game, next: int, loc: int, owner: u8)
    requires
        playout_ready(g, next),
        g.grid.moves().contains(loc as usize),
        0 <= loc < GRID_SIZE,
    ensures
        reinforce_ok(g.grid, loc, owner),
{
    lemma_neighbors(loc);
    let idx = choose|idx: int| 0 <= idx < g.grid.moves().len() && g.grid.moves()[idx] == loc as usize;
    assert forall|j: int|
        0 <= j < neighbors(loc).len() && g.grid.owners@[neighbors(loc)[j] as int] == owner implies #[trigger] g.grid.values@[neighbors(loc)[j] as int] < 255 by {
        let n = neighbors(loc)[j] as int;
        assert(neighbors(loc).contains(n as usize));
        assert(lists(g.grid.moves()[idx], n));
        lemma_listers_positive(g.grid.moves(), n, idx);
        assert(g.grid.values@[n] + free_listers(g, n) <= 255);
    }
}

/// Player `w` (from 1) has the highest score of `g`, and no later player
/// has as high a score.
pub open spec fn is_winner(g: Game, w: int) -> bool {
    &&& 1 <= w <= PLAYER_NUMBER
    &&& forall|k: int| 0 <= k < PLAYER_NUMBER ==> #[trigger] g.players@[k].score <= g.players@[w - 1].score
    &&& forall|k: int| w - 1 < k < PLAYER_NUMBER ==> #[trigger] g.players@[k].score < g.players@[w - 1].score
}

/// A finished game has one winner.
pub proof fn lemma_winner_unique(g: Game, a: int, b: int)
    requires
        is_winner(g, a),
        is_winner(g, b),
    ensures
        a == b,
{
    if a < b {
        assert(g.players@[b - 1].score < g.players@[a - 1].score);
        assert(g.players@[a - 1].score <= g.players@[b - 1].score);
    } else if b < a {
        assert(g.players@[a - 1].score < g.players@[b - 1].score);
        assert(g.players@[b - 1].score <= g.players@[a - 1].score);
    }
}

/// What `m` moves of a playout from `pre`, the players taking turns from
/// `first` (from 0), leave in `post` besides the moves themselves (see
/// `playout`): the game is well formed, the holes stay holes, the board's turn
/// and the players' tile counts went up by the moves made, the banks and move
/// types are unchanged.
pub open spec fn playout_progress(pre: Game, post: Game, first: int, m: int) -> bool {
    let second = (first + 1) % (PLAYER_NUMBER as int);
    &&& post.wf()
    &&& forall|c: int|
        0 <= c < GRID_SIZE && pre.grid.takens@[c] && pre.grid.owners@[c] == 0 ==> #[trigger] post.grid.takens@[c]
            && post.grid.owners@[c] == 0
    &&& post.grid.turn == pre.grid.turn + m
    &&& forall|k: int|
        #![trigger post.players@[k]]
        0 <= k < PLAYER_NUMBER ==> post.players@[k].numbank == pre.players@[k].numbank && post.players@[k].move_type
            == pre.players@[k].move_type && post.players@[k].id == pre.players@[k].id
    &&& post.players@[first].turn == pre.players@[first].turn + (m + 1) / 2
    &&& post.players@[second].turn == pre.players@[second].turn + m / 2
}

/// `a` and `b` hold the same position: the same board, the same list of
/// free cells, and the same players.
pub open spec fn same_position(a: Game, b: Game) -> bool {
    &&& b.grid.values == a.grid.values
    &&& b.grid.owners == a.grid.owners
    &&& b.grid.takens == a.grid.takens
    &&& b.grid.moves() == a.grid.moves()
    &&& move_list(b.grid.valid_moves_indices) == move_list(a.grid.valid_moves_indices)
    &&& b.grid.adjacency == a.grid.adjacency
    &&& b.grid.turn == a.grid.turn
    &&& b.players == a.players
}

/// Move `i` of a chain of positions is by the game's rules: the player whose
/// turn it is, taking turns from `first` (from 0), places its next roll on a
/// free cell `locs[i]` of `states[i]`, giving `states[i + 1]`.
pub open spec fn legal_step(states: Seq<Game>, locs: Seq<int>, first: int, i: int) -> bool {
    let g = states[i];
    let mover = (first + i) % (PLAYER_NUMBER as int);
    &&& g.grid.moves().contains(locs[i] as usize)
    &&& add_result(
        g,
        states[i + 1],
        g.players@[mover].numbank@[g.players@[mover].turn as int],
        (mover + 1) as u8,
        locs[i],
    )
}

/// `states` is a chain of `m` moves by the game's rules from `pre`'s
/// position to `post`, on the cells `locs`.
pub open spec fn playout_chain(
    states: Seq<Game>,
    locs: Seq<int>,
    pre: Game,
    post: Game,
    first: int,
    m: nat,
) -> bool {
    &&& states.len() == m + 1
    &&& locs.len() == m
    &&& same_position(pre, states[0])
    &&& states[m as int] == post
    &&& forall|i: int| 0 <= i < m ==> #[trigger] legal_step(states, locs, first, i)
}

/// `post` is `pre` after `m` moves by the game's rules, the players taking
/// turns from `first` (from 0): each move places the mover's next roll on a
/// free cell (see `add_result`).
pub open spec fn playout(pre: Game, post: Game, first: int, m: nat) -> bool {
    exists|states: Seq<Game>, locs: Seq<int>| #[trigger] playout_chain(states, locs, pre, post, first, m)
}

/// A playout may start from any copy of the position.
proof fn lemma_playout_from_same(a: Game, b: Game, post: Game, first: int, m: nat)
    requires
        same_position(a, b),
        playout(a, post, first, m),
    ensures
        playout(b, post, first, m),
{
    let (states, locs) = choose|states: Seq<Game>, locs: Seq<int>|
        #[trigger] playout_chain(states, locs, a, post, first, m);
    assert(playout_chain(states, locs, b, post, first, m));
}

/// `post` is `pre` played out to the end by the game's rules, the players
/// taking turns from `first` (from 0): each free cell of `pre` received one
/// move (see `playout`), every cell is taken, and the counts moved as
/// `playout_progress` says.
pub open spec fn playout_end(pre: Game, post: Game, first: int) -> bool {
    &&& playout(pre, post, first, pre.grid.moves().len())
    &&& playout_progress(pre, post, first, pre.grid.moves().len() as int)
    &&& post.grid.moves().len() == 0
    &&& forall|c: int| 0 <= c < GRID_SIZE ==> #[trigger] post.grid.takens@[c]
}

/// One more move, by the player whose turn it is, advances the progress of
/// a playout by one.
proof fn lemma_progress_step(
    pre0: Game,
    pre: Game,
    post: Game,
    first: int,
    m: int,
    mover: int,
    value: u8,
    loc: int,
)
    requires
        0 <= first < PLAYER_NUMBER,
        0 <= m,
        playout_progress(pre0, pre, first, m),
        mover == (first + m) % (PLAYER_NUMBER as int),
        pre.wf(),
        post.wf(),
        pre.grid.moves().contains(loc as usize),
        add_result(pre, post, value, (mover + 1) as u8, loc),
    ensures
        playout_progress(pre0, post, first, m + 1),
{
    let second = (first + 1) % (PLAYER_NUMBER as int);
    assert(post.players@[first].turn == pre.players@[first].turn + (if first == mover { 1int } else { 0int }));
    assert(post.players@[second].turn == pre.players@[second].turn + (if second == mover { 1int } else { 0int }));
    assert(!pre.grid.takens@[loc]);
    let pv = crate::game::placed_values(pre.grid, loc, value);
    let po = crate::game::placed_owners(pre.grid, loc, (mover + 1) as u8);
    assert forall|c: int|
        0 <= c < GRID_SIZE && pre0.grid.takens@[c] && pre0.grid.owners@[c] == 0 implies #[trigger] post.grid.takens@[c]
        && post.grid.owners@[c] == 0 by {
        assert(pre.grid.takens@[c] && pre.grid.owners@[c] == 0);
        assert(c != loc);
        assert(po[c] == 0);
        assert(post.grid.owners@[c] == crate::grid::react_owners(pv, po, neighbors(loc), (mover + 1) as u8, value)[c]);
    }
    assert forall|k: int|
        #![trigger post.players@[k]]
        0 <= k < PLAYER_NUMBER implies post.players@[k].numbank == pre0.players@[k].numbank && post.players@[k].move_type
        == pre0.players@[k].move_type && post.players@[k].id == pre0.players@[k].id by {
        assert(pre.players@[k].numbank == pre0.players@[k].numbank);
        assert(post.players@[k].numbank == pre.players@[k].numbank);
    }
}

/// In a game ready for a playout, the next roll of the player whose turn it
/// is, placed on any free cell, fits with what the cell can gain afterwards.
pub proof fn lemma_next_roll_fits(g: Game, next: int, loc: int)
    requires
        playout_ready(g, next),
        g.grid.moves().contains(loc as usize),
        0 <= loc < GRID_SIZE,
    ensures
        g.players@[next].turn < NUMBANK_SIZE,
        g.players@[next].numbank@[g.players@[next].turn as int] + free_listers(g, loc) <= 255,
{
    let l = choose|l: int| 0 <= l < g.grid.moves().len() && g.grid.moves()[l] == loc as usize;
    assert(g.players@[next].numbank@[g.players@[next].turn as int] + free_listers(g, g.grid.moves()[l] as int)
        <= 255);
}

/// In a game ready for a playout, a move by the player whose turn it is
/// keeps the game ready, with the other player to move, when the placed
/// value fits with what its cell can gain afterwards.
pub proof fn lemma_playout_step(pre: Game, post: Game, next: int, loc: int, value: u8)
    requires
        playout_ready(pre, next),
        pre.grid.moves().len() > 0,
        pre.grid.moves().contains(loc as usize),
        0 <= loc < GRID_SIZE,
        post.wf(),
        value + free_listers(pre, loc) <= 255,
        add_result(pre, post, value, (next + 1) as u8, loc),
    ensures
        playout_ready(post, (next + 1) % (PLAYER_NUMBER as int)),
{
    let nb = neighbors(loc);
    lemma_neighbors(loc);
    let idx = choose|idx: int|
        0 <= idx < pre.grid.moves().len() && pre.grid.moves()[idx] == loc && post.grid.moves()
            == crate::game::swap_removed(pre.grid.moves(), idx);
    crate::game::lemma_swap_removed(pre.grid.moves(), idx);
    assert(post.grid.moves().len() == pre.grid.moves().len() - 1);
    let other = (next + 1) % (PLAYER_NUMBER as int);
    assert(post.players@[next].turn == pre.players@[next].turn + 1);
    assert(post.players@[other].turn == pre.players@[other].turn);
    assert(post.players@[(other + 1) % (PLAYER_NUMBER as int)].turn == pre.players@[next].turn + 1);
    assert forall|c: int| #![trigger free_listers(post, c)]
        free_listers(post, c) <= free_listers(pre, c) by {
        lemma_listers_swap_removed(pre.grid.moves(), idx, c);
    }
    assert forall|k: int, i: int, l: int|
        0 <= k < PLAYER_NUMBER && post.players@[k].turn <= i < NUMBANK_SIZE && 0 <= l < post.grid.moves().len()
            implies #[trigger] post.players@[k].numbank@[i] + #[trigger] free_listers(
        post,
        post.grid.moves()[l] as int,
    ) <= 255 by {
        let m = post.grid.moves()[l];
        assert(pre.grid.moves().contains(m));
        let l0 = choose|l0: int| 0 <= l0 < pre.grid.moves().len() && pre.grid.moves()[l0] == m;
        assert(post.players@[k].numbank == pre.players@[k].numbank);
        assert(pre.players@[k].turn <= post.players@[k].turn);
        assert(pre.players@[k].numbank@[i] + free_listers(pre, pre.grid.moves()[l0] as int) <= 255);
        assert(free_listers(post, m as int) <= free_listers(pre, m as int));
    }
    assert forall|c: int| 0 <= c < GRID_SIZE implies #[trigger] post.grid.values@[c] + free_listers(post, c)
        <= 255 by {
        lemma_listers_swap_removed(pre.grid.moves(), idx, c);
        assert(pre.grid.values@[c] + free_listers(pre, c) <= 255);
        if c == loc {
            assert(!nb.contains(loc as usize));
            assert(post.grid.values@[c] == value);
        } else if nb.contains(c as usize) {
            assert(lists(pre.grid.moves()[idx], c));
            assert(post.grid.values@[c] <= pre.grid.values@[c] + 1);
        } else {
            assert(!lists(pre.grid.moves()[idx], c));
            assert(post.grid.values@[c] == pre.grid.values@[c]);
        }
    }
}

/// A fresh game, with no tile placed, can be played out to the end with
/// either player moving first when every roll, placed on a free cell, plus
/// what that cell can gain afterwards fits in a byte.
pub proof fn lemma_fresh_game_ready(g: Game, next: int)
    requires
        g.wf(),
        0 <= next < PLAYER_NUMBER,
        g.grid.turn == 0,
        forall|k: int| 0 <= k < PLAYER_NUMBER ==> #[trigger] g.players@[k].turn == 0,
        forall|c: int| 0 <= c < GRID_SIZE ==> #[trigger] g.grid.values@[c] == 0,
        forall|k: int, i: int, l: int|
            0 <= k < PLAYER_NUMBER && 0 <= i < NUMBANK_SIZE && 0 <= l < g.grid.moves().len()
                ==> #[trigger] g.players@[k].numbank@[i] + #[trigger] free_listers(g, g.grid.moves()[l] as int)
                <= 255,
    ensures
        playout_ready(g, next),
{
    let r = g.grid.moves().len() as int;
    assert(r <= GRID_SIZE);
    assert(g.players@[next].turn == 0);
    assert(g.players@[(next + 1) % (PLAYER_NUMBER as int)].turn == 0);
    assert forall|c: int| 0 <= c < GRID_SIZE implies #[trigger] g.grid.values@[c] + free_listers(g, c) <= 255 by {
        assert(g.grid.values@[c] == 0);
        lemma_listers_bounds(g.grid.moves(), c);
    }
}

/// Each placed tile fills exactly one free cell: the cell leaves the list of
/// free cells, every other free cell stays, and the list shrinks by one.
pub proof fn lemma_add_fills_one_cell(pre: Game, post: Game, value: u8, owner: u8, loc: int)
    requires
        pre.wf(),
        add_result(pre, post, value, owner, loc),
    ensures
        post.grid.moves().len() == pre.grid.moves().len() - 1,
        !post.grid.moves().contains(loc as usize),
        forall|c: usize| c != loc ==> (#[trigger] post.grid.moves().contains(c) <==> pre.grid.moves().contains(c)),
{
    let idx = choose|idx: int|
        0 <= idx < pre.grid.moves().len() && pre.grid.moves()[idx] == loc && post.grid.moves()
            == crate::game::swap_removed(pre.grid.moves(), idx);
    crate::game::lemma_swap_removed(pre.grid.moves(), idx);
}

impl Game {
    /// The worth of placing a tile of `value` for `owner` on `location`.
    pub fn get_score_from_move(&self, location: usize, owner: u8, value: u8) -> (r: u8)
        requires
            location + 11 <= isize::MAX,
            move_score(self.grid, location as int, owner, value) <= u8::MAX,
        ensures
            r == move_score(self.grid, location as int, owner, value),
    {
        let neighbors = Grid::get_neighbors(location);
        proof {
            lemma_neighbors(location as int);
        }
        let ghost nb = neighbors@;
        let mut score: u8 = 0;
        let mut j: usize = 0;
        while j < neighbors.len()
            invariant
                j <= nb.len(),
                nb == neighbors@,
                nb == crate::grid::neighbors(location as int),
                forall|i: int| 0 <= i < nb.len() ==> #[trigger] nb[i] < GRID_SIZE,
                score == move_score_upto(self.grid, nb, j as int, owner, value),
                move_score_upto(self.grid, nb, nb.len() as int, owner, value) <= u8::MAX,
            decreases nb.len() - j,
        {
            let neighbor = neighbors[j];
            let neighbor_owner = self.grid.owners[neighbor];
            proof {
                lemma_move_score_mono(self.grid, nb, j + 1, nb.len() as int, owner, value);
            }
            if neighbor_owner == 0 {
            } else if neighbor_owner == owner {
                score = score + 1;
            } else if self.grid.values[neighbor] < value {
                score = score + value;
            }
            j = j + 1;
        }
        score
    }

    /// Plays the free cell that scores highest for `player` with its next
    /// roll (the first such cell in the list).
    pub fn make_greedy_move(&mut self, player: Player)
        requires
            move_ready(*old(self), player),
            forall|i: int|
                0 <= i < old(self).grid.moves().len() ==> #[trigger] move_score(
                    old(self).grid,
                    old(self).grid.moves()[i] as int,
                    player.id,
                    player.numbank@[player.turn as int],
                ) <= u8::MAX,
        ensures
            final(self).wf(),
            exists|b: int|
                greedy_choice(old(self).grid, player.id, player.numbank@[player.turn as int], b) && add_result(
                    *old(self),
                    *final(self),
                    player.numbank@[player.turn as int],
                    player.id,
                    old(self).grid.moves()[b] as int,
                ),
            final(self).moves == old(self).moves,
            final(self).absolute_turn == old(self).absolute_turn,
    {
        let ghost g = self.grid;
        let value = player.roll();
        let len = moves_len(&self.grid.valid_moves);
        let mut best: usize = 0;
        let mut best_move: usize = moves_get(&self.grid.valid_moves, 0);
        let mut best_score: u8 = 0;
        let mut i: usize = 0;
        while i < len
            invariant
                g == self.grid,
                len == g.moves().len(),
                len > 0,
                i <= len,
                best < len,
                best_move == g.moves()[best as int],
                g.wf(),
                value == player.numbank@[player.turn as int],
                forall|q: int|
                    0 <= q < len ==> #[trigger] move_score(g, g.moves()[q] as int, player.id, value) <= u8::MAX,
                i == 0 ==> best == 0 && best_score == 0,
                i > 0 ==> best < i && best_score == move_score(g, g.moves()[best as int] as int, player.id, value),
                forall|q: int|
                    0 <= q < i ==> #[trigger] move_score(g, g.moves()[q] as int, player.id, value) <= best_score,
                forall|q: int|
                    0 <= q < best ==> #[trigger] move_score(g, g.moves()[q] as int, player.id, value) < best_score,
            decreases len - i,
        {
            let move_choice = moves_get(&self.grid.valid_moves, i);
            let current_score = self.get_score_from_move(move_choice, player.id, value);
            if current_score > best_score {
                best_move = move_choice;
                best_score = current_score;
                best = i;
            }
            i = i + 1;
        }
        proof {
            assert(greedy_choice(g, player.id, value, best as int));
            assert(reinforce_ok(g, g.moves()[best as int] as int, player.id));
            assert(g.moves().contains(best_move));
        }
        self.add(value, player.id, best_move);
    }

    /// Plays a free cell drawn at random for `player` with its next roll.
    pub fn make_random_move(&mut self, player: Player)
        requires
            move_ready(*old(self), player),
        ensures
            final(self).wf(),
            exists|loc: usize|
                old(self).grid.moves().contains(loc) && add_result(
                    *old(self),
                    *final(self),
                    player.numbank@[player.turn as int],
                    player.id,
                    loc as int,
                ),
            final(self).moves == old(self).moves,
            final(self).absolute_turn == old(self).absolute_turn,
    {
        let chosen = moves_choose(&self.grid.valid_moves);
        match chosen {
            Some(chosen_move) => {
                proof {
                    let k = choose|k: int| 0 <= k < self.grid.moves().len() && self.grid.moves()[k] == chosen_move;
                    assert(reinforce_ok(self.grid, self.grid.moves()[k] as int, player.id));
                }
                self.add(player.roll(), player.id, chosen_move);
            },
            None => {},
        }
    }

    /// Plays random moves, the players taking turns from the one after
    /// `starting_player`, until no free cell is left; returns the winner.
    pub fn simulation_loop(&mut self, starting_player: Player) -> (r: u8)
        requires
            1 <= starting_player.id <= PLAYER_NUMBER,
            playout_ready(*old(self), (starting_player.id as int) % (PLAYER_NUMBER as int)),
        ensures
            playout_end(*old(self), *final(self), (starting_player.id as int) % (PLAYER_NUMBER as int)),
            is_winner(*final(self), r as int),
    {
        let ghost pre0 = *self;
        let ghost s0 = (starting_player.id as int) % (PLAYER_NUMBER as int);
        let ghost r0 = self.grid.moves().len() as int;
        let ghost mut states: Seq<Game> = seq![*self];
        let ghost mut locs: Seq<int> = Seq::empty();
        let mut current_idx: usize = (starting_player.id as usize) - 1;
        while !self.grid.is_terminal()
            invariant
                current_idx < PLAYER_NUMBER,
                playout_ready(*self, (current_idx + 1) % (PLAYER_NUMBER as int)),
                playout_progress(pre0, *self, s0, r0 - self.grid.moves().len()),
                playout_chain(states, locs, pre0, *self, s0, (r0 - self.grid.moves().len()) as nat),
                r0 == pre0.grid.moves().len(),
                0 <= s0 < PLAYER_NUMBER,
                0 <= r0 - self.grid.moves().len(),
                (current_idx + 1) % (PLAYER_NUMBER as int) == (s0 + (r0 - self.grid.moves().len())) % (
                PLAYER_NUMBER as int),
            decreases self.grid.moves().len(),
        {
            current_idx = (current_idx + 1) % PLAYER_NUMBER;
            let current_player = self.players[current_idx];
            let ghost pre = *self;
            proof {
                assert(current_player.id == current_idx + 1);
                assert forall|i: int| 0 <= i < pre.grid.moves().len() implies #[trigger] reinforce_ok(
                    pre.grid,
                    pre.grid.moves()[i] as int,
                    current_player.id,
                ) by {
                    let loc = pre.grid.moves()[i] as int;
                    assert(pre.grid.moves().contains(loc as usize));
                    lemma_ready_reinforce_ok(pre, current_idx as int, loc, current_player.id);
                }
            }
            self.make_random_move(current_player);
            proof {
                let loc = choose|loc: usize|
                    pre.grid.moves().contains(loc) && add_result(
                        pre,
                        *self,
                        current_player.numbank@[current_player.turn as int],
                        current_player.id,
                        loc as int,
                    );
                lemma_next_roll_fits(pre, current_idx as int, loc as int);
                lemma_playout_step(
                    pre,
                    *self,
                    current_idx as int,
                    loc as int,
                    current_player.numbank@[current_player.turn as int],
                );
                lemma_add_fills_one_cell(
                    pre,
                    *self,
                    current_player.numbank@[current_player.turn as int],
                    current_player.id,
                    loc as int,
                );
                lemma_progress_step(
                    pre0,
                    pre,
                    *self,
                    s0,
                    r0 - pre.grid.moves().len(),
                    current_idx as int,
                    current_player.numbank@[current_player.turn as int],
                    loc as int,
                );
                let m = (r0 - pre.grid.moves().len()) as nat;
                assert(current_idx as int == (s0 + m) % (PLAYER_NUMBER as int));
                let old_states = states;
                let old_locs = locs;
                states = states.push(*self);
                locs = locs.push(loc as int);
                assert forall|i: int| 0 <= i < m + 1 implies #[trigger] legal_step(states, locs, s0, i) by {
                    if i < m {
                        assert(legal_step(old_states, old_locs, s0, i));
                        assert(states[i] == old_states[i] && states[i + 1] == old_states[i + 1]);
                    } else {
                        assert(states[i] == pre && states[i + 1] == *self);
                    }
                }
                assert(playout_chain(states, locs, pre0, *self, s0, m + 1));
            }
        }
        proof {
            self.grid.lemma_terminal_iff_full();
            assert(playout_chain(states, locs, pre0, *self, s0, r0 as nat));
        }
        self.get_winner()
    }

    /// The winner of one random playout from this position, the players
    /// taking turns from the one after `player`: the game is played out to
    /// the end on a copy, and the winner of that finished game is returned.
    pub fn run_single_rollout(&self, player: Player) -> (r: u8)
        requires
            1 <= player.id <= PLAYER_NUMBER,
            playout_ready(*self, (player.id as int) % (PLAYER_NUMBER as int)),
        ensures
            exists|end: Game|
                playout_end(*self, end, (player.id as int) % (PLAYER_NUMBER as int)) && is_winner(end, r as int),
    {
        let mut copy = self.clone();
        let ghost start = copy;
        proof {
            lemma_ready_copy(*self, copy, (player.id as int) % (PLAYER_NUMBER as int));
        }
        let r = copy.simulation_loop(player);
        proof {
            let s0 = (player.id as int) % (PLAYER_NUMBER as int);
            assert(playout_end(start, copy, s0));
            assert(start.grid.moves() == self.grid.moves());
            assert forall|k: int| 0 <= k < PLAYER_NUMBER implies #[trigger] start.players@[k] == self.players@[k] by {}
            assert(same_position(start, *self));
            lemma_playout_from_same(start, *self, copy, s0, self.grid.moves().len());
            assert(playout_end(*self, copy, s0));
        }
        r
    }

    /// Runs a million random playouts from this position, the players taking
    /// turns from the one after player slot `playerid` (from 0); entry `x`
    /// tells whether that player won playout `x`. (`location` is not used.)
    pub fn test_eval(&self, playerid: u8, location: usize) -> (r: Vec<bool>)
        requires
            (playerid as int) < PLAYER_NUMBER,
            playout_ready(*self, (playerid as int + 1) % (PLAYER_NUMBER as int)),
        ensures
            r@.len() == 1000000,
            exists|ends: Seq<Game>|
                ends.len() == 1000000 && forall|x: int|
                    0 <= x < 1000000 ==> playout_end(*self, #[trigger] ends[x], (playerid as int + 1) % (PLAYER_NUMBER as int))
                        && (r@[x] <==> is_winner(ends[x], playerid as int + 1)),
    {
        let max: usize = 1000000;
        let mut moves: Vec<bool> = Vec::new();
        let player = self.players[playerid as usize];
        assert(player.id == playerid + 1);
        let ghost first = (playerid as int + 1) % (PLAYER_NUMBER as int);
        let ghost mut ends: Seq<Game> = Seq::empty();
        let mut x: usize = 0;
        while x < max
            invariant
                x <= max,
                max == 1000000,
                moves@.len() == x,
                ends.len() == x,
                player == self.players@[playerid as int],
                player.id == playerid + 1,
                (playerid as int) < PLAYER_NUMBER,
                first == (playerid as int + 1) % (PLAYER_NUMBER as int),
                playout_ready(*self, first),
                forall|y: int|
                    0 <= y < x ==> playout_end(*self, #[trigger] ends[y], first) && (moves@[y] <==> is_winner(
                        ends[y],
                        playerid as int + 1,
                    )),
            decreases max - x,
        {
            let w = self.run_single_rollout(player);
            let ghost end = choose|end: Game| playout_end(*self, end, first) && is_winner(end, w as int);
            proof {
                if is_winner(end, playerid as int + 1) {
                    lemma_winner_unique(end, w as int, playerid as int + 1);
                }
            }
            moves.push(w == player.id);
            proof {
                ends = ends.push(end);
            }
            x = x + 1;
        }
        moves
    }

    /// Plays `location` for `player` on a copy of the game, then runs random
    /// playouts from there: `simnum` (or the configured number) games are
    /// counted, the first being the placement itself, so one fewer playouts
    /// are run. Returns how many playouts `player` won and the count.
    pub fn evaluate(&self, player: Player, location: usize, simnum: Option<u32>, config: &Config) -> (r: (
        u32,
        u32,
    ))
        requires
            1 <= player.id <= PLAYER_NUMBER,
            player.turn < NUMBANK_SIZE,
            player.numbank@[player.turn as int] + free_listers(*self, location as int) <= 255,
            playout_ready(*self, player.id - 1),
            self.grid.moves().contains(location),
        ensures
            r.1 == games_for(simnum_or_default(simnum, config)),
            r.0 < r.1,
            is_evaluation(*self, player, location as int, r.0 as int, r.1 as int),
    {
        let mut win_count: u32 = 0;
        let mut game_count: u32 = 0;
        let mut copy = self.clone();
        let sn = match simnum {
            None => config.simulation_max,
            Some(n) => n,
        };
        let ghost pre = copy;
        proof {
            lemma_ready_copy(*self, copy, player.id - 1);
            assert(location < GRID_SIZE);
            assert(!copy.grid.takens@[location as int]);
            assert(player.turn < NUMBANK_SIZE);
            lemma_ready_reinforce_ok(copy, player.id - 1, location as int, player.id);
        }
        copy.add(player.roll(), player.id, location);
        proof {
            lemma_playout_step(pre, copy, player.id - 1, location as int, player.numbank@[player.turn as int]);
            assert(pre.grid.moves() == self.grid.moves());
            assert forall|k: int| 0 <= k < PLAYER_NUMBER implies #[trigger] pre.players@[k] == self.players@[k] by {}
            assert(add_result(*self, copy, player.numbank@[player.turn as int], player.id, location as int));
        }
        let ghost first = (player.id as int) % (PLAYER_NUMBER as int);
        let ghost mut ends: Seq<Game> = Seq::empty();
        game_count = game_count + 1;
        while game_count < sn
            invariant
                1 <= game_count,
                game_count <= sn || game_count == 1,
                win_count < game_count,
                1 <= player.id <= PLAYER_NUMBER,
                first == (player.id as int) % (PLAYER_NUMBER as int),
                playout_ready(copy, first),
                ends.len() == game_count - 1,
                forall|i: int| 0 <= i < ends.len() ==> playout_end(copy, #[trigger] ends[i], first),
                win_count == count_wins(ends, player.id as int),
            decreases sn - game_count,
        {
            let w = copy.run_single_rollout(player);
            let ghost end = choose|end: Game| playout_end(copy, end, first) && is_winner(end, w as int);
            proof {
                if is_winner(end, player.id as int) {
                    lemma_winner_unique(end, w as int, player.id as int);
                }
                assert(ends.push(end).drop_last() == ends);
            }
            if w == player.id {
                win_count = win_count + 1;
            }
            proof {
                ends = ends.push(end);
            }
            game_count = game_count + 1;
        }
        proof {
            assert(is_evaluation(*self, player, location as int, win_count as int, game_count as int)) by {
                assert(add_result(*self, copy, player.numbank@[player.turn as int], player.id, location as int));
            }
        }
        (win_count, game_count)
    }

    /// The Monte Carlo player: evaluates every free cell by random playouts
    /// and plays the one with the best share of wins (see `best_move_from_infos`).
    #[verifier::spinoff_prover]
    pub fn make_monte_carlo_flat_move(&mut self, player: Player, config: &Config)
        requires
            1 <= player.id <= PLAYER_NUMBER,
            roll_fits_everywhere(*old(self), player),
            playout_ready(*old(self), player.id - 1),
            old(self).grid.moves().len() > 0,
            config.simulation_max * (old(self).grid.moves().len() * old(self).grid.moves().len()) <= usize::MAX,
        ensures
            final(self).wf(),
            final(self).moves == config.simulation_max * (old(self).grid.moves().len() * old(self).grid.moves().len()),
            final(self).absolute_turn == old(self).absolute_turn,
            exists|infos: Seq<MoveInfo>, loc: int|
                infos_from_playouts(infos, *old(self), player, simnum_or_default(None, config))
                    && is_best_move(infos, old(self).grid.takens@, loc) && add_result(
                    *old(self),
                    *final(self),
                    player.numbank@[player.turn as int],
                    player.id,
                    loc,
                ),
    {
        let ghost pre = *self;
        let mut moves_info: [MoveInfo; GRID_SIZE] = [MoveInfo {
            wins: 0,
            total: 100000000000000,
            uncertainty: 0,
        }; GRID_SIZE];
        let len = moves_len(&self.grid.valid_moves);
        let mut i: usize = 0;
        while i < len
            invariant
                *self == pre,
                len == pre.grid.moves().len(),
                i <= len,
                1 <= player.id <= PLAYER_NUMBER,
                roll_fits_everywhere(pre, player),
                playout_ready(pre, player.id - 1),
                forall|c: int|
                    0 <= c < GRID_SIZE ==> #[trigger] moves_info@[c].total > 0 && (moves_info@[c].wins
                        < moves_info@[c].total) && moves_info@[c].wins <= u32::MAX && (pre.grid.takens@[c]
                        || (if pre.grid.moves().take(i as int).contains(c as usize) {
                        info_from_playouts(moves_info@[c], simnum_or_default(None, config)) && is_evaluation(
                            pre,
                            player,
                            c,
                            moves_info@[c].wins as int,
                            moves_info@[c].total as int,
                        )
                    } else {
                        moves_info@[c].total == 100000000000000 && moves_info@[c].wins == 0
                    })),
            decreases len - i,
        {
            let tile = moves_get(&self.grid.valid_moves, i);
            proof {
                assert(pre.grid.moves().contains(tile));
            }
            let (current_wins, current_total) = self.evaluate(player, tile, None, config);
            let ghost old_infos = moves_info@;
            let mut info = moves_info[tile];
            info.wins = current_wins as u64;
            info.total = current_total as u64;
            moves_info[tile] = info;
            proof {
                assert(moves_info@ == old_infos.update(tile as int, info));
                assert(info_from_playouts(info, simnum_or_default(None, config)));
                assert(is_evaluation(pre, player, tile as int, info.wins as int, info.total as int));
                assert(info.total > 0 && info.wins < info.total && info.wins <= u32::MAX);
                let t1 = pre.grid.moves().take(i + 1);
                assert(t1 == pre.grid.moves().take(i as int).push(tile));
                assert forall|c: int|
                    0 <= c < GRID_SIZE implies #[trigger] moves_info@[c].total > 0 && (moves_info@[c].wins
                    < moves_info@[c].total) && moves_info@[c].wins <= u32::MAX && (pre.grid.takens@[c]
                    || (if t1.contains(c as usize) {
                    info_from_playouts(moves_info@[c], simnum_or_default(None, config)) && is_evaluation(
                        pre,
                        player,
                        c,
                        moves_info@[c].wins as int,
                        moves_info@[c].total as int,
                    )
                } else {
                    moves_info@[c].total == 100000000000000 && moves_info@[c].wins == 0
                })) by {
                    if c != tile {
                        assert(moves_info@[c] == old_infos[c]);
                        assert(t1.contains(c as usize) <==> pre.grid.moves().take(i as int).contains(c as usize));
                    } else {
                        assert(moves_info@[c] == info);
                        assert(t1[i as int] == tile);
                        assert(t1.contains(c as usize));
                    }
                }
            }
            i = i + 1;
        }
        proof {
            assert(pre.grid.moves().take(len as int) == pre.grid.moves());
        }
        let sm = config.simulation_max as usize;
        assert(len * len <= 6400) by (nonlinear_arith)
            requires
                len <= 80,
        ;
        self.moves = sm * (len * len);
        let best = best_move_from_infos(&moves_info, &self.grid.takens);
        proof {
            let c = pre.grid.moves()[0];
            assert(pre.grid.moves().contains(c));
            assert(!pre.grid.takens@[c as int]);
        }
        match best {
            Some(best_move) => {
                let ghost mid = *self;
                proof {
                    assert(pre.grid.moves().contains(best_move));
                    lemma_ready_reinforce_ok(pre, player.id - 1, best_move as int, player.id);
                }
                self.add(player.roll(), player.id, best_move);
                proof {
                    assert forall|c: int|
                        0 <= c < GRID_SIZE && !pre.grid.takens@[c] implies info_from_playouts(
                        #[trigger] moves_info@[c],
                        simnum_or_default(None, config),
                    ) && is_evaluation(pre, player, c, moves_info@[c].wins as int, moves_info@[c].total as int) by {
                        assert(pre.grid.moves().contains(c as usize));
                    }
                    assert(infos_from_playouts(moves_info@, pre, player, simnum_or_default(None, config)));
                    assert(add_result(pre, *self, player.numbank@[player.turn as int], player.id, best_move as int));
                }
            },
            None => {},
        }
    }
}

/// The number of games a cell is judged on: `simnum`, or the configured number.
pub open spec fn simnum_or_default(simnum: Option<u32>, config: &Config) -> u32 {
    match simnum {
        Some(n) => n,
        None => config.simulation_max,
    }
}

/// What the Monte Carlo player records of a cell: wins and games.
#[derive(Clone, Copy)]
pub struct MoveInfo {
    pub wins: u64,
    pub total: u64,
    pub uncertainty: u32,
}

/// What evaluating a cell with `sn` games can give: `sn` games (at least one)
/// and fewer wins than games.
pub open spec fn info_from_playouts(info: MoveInfo, sn: u32) -> bool {
    &&& info.total == (if sn == 0 {
        1
    } else {
        sn
    })
    &&& info.wins < info.total
}

/// Every free cell's record comes from evaluating it in `g` for `player`
/// with `sn` games (see `is_evaluation`).
pub open spec fn infos_from_playouts(infos: Seq<MoveInfo>, g: Game, player: Player, sn: u32) -> bool {
    &&& infos.len() == GRID_SIZE
    &&& forall|c: int|
        0 <= c < GRID_SIZE && !g.grid.takens@[c] ==> info_from_playouts(#[trigger] infos[c], sn) && is_evaluation(
            g,
            player,
            c,
            infos[c].wins as int,
            infos[c].total as int,
        )
}

/// The number of games counted for `sn` playouts asked for: `sn`, at least one.
pub open spec fn games_for(sn: u32) -> int {
    if sn == 0 {
        1
    } else {
        sn as int
    }
}

/// How many of the finished games `ends` player `id` won.
pub open spec fn count_wins(ends: Seq<Game>, id: int) -> int
    decreases ends.len(),
{
    if ends.len() == 0 {
        0
    } else {
        count_wins(ends.drop_last(), id) + (if is_winner(ends.last(), id) {
            1int
        } else {
            0int
        })
    }
}

/// `(wins, total)` is an evaluation of cell `loc` for `player` in `g`: the
/// player's next roll is placed on `loc`, giving `placed`; `total - 1`
/// random playouts of `placed` follow, the other player moving first, and
/// `player` won `wins` of them.
pub open spec fn is_evaluation(g: Game, player: Player, loc: int, wins: int, total: int) -> bool {
    exists|placed: Game, ends: Seq<Game>|
        #![trigger add_result(g, placed, player.numbank@[player.turn as int], player.id, loc), ends.len()]
        add_result(g, placed, player.numbank@[player.turn as int], player.id, loc) && ends.len() == total - 1
            && (forall|i: int|
            0 <= i < ends.len() ==> playout_end(placed, #[trigger] ends[i], (player.id as int) % (PLAYER_NUMBER as int)))
            && wins == count_wins(ends, player.id as int)
}

/// The share of wins of a record, scaled by 2^32 and rounded down.
pub open spec fn win_key(info: MoveInfo) -> int {
    (info.wins * TWO_POW_32) / (info.total as int)
}

/// Cell `b` is the free cell with the highest share of wins, the last one
/// among equal shares.
pub open spec fn is_best_move(infos: Seq<MoveInfo>, takens: Seq<bool>, b: int) -> bool {
    &&& 0 <= b < GRID_SIZE
    &&& !takens[b]
    &&& forall|c: int| 0 <= c < GRID_SIZE && !takens[c] ==> #[trigger] win_key(infos[c]) <= win_key(infos[b])
    &&& forall|c: int| b < c < GRID_SIZE && !takens[c] ==> #[trigger] win_key(infos[c]) < win_key(infos[b])
}

/// The free cell with the highest share of wins (the last one among equal
/// shares), or `None` when every cell is taken.
pub fn best_move_from_infos(infos: &[MoveInfo; GRID_SIZE], takens: &[bool; GRID_SIZE]) -> (r: Option<usize>)
    requires
        forall|c: int|
            0 <= c < GRID_SIZE && !takens@[c] ==> #[trigger] infos@[c].total > 0 && infos@[c].wins * TWO_POW_32
                <= u64::MAX,
    ensures
        r is None <==> forall|c: int| 0 <= c < GRID_SIZE ==> #[trigger] takens@[c],
        r matches Some(b) ==> is_best_move(infos@, takens@, b as int),
{
    let mut best: Option<usize> = None;
    let mut best_key: u64 = 0;
    let mut idx: usize = 0;
    while idx < GRID_SIZE
        invariant
            idx <= GRID_SIZE,
            forall|c: int|
                0 <= c < GRID_SIZE && !takens@[c] ==> #[trigger] infos@[c].total > 0 && infos@[c].wins
                    * TWO_POW_32 <= u64::MAX,
            best is None <==> forall|c: int| 0 <= c < idx ==> #[trigger] takens@[c],
            best matches Some(b) ==> {
                &&& b < idx
                &&& !takens@[b as int]
                &&& best_key == win_key(infos@[b as int])
                &&& forall|c: int| 0 <= c < idx && !takens@[c] ==> #[trigger] win_key(infos@[c]) <= best_key
                &&& forall|c: int| b < c < idx && !takens@[c] ==> #[trigger] win_key(infos@[c]) < best_key
            },
        decreases GRID_SIZE - idx,
    {
        if !takens[idx] {
            let info = infos[idx];
            assert(infos@[idx as int].total > 0 && infos@[idx as int].wins * TWO_POW_32 <= u64::MAX);
            let key = (info.wins * TWO_POW_32) / info.total;
            let better = match best {
                None => true,
                Some(_) => key >= best_key,
            };
            if better {
                best = Some(idx);
                best_key = key;
            }
        }
        idx = idx + 1;
    }
    best
}

} // verus!
