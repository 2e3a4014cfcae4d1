//! Dispatching a move by the player's move type, and the checks that tell
//! whether a move can be made without overflow.
use vstd::prelude::*;

use crate::constants::{Config, GRID_SIZE, NUMBANK_SIZE, PLAYER_NUMBER};
use crate::game::{add_result, reinforce_ok, Game};
use crate::grid::{lemma_neighbors, neighbors, Grid};
use crate::moves::{
    greedy_choice, infos_from_playouts, is_best_move, move_ready,
    move_score, move_score_upto, playout_ready, roll_fits_everywhere, free_listers, listers_in, lists, simnum_or_default,
    turns_fit, MoveInfo,
};
use crate::player::Player;
use crate::valid_moves::{moves_get, moves_len};

verus! {

/// How a player chooses its moves.
#[derive(Clone, Copy, Debug, PartialEq, Eq, Structural)]
pub enum MoveKind {
    /// Move type 0: a person types the cell.
    Human,
    /// Move type 1: a free cell drawn at random.
    Random,
    /// Move type 2: the cell that scores highest right away.
    Greedy,
    /// Move type 3: the cell that wins most random playouts.
    MonteCarlo,
    /// Any other move type: the player does nothing.
    Idle,
}

/// The kind of a move type number.
pub open spec fn kind_of(move_type: u8) -> MoveKind {
    if move_type == 0 {
        MoveKind::Human
    } else if move_type == 1 {
        MoveKind::Random
    } else if move_type == 2 {
        MoveKind::Greedy
    } else if move_type == 3 {
        MoveKind::MonteCarlo
    } else {
        MoveKind::Idle
    }
}

/// The kind of a move type number.
pub fn move_kind(move_type: u8) -> (r: MoveKind)
    ensures
        r == kind_of(move_type),
{
    if move_type == 0 {
        MoveKind::Human
    } else if move_type == 1 {
        MoveKind::Random
    } else if move_type == 2 {
        MoveKind::Greedy
    } else if move_type == 3 {
        MoveKind::MonteCarlo
    } else {
        MoveKind::Idle
    }
}

/// Whether every free cell's worth fits in a `u8` for the greedy player.
pub open spec fn greedy_scores_fit(g: Grid, player: Player) -> bool {
    forall|i: int|
        0 <= i < g.moves().len() ==> #[trigger] move_score(
            g,
            g.moves()[i] as int,
            player.id,
            player.numbank@[player.turn as int],
        ) <= u8::MAX
}

/// What the Monte Carlo player needs.
pub open spec fn monte_carlo_ready(g: Game, player: Player, config: &Config) -> bool {
    &&& 1 <= player.id <= PLAYER_NUMBER
    &&& roll_fits_everywhere(g, player)
    &&& playout_ready(g, player.id - 1)
    &&& g.grid.moves().len() > 0
    &&& config.simulation_max * (g.grid.moves().len() * g.grid.moves().len()) <= usize::MAX
}

/// What `make_move` needs for the player's move type.
pub open spec fn ready_for(g: Game, player: Player, config: &Config) -> bool {
    match kind_of(player.move_type) {
        MoveKind::Random => move_ready(g, player),
        MoveKind::Greedy => move_ready(g, player) && greedy_scores_fit(g.grid, player),
        MoveKind::MonteCarlo => g.wf() && monte_carlo_ready(g, player, config),
        _ => true,
    }
}

impl Game {
    /// Makes `player`'s move by its move type: a random, greedy or Monte
    /// Carlo move is played; for a person (move type 0) or an unknown move
    /// type nothing changes. Returns the kind of move.
    pub fn make_move(&mut self, player: Player, config: &Config) -> (r: MoveKind)
        requires
            ready_for(*old(self), player, config),
        ensures
            r == kind_of(player.move_type),
            (r == MoveKind::Human || r == MoveKind::Idle) ==> *final(self) == *old(self),
            r == MoveKind::Random ==> final(self).wf() && exists|loc: usize|
                old(self).grid.moves().contains(loc) && add_result(
                    *old(self),
                    *final(self),
                    player.numbank@[player.turn as int],
                    player.id,
                    loc as int,
                ),
            r == MoveKind::Greedy ==> final(self).wf() && exists|b: int|
                greedy_choice(old(self).grid, player.id, player.numbank@[player.turn as int], b) && add_result(
                    *old(self),
                    *final(self),
                    player.numbank@[player.turn as int],
                    player.id,
                    old(self).grid.moves()[b] as int,
                ),
            r == MoveKind::MonteCarlo ==> final(self).wf() && exists|infos: Seq<MoveInfo>, loc: int|
                infos_from_playouts(infos, *old(self), player, simnum_or_default(None, config))
                    && is_best_move(infos, old(self).grid.takens@, loc) && add_result(
                    *old(self),
                    *final(self),
                    player.numbank@[player.turn as int],
                    player.id,
                    loc,
                ),
    {
        let kind = move_kind(player.move_type);
        match kind {
            MoveKind::Random => {
                self.make_random_move(player);
            },
            MoveKind::Greedy => {
                self.make_greedy_move(player);
            },
            MoveKind::MonteCarlo => {
                self.make_monte_carlo_flat_move(player, config);
            },
            _ => {},
        }
        kind
    }

    /// Whether every neighbour of `location` that `owner` owns holds less than 255.
    pub fn reinforce_fits(&self, location: usize, owner: u8) -> (r: bool)
        requires
            location < GRID_SIZE,
        ensures
            r == reinforce_ok(self.grid, location as int, owner),
    {
        let nbrs = Grid::get_neighbors(location);
        proof {
            lemma_neighbors(location as int);
        }
        let mut j: usize = 0;
        while j < nbrs.len()
            invariant
                j <= nbrs@.len(),
                nbrs@ == neighbors(location as int),
                forall|i: int| 0 <= i < nbrs@.len() ==> #[trigger] nbrs@[i] < GRID_SIZE,
                forall|i: int|
                    0 <= i < j ==> (self.grid.owners@[nbrs@[i] as int] == owner ==> #[trigger] self.grid.values@[nbrs@[i] as int]
                        < 255),
            decreases nbrs@.len() - j,
        {
            let n = nbrs[j];
            if self.grid.owners[n] == owner && self.grid.values[n] == 255 {
                return false;
            }
            j = j + 1;
        }
        true
    }

    /// The worth of a move, as a wide number (it may pass 255).
    pub fn move_score_wide(&self, location: usize, owner: u8, value: u8) -> (r: u32)
        requires
            location < GRID_SIZE,
        ensures
            r == move_score(self.grid, location as int, owner, value),
    {
        let nbrs = Grid::get_neighbors(location);
        proof {
            lemma_neighbors(location as int);
        }
        let ghost nb = nbrs@;
        let mut score: u32 = 0;
        let mut j: usize = 0;
        while j < nbrs.len()
            invariant
                j <= nb.len(),
                nb == nbrs@,
                nb.len() <= 6,
                forall|i: int| 0 <= i < nb.len() ==> #[trigger] nb[i] < GRID_SIZE,
                score == move_score_upto(self.grid, nb, j as int, owner, value),
                score <= 255 * j,
            decreases nb.len() - j,
        {
            let n = nbrs[j];
            let own = self.grid.owners[n];
            if own == 0 {
            } else if own == owner {
                score = score + 1;
            } else if self.grid.values[n] < value {
                score = score + value as u32;
            }
            j = j + 1;
        }
        score
    }

    /// Whether `make_move` can be called for `player`: exactly `ready_for`.
    pub fn is_ready_for(&self, player: Player, config: &Config) -> (r: bool)
        requires
            self.wf(),
        ensures
            r == ready_for(*self, player, config),
    {
        let kind = move_kind(player.move_type);
        match kind {
            MoveKind::Random => self.move_is_ready(player),
            MoveKind::Greedy => self.move_is_ready(player) && self.greedy_fits(player),
            MoveKind::MonteCarlo => self.monte_carlo_is_ready(player, config),
            _ => true,
        }
    }

    /// Whether `move_ready` holds.
    pub fn move_is_ready(&self, player: Player) -> (r: bool)
        requires
            self.wf(),
        ensures
            r == move_ready(*self, player),
    {
        if self.grid.is_terminal() || player.turn >= NUMBANK_SIZE || player.id < 1 || player.id as usize
            > PLAYER_NUMBER {
            return false;
        }
        let stored = self.players[(player.id - 1) as usize];
        if stored.turn == usize::MAX || self.grid.turn == usize::MAX {
            return false;
        }
        let len = moves_len(&self.grid.valid_moves);
        let mut i: usize = 0;
        while i < len
            invariant
                self.wf(),
                len == self.grid.moves().len(),
                i <= len,
                forall|q: int| 0 <= q < i ==> #[trigger] reinforce_ok(self.grid, self.grid.moves()[q] as int, player.id),
            decreases len - i,
        {
            let loc = moves_get(&self.grid.valid_moves, i);
            if !self.reinforce_fits(loc, player.id) {
                return false;
            }
            i = i + 1;
        }
        true
    }

    /// Whether `greedy_scores_fit` holds.
    pub fn greedy_fits(&self, player: Player) -> (r: bool)
        requires
            self.wf(),
            player.turn < NUMBANK_SIZE,
        ensures
            r == greedy_scores_fit(self.grid, player),
    {
        let value = player.roll();
        let len = moves_len(&self.grid.valid_moves);
        let mut i: usize = 0;
        while i < len
            invariant
                self.wf(),
                len == self.grid.moves().len(),
                i <= len,
                value == player.numbank@[player.turn as int],
                forall|q: int|
                    0 <= q < i ==> #[trigger] move_score(self.grid, self.grid.moves()[q] as int, player.id, value)
                        <= u8::MAX,
            decreases len - i,
        {
            let loc = moves_get(&self.grid.valid_moves, i);
            if self.move_score_wide(loc, player.id, value) > 255 {
                return false;
            }
            i = i + 1;
        }
        true
    }

    /// Whether `monte_carlo_ready` holds (with a well-formed game).
    pub fn monte_carlo_is_ready(&self, player: Player, config: &Config) -> (r: bool)
        requires
            self.wf(),
        ensures
            r == (self.wf() && monte_carlo_ready(*self, player, config)),
    {
        if player.id < 1 || player.id as usize > PLAYER_NUMBER {
            return false;
        }
        let next = (player.id - 1) as usize;
        if !self.roll_fits_everywhere_check(player) {
            return false;
        }
        let len = moves_len(&self.grid.valid_moves);
        if len == 0 {
            return false;
        }
        let other = (next + 1) % PLAYER_NUMBER;
        if self.players[next].turn > NUMBANK_SIZE || self.players[other].turn > NUMBANK_SIZE {
            return false;
        }
        if self.players[next].turn + (len + 1) / 2 > NUMBANK_SIZE || self.players[other].turn + len / 2
            > NUMBANK_SIZE {
            return false;
        }
        if !self.banks_fit_playout() || !self.values_fit_playout() {
            return false;
        }
        if self.grid.turn > usize::MAX - len {
            return false;
        }
        let sm = config.simulation_max as usize;
        assert(len * len <= 6400) by (nonlinear_arith)
            requires
                len <= 80,
        ;
        let sq = len * len;
        proof {
            assert(turns_fit(*self, player.id - 1));
            assert(playout_ready(*self, player.id - 1));
        }
        match sm.checked_mul(sq) {
            Some(_) => true,
            None => false,
        }
    }

    /// The next step of the game's turn loop, the players moving in turn by
    /// slot: `None` once no free cell is left (the game is over), else the
    /// player of `slot`, who moves next.
    pub fn next_mover(&self, slot: usize) -> (r: Option<Player>)
        requires
            slot < PLAYER_NUMBER,
        ensures
            r is None <==> self.grid.moves().len() == 0,
            r matches Some(p) ==> p == self.players@[slot as int],
    {
        if self.is_terminal_py() {
            None
        } else {
            Some(self.players[slot])
        }
    }

    /// How many free cells act on cell `c` (have it among their neighbours).
    pub fn free_listers_of(&self, c: usize) -> (r: usize)
        requires
            self.wf(),
            c < GRID_SIZE,
        ensures
            r == free_listers(*self, c as int),
            r <= GRID_SIZE,
    {
        let len = moves_len(&self.grid.valid_moves);
        let mut count: usize = 0;
        let mut i: usize = 0;
        while i < len
            invariant
                self.wf(),
                len == self.grid.moves().len(),
                i <= len,
                count <= i,
                count == listers_in(self.grid.moves().take(i as int), c as int),
            decreases len - i,
        {
            let m = moves_get(&self.grid.valid_moves, i);
            let nb = Grid::get_neighbors(m);
            let mut found = false;
            let mut j: usize = 0;
            while j < nb.len()
                invariant
                    j <= nb@.len(),
                    nb@ == neighbors(m as int),
                    found <==> nb@.take(j as int).contains(c),
                decreases nb.len() - j,
            {
                if nb[j] == c {
                    found = true;
                }
                proof {
                    let t0 = nb@.take(j as int);
                    let t1 = nb@.take(j + 1);
                    assert(t1 == t0.push(nb@[j as int]));
                    if nb@[j as int] == c {
                        assert(t1[j as int] == c);
                    }
                    if t0.contains(c) {
                        let q = choose|q: int| 0 <= q < t0.len() && t0[q] == c;
                        assert(t1[q] == c);
                    }
                    if t1.contains(c) && nb@[j as int] != c {
                        let q = choose|q: int| 0 <= q < t1.len() && t1[q] == c;
                        assert(t0[q] == c);
                    }
                }
                j = j + 1;
            }
            proof {
                assert(nb@.take(j as int) == nb@);
                let t1 = self.grid.moves().take(i + 1);
                assert(t1.drop_last() == self.grid.moves().take(i as int));
                assert(t1.last() == m);
                assert(found == lists(m, c as int));
            }
            if found {
                count = count + 1;
            }
            i = i + 1;
        }
        proof {
            assert(self.grid.moves().take(len as int) == self.grid.moves());
        }
        count
    }

    /// Whether `player`'s next roll exists and, placed on any free cell,
    /// fits with what that cell can gain afterwards.
    pub fn roll_fits_everywhere_check(&self, player: Player) -> (r: bool)
        requires
            self.wf(),
        ensures
            r == roll_fits_everywhere(*self, player),
    {
        if player.turn >= NUMBANK_SIZE {
            return false;
        }
        let roll = player.numbank[player.turn];
        let len = moves_len(&self.grid.valid_moves);
        let mut l: usize = 0;
        while l < len
            invariant
                self.wf(),
                player.turn < NUMBANK_SIZE,
                roll == player.numbank@[player.turn as int],
                len == self.grid.moves().len(),
                l <= len,
                forall|ll: int|
                    0 <= ll < l ==> roll + #[trigger] free_listers(*self, self.grid.moves()[ll] as int) <= 255,
            decreases len - l,
        {
            let m = moves_get(&self.grid.valid_moves, l);
            let fl = self.free_listers_of(m);
            if roll as usize + fl > 255 {
                assert(roll + free_listers(*self, self.grid.moves()[l as int] as int) > 255);
                return false;
            }
            l = l + 1;
        }
        true
    }

    /// Whether every roll still to be used, placed on any free cell, plus what
    /// that cell can gain afterwards, fits in a byte.
    pub fn banks_fit_playout(&self) -> (r: bool)
        requires
            self.wf(),
        ensures
            r == (forall|k: int, i: int, l: int|
                0 <= k < PLAYER_NUMBER && self.players@[k].turn <= i < NUMBANK_SIZE && 0 <= l
                    < self.grid.moves().len() ==> #[trigger] self.players@[k].numbank@[i] + #[trigger] free_listers(
                    *self,
                    self.grid.moves()[l] as int,
                ) <= 255),
    {
        let len = moves_len(&self.grid.valid_moves);
        let mut l: usize = 0;
        while l < len
            invariant
                self.wf(),
                len == self.grid.moves().len(),
                l <= len,
                forall|k: int, i: int, ll: int|
                    0 <= k < PLAYER_NUMBER && self.players@[k].turn <= i < NUMBANK_SIZE && 0 <= ll < l
                        ==> #[trigger] self.players@[k].numbank@[i] + #[trigger] free_listers(
                        *self,
                        self.grid.moves()[ll] as int,
                    ) <= 255,
            decreases len - l,
        {
            let m = moves_get(&self.grid.valid_moves, l);
            let fl = self.free_listers_of(m);
            let mut k: usize = 0;
            while k < PLAYER_NUMBER
                invariant
                    l < len,
                    len == self.grid.moves().len(),
                    m == self.grid.moves()[l as int],
                    fl == free_listers(*self, m as int),
                    fl <= GRID_SIZE,
                    k <= PLAYER_NUMBER,
                    forall|kk: int, i: int, ll: int|
                        0 <= kk < PLAYER_NUMBER && self.players@[kk].turn <= i < NUMBANK_SIZE && 0 <= ll < l
                            ==> #[trigger] self.players@[kk].numbank@[i] + #[trigger] free_listers(
                            *self,
                            self.grid.moves()[ll] as int,
                        ) <= 255,
                    forall|kk: int, i: int|
                        0 <= kk < k && self.players@[kk].turn <= i < NUMBANK_SIZE ==> #[trigger] self.players@[kk].numbank@[i]
                            + fl <= 255,
                decreases PLAYER_NUMBER - k,
            {
                let mut i: usize = self.players[k].turn;
                while i < NUMBANK_SIZE
                    invariant
                        k < PLAYER_NUMBER,
                        l < len,
                        len == self.grid.moves().len(),
                        m == self.grid.moves()[l as int],
                        fl == free_listers(*self, m as int),
                        self.players@[k as int].turn <= i,
                        fl <= GRID_SIZE,
                        forall|ii: int|
                            self.players@[k as int].turn <= ii < i ==> #[trigger] self.players@[k as int].numbank@[ii]
                                + fl <= 255,
                    decreases NUMBANK_SIZE - i,
                {
                    if self.players[k].numbank[i] as usize + fl > 255 {
                        assert(self.players@[k as int].numbank@[i as int] + free_listers(*self, self.grid.moves()[l as int] as int) > 255);
                        return false;
                    }
                    i = i + 1;
                }
                k = k + 1;
            }
            l = l + 1;
        }
        true
    }

    /// Whether every value plus what its cell can still gain fits in a byte.
    pub fn values_fit_playout(&self) -> (r: bool)
        requires
            self.wf(),
        ensures
            r == (forall|c: int| 0 <= c < GRID_SIZE ==> #[trigger] self.grid.values@[c] + free_listers(*self, c) <= 255),
    {
        let mut c: usize = 0;
        while c < GRID_SIZE
            invariant
                self.wf(),
                c <= GRID_SIZE,
                forall|q: int| 0 <= q < c ==> #[trigger] self.grid.values@[q] + free_listers(*self, q) <= 255,
            decreases GRID_SIZE - c,
        {
            let fl = self.free_listers_of(c);
            if self.grid.values[c] as usize + fl > 255 {
                return false;
            }
            c = c + 1;
        }
        true
    }
}

} // verus!
