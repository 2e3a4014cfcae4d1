//! Board dimensions, game constants, the runtime configuration and cell coordinates.
use vstd::prelude::*;

verus! {

/// Whether finished games record a win or a loss.
pub const RECORD_WINLOSS: bool = true;
/// Default number of random playouts per candidate move.
pub const SIMULATION_MAX: u32 = 5000;
/// Two to the 32nd power, the fixed-point scale of win ratios.
pub const TWO_POW_32: u64 = 4294967296;
/// Width of the board (cells per row).
pub const X_MAX: usize = 10;
/// Height of the board (number of rows).
pub const Y_MAX: usize = 8;
/// Number of cells on the board.
pub const GRID_SIZE: usize = X_MAX * Y_MAX;
/// Number of cells on the board, as a signed number.
pub const GRID_ISIZE: isize = 80;
/// Number of players in a game.
pub const PLAYER_NUMBER: usize = 2;
/// Largest number of players a configuration describes.
pub const PLAYER_MAX: usize = 5;
/// Number of rolls in each player's bank: the board size divided by the
/// number of players, rounded up.
pub const NUMBANK_SIZE: usize = (GRID_SIZE + PLAYER_NUMBER - 1) / PLAYER_NUMBER;
/// Default largest roll.
pub const ROLL_MAX: u8 = 20;
/// Default move type of player 1.
pub const P1MOVETYPE: u8 = 3;
/// Default move type of player 2.
pub const P2MOVETYPE: u8 = 3;
/// Default move type of player 3.
pub const P3MOVETYPE: u8 = 1;
/// Default move type of player 4.
pub const P4MOVETYPE: u8 = 1;
/// Default move type of player 5.
pub const P5MOVETYPE: u8 = 1;
/// Whether placing a tile on a taken cell is refused.
pub const ADD_TILE_CHECK: bool = true;
/// Cell offsets of the six neighbours of a cell in an even row: right, left,
/// below, above, below-left, above-left.
pub const EVEN_OFFSETS: [isize; 6] = [1, -1, 10, -10, 9, -11];
/// Cell offsets of the six neighbours of a cell in an odd row: right, left,
/// below, above, below-right, above-right.
pub const ODD_OFFSETS: [isize; 6] = [1, -1, 10, -10, 11, -9];

/// The default move types of the five player slots.
pub fn default_player_movetypes() -> (r: [u8; PLAYER_MAX])
    ensures
        r@ == seq![P1MOVETYPE, P2MOVETYPE, P3MOVETYPE, P4MOVETYPE, P5MOVETYPE],
{
    let r = [P1MOVETYPE, P2MOVETYPE, P3MOVETYPE, P4MOVETYPE, P5MOVETYPE];
    assert(r@ =~= seq![P1MOVETYPE, P2MOVETYPE, P3MOVETYPE, P4MOVETYPE, P5MOVETYPE]);
    r
}

/// The runtime configuration of a game (the hole probability, a float, is
/// kept by the program around the library).
#[derive(Debug, Clone)]
pub struct Config {
    pub simulation_max: u32,
    pub x_max: usize,
    pub y_max: usize,
    pub player_number: usize,
    pub roll_max: u8,
    pub player_movetypes: [u8; PLAYER_MAX],
}

/// The configuration that holds every default value.
pub open spec fn default_config() -> Config {
    Config {
        simulation_max: SIMULATION_MAX,
        x_max: X_MAX,
        y_max: Y_MAX,
        player_number: PLAYER_NUMBER,
        roll_max: ROLL_MAX,
        player_movetypes: [P1MOVETYPE, P2MOVETYPE, P3MOVETYPE, P4MOVETYPE, P5MOVETYPE],
    }
}

/// `a` divided by `b`, rounded up.
pub open spec fn div_ceil_spec(a: int, b: int) -> int {
    if a % b == 0 {
        a / b
    } else {
        a / b + 1
    }
}

impl Default for Config {
    fn default() -> (r: Self)
        ensures
            r.simulation_max == SIMULATION_MAX,
            r.x_max == X_MAX,
            r.y_max == Y_MAX,
            r.player_number == PLAYER_NUMBER,
            r.roll_max == ROLL_MAX,
            r.player_movetypes@ == seq![P1MOVETYPE, P2MOVETYPE, P3MOVETYPE, P4MOVETYPE, P5MOVETYPE],
    {
        Config {
            simulation_max: SIMULATION_MAX,
            x_max: X_MAX,
            y_max: Y_MAX,
            player_number: PLAYER_NUMBER,
            roll_max: ROLL_MAX,
            player_movetypes: default_player_movetypes(),
        }
    }
}

impl Config {
    /// Number of cells of a board of this configuration.
    pub fn grid_size(&self) -> (r: usize)
        requires
            self.x_max * self.y_max <= usize::MAX,
        ensures
            r == self.x_max * self.y_max,
    {
        self.x_max * self.y_max
    }

    /// Number of cells, converted to `isize` (wrapping as `as` does).
    pub fn grid_isize(&self) -> (r: isize)
        requires
            self.x_max * self.y_max <= usize::MAX,
        ensures
            r == (self.x_max * self.y_max) as isize,
    {
        let n = self.grid_size();
        n as isize
    }

    /// Size of each player's roll bank: cells divided by players, rounded up.
    pub fn numbank_size(&self) -> (r: usize)
        requires
            self.x_max * self.y_max <= usize::MAX,
            self.player_number > 0,
        ensures
            r == div_ceil_spec(self.x_max * self.y_max, self.player_number as int),
    {
        let n = self.grid_size();
        let q = n / self.player_number;
        if n % self.player_number == 0 {
            q
        } else {
            proof {
                assert(q < n) by (nonlinear_arith)
                    requires
                        q == n / self.player_number,
                        self.player_number > 1,
                        n % self.player_number != 0,
                ;
            }
            q + 1
        }
    }
}

// Accessors of the configuration in force.
/// Number of random playouts per candidate move.
pub fn simulation_max(config: &Config) -> (r: u32)
    ensures
        r == config.simulation_max,
{
    config.simulation_max
}

/// Board width.
pub fn x_max(config: &Config) -> (r: usize)
    ensures
        r == config.x_max,
{
    config.x_max
}

/// Board height.
pub fn y_max(config: &Config) -> (r: usize)
    ensures
        r == config.y_max,
{
    config.y_max
}

/// Number of cells.
pub fn grid_size(config: &Config) -> (r: usize)
    requires
        config.x_max * config.y_max <= usize::MAX,
    ensures
        r == config.x_max * config.y_max,
{
    config.grid_size()
}

/// Number of cells as `isize`.
pub fn grid_isize(config: &Config) -> (r: isize)
    requires
        config.x_max * config.y_max <= usize::MAX,
    ensures
        r == (config.x_max * config.y_max) as isize,
{
    config.grid_isize()
}

/// Number of players.
pub fn player_number(config: &Config) -> (r: usize)
    ensures
        r == config.player_number,
{
    config.player_number
}

/// Largest roll.
pub fn roll_max(config: &Config) -> (r: u8)
    ensures
        r == config.roll_max,
{
    config.roll_max
}

/// Size of each player's roll bank.
pub fn numbank_size(config: &Config) -> (r: usize)
    requires
        config.x_max * config.y_max <= usize::MAX,
        config.player_number > 0,
    ensures
        r == div_ceil_spec(config.x_max * config.y_max, config.player_number as int),
{
    config.numbank_size()
}

/// Move types of the five player slots.
pub fn player_movetypes(config: &Config) -> (r: [u8; PLAYER_MAX])
    ensures
        r@ == config.player_movetypes@,
{
    config.player_movetypes
}

/// Move type of player 1.
pub fn p1movetype(config: &Config) -> (r: u8)
    ensures
        r == config.player_movetypes@[0],
{
    config.player_movetypes[0]
}

/// Move type of player 2.
pub fn p2movetype(config: &Config) -> (r: u8)
    ensures
        r == config.player_movetypes@[1],
{
    config.player_movetypes[1]
}

/// Move type of player 3.
pub fn p3movetype(config: &Config) -> (r: u8)
    ensures
        r == config.player_movetypes@[2],
{
    config.player_movetypes[2]
}

/// Move type of player 4.
pub fn p4movetype(config: &Config) -> (r: u8)
    ensures
        r == config.player_movetypes@[3],
{
    config.player_movetypes[3]
}

/// Move type of player 5.
pub fn p5movetype(config: &Config) -> (r: u8)
    ensures
        r == config.player_movetypes@[4],
{
    config.player_movetypes[4]
}

// Cell coordinates. Cells are numbered row by row: cell `y * X_MAX + x`
// is in column `x` of row `y`.
/// Column of a cell.
pub open spec fn col(location: int) -> int {
    location % (X_MAX as int)
}

/// Row of a cell.
pub open spec fn row(location: int) -> int {
    location / (X_MAX as int)
}

/// Column of a cell.
pub fn location_to_x(location: usize) -> (r: usize)
    ensures
        r == col(location as int),
        r < X_MAX,
{
    location % X_MAX
}

/// Row of a cell.
pub fn location_to_y(location: usize) -> (r: usize)
    ensures
        r == row(location as int),
{
    location / X_MAX
}

/// Column and row of a cell.
pub fn location_to_xy(location: usize) -> (r: (usize, usize))
    ensures
        r.0 == col(location as int),
        r.1 == row(location as int),
{
    (location_to_x(location), location_to_y(location))
}

/// Cell at column `x` of row `y`.
pub fn xy_to_location(x: usize, y: usize) -> (r: usize)
    requires
        y * X_MAX + x <= usize::MAX,
    ensures
        r == y * X_MAX + x,
{
    (y * X_MAX) + x
}

/// Cell at column `x` of row `y` (the same formula as `xy_to_location`).
pub fn error_function(x: usize, y: usize) -> (r: usize)
    requires
        y * X_MAX + x <= usize::MAX,
    ensures
        r == y * X_MAX + x,
{
    (y * X_MAX) + x
}

/// Column of a cell.
pub fn get_x(location: usize) -> (r: usize)
    ensures
        r == col(location as int),
{
    location % X_MAX
}

/// Row of a cell.
pub fn get_y(location: usize) -> (r: usize)
    ensures
        r == row(location as int),
{
    location / X_MAX
}

/// A cell rebuilt from its column and row is the cell itself.
pub proof fn lemma_location_round_trip(location: int)
    requires
        0 <= location,
    ensures
        row(location) * X_MAX + col(location) == location,
        0 <= col(location) < X_MAX,
{
}

/// The column and row of the cell at column `x` of row `y` are `x` and `y`,
/// for every column of the board.
pub proof fn lemma_xy_round_trip(x: int, y: int)
    requires
        0 <= x < X_MAX,
        0 <= y,
    ensures
        col(y * X_MAX + x) == x,
        row(y * X_MAX + x) == y,
{
}

/// The free cells among the first `n` cells, in increasing order.
pub open spec fn free_cells(takens: Seq<bool>, n: int) -> Seq<usize>
    decreases n,
{
    if n <= 0 {
        Seq::empty()
    } else if takens[n - 1] {
        free_cells(takens, n - 1)
    } else {
        free_cells(takens, n - 1).push((n - 1) as usize)
    }
}

/// What `free_cells` holds: each free cell below `n` once, in increasing order.
pub proof fn lemma_free_cells(takens: Seq<bool>, n: int)
    requires
        0 <= n <= takens.len(),
        takens.len() <= GRID_SIZE,
    ensures
        forall|i: int| 0 <= i < free_cells(takens, n).len() ==> #[trigger] free_cells(takens, n)[i] < n,
        forall|i: int, j: int|
            0 <= i < j < free_cells(takens, n).len() ==> free_cells(takens, n)[i] < free_cells(takens, n)[j],
        forall|c: usize| c < n ==> (free_cells(takens, n).contains(c) <==> !takens[c as int]),
        free_cells(takens, n).len() <= n,
    decreases n,
{
    if n > 0 {
        lemma_free_cells(takens, n - 1);
        let s = free_cells(takens, n - 1);
        if !takens[n - 1] {
            let t = free_cells(takens, n);
            assert(t == s.push((n - 1) as usize));
            assert forall|i: int, j: int| 0 <= i < j < t.len() implies t[i] < t[j] by {
                if j == s.len() {
                    assert(t[i] == s[i]);
                } else {
                    assert(t[i] == s[i] && t[j] == s[j]);
                }
            }
            assert forall|c: usize| c < n implies (free_cells(takens, n).contains(c) <==> !takens[c as int]) by {
                if c < n - 1 {
                    if free_cells(takens, n).contains(c) {
                        let k = choose|k: int| 0 <= k < free_cells(takens, n).len() && free_cells(takens, n)[k] == c;
                        if k == s.len() {
                            assert(free_cells(takens, n)[k] == n - 1);
                        }
                        assert(s[k] == c);
                    } else {
                        if s.contains(c) {
                            let k = choose|k: int| 0 <= k < s.len() && s[k] == c;
                            assert(free_cells(takens, n)[k] == c);
                        }
                    }
                } else {
                    assert(free_cells(takens, n)[s.len() as int] == c);
                }
            }
        } else {
            assert forall|c: usize| c < n implies (free_cells(takens, n).contains(c) <==> !takens[c as int]) by {
                if c == n - 1 {
                    if s.contains(c) {
                        let k = choose|k: int| 0 <= k < s.len() && s[k] == c;
                        assert(s[k] < n - 1);
                    }
                }
            }
        }
    }
}

/// The free cells of a board, in increasing order.
pub fn get_valid_moves_from_takens(takens: &[bool; GRID_SIZE]) -> (r: Vec<usize>)
    ensures
        r@ == free_cells(takens@, GRID_SIZE as int),
{
    let mut r: Vec<usize> = Vec::new();
    let mut i: usize = 0;
    while i < GRID_SIZE
        invariant
            i <= GRID_SIZE,
            r@ == free_cells(takens@, i as int),
        decreases GRID_SIZE - i,
    {
        if !takens[i] {
            r.push(i);
        }
        i = i + 1;
    }
    r
}

} // verus!
