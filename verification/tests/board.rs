use proximity::constants::{
    error_function, get_valid_moves_from_takens, get_x, get_y, grid_isize, grid_size, location_to_x,
    location_to_xy, location_to_y, numbank_size, p1movetype, p2movetype, p3movetype, p4movetype,
    p5movetype, player_movetypes, player_number, roll_max, simulation_max, x_max, xy_to_location,
    y_max, Config, GRID_SIZE, NUMBANK_SIZE,
};
use proximity::grid::Grid;

#[test]
fn default_config_values() {
    let c = Config::default();
    assert_eq!(simulation_max(&c), 5000);
    assert_eq!(x_max(&c), 10);
    assert_eq!(y_max(&c), 8);
    assert_eq!(player_number(&c), 2);
    assert_eq!(roll_max(&c), 20);
    assert_eq!(player_movetypes(&c), [3, 3, 1, 1, 1]);
    assert_eq!(p1movetype(&c), 3);
    assert_eq!(p2movetype(&c), 3);
    assert_eq!(p3movetype(&c), 1);
    assert_eq!(p4movetype(&c), 1);
    assert_eq!(p5movetype(&c), 1);
}

#[test]
fn config_sizes() {
    let c = Config::default();
    assert_eq!(grid_size(&c), 80);
    assert_eq!(grid_isize(&c), 80);
    assert_eq!(numbank_size(&c), 40);
    assert_eq!(c.grid_size(), GRID_SIZE);
    assert_eq!(c.numbank_size(), NUMBANK_SIZE);
    let mut three = Config::default();
    three.player_number = 3;
    // 80 cells over 3 players, rounded up
    assert_eq!(three.numbank_size(), 27);
    let mut one = Config::default();
    one.player_number = 1;
    assert_eq!(one.numbank_size(), 80);
}

#[test]
fn coordinates_round_trip() {
    assert_eq!(location_to_x(37), 7);
    assert_eq!(location_to_y(37), 3);
    assert_eq!(location_to_xy(37), (7, 3));
    assert_eq!(xy_to_location(7, 3), 37);
    assert_eq!(error_function(7, 3), 37);
    assert_eq!(get_x(79), 9);
    assert_eq!(get_y(79), 7);
    for loc in 0..GRID_SIZE {
        let (x, y) = location_to_xy(loc);
        assert_eq!(xy_to_location(x, y), loc);
    }
}

#[test]
fn valid_moves_skip_taken_cells() {
    let mut takens = [false; GRID_SIZE];
    takens[1] = true;
    takens[3] = true;
    let free = get_valid_moves_from_takens(&takens);
    assert_eq!(free.len(), 78);
    assert_eq!(&free[..4], &[0, 2, 4, 5]);
    assert_eq!(*free.last().unwrap(), 79);
}

#[test]
fn neighbors_of_corner_and_inner_cells() {
    assert_eq!(Grid::get_neighbors(0), vec![1, 10]);
    assert_eq!(Grid::get_neighbors(15), vec![16, 14, 25, 5, 26, 6]);
    assert_eq!(Grid::get_neighbors(9), vec![8, 19, 18]);
}

#[test]
fn neighbors_wrap_at_some_edges() {
    // the first cell of an even row keeps its upper-left offset, which wraps
    assert_eq!(Grid::get_neighbors(20), vec![21, 30, 10, 9]);
    // the last cell of an odd row keeps its upper-right offset, which wraps
    assert_eq!(Grid::get_neighbors(79), vec![78, 69, 70]);
}

#[test]
fn inner_neighbors_are_symmetric() {
    for a in 0..GRID_SIZE {
        for b in 0..GRID_SIZE {
            let inner = |c: usize| (1..9).contains(&(c % 10));
            if inner(a) && inner(b) {
                let ab = Grid::get_neighbors(a).contains(&b);
                let ba = Grid::get_neighbors(b).contains(&a);
                assert_eq!(ab, ba, "cells {} and {}", a, b);
            }
        }
    }
}

#[test]
fn neighbors_symmetric_but_one_sided_pairs() {
    let mut one_sided_pairs = Vec::new();
    for a in 0..GRID_SIZE {
        for b in 0..GRID_SIZE {
            let (lo, hi) = if a < b { (a, b) } else { (b, a) };
            let step = if (hi / 10) % 2 == 1 { 9 } else { 11 };
            let one_sided = (hi % 10 == 0 || hi % 10 == 9) && hi - lo == step;
            let ab = Grid::get_neighbors(a).contains(&b);
            let ba = Grid::get_neighbors(b).contains(&a);
            assert_eq!(ab == ba, !one_sided, "cells {} and {}", a, b);
            if one_sided && a > b {
                one_sided_pairs.push((a, b));
            }
        }
    }
    assert_eq!(
        one_sided_pairs,
        vec![(10, 1), (19, 10), (20, 9), (29, 18), (30, 21), (39, 30), (40, 29), (49, 38), (50, 41), (59, 50), (60, 49), (69, 58), (70, 61), (79, 70)]
    );
    assert!(Grid::get_neighbors(0).contains(&10));
    assert!(Grid::get_neighbors(10).contains(&0));
    assert!(Grid::get_neighbors(20).contains(&9));
    assert!(!Grid::get_neighbors(9).contains(&20));
}

#[test]
fn grid_init_with_holes() {
    let mut takens = [false; GRID_SIZE];
    takens[10] = true;
    let g = Grid::init(takens);
    assert_eq!(g.valid_moves.len(), 79);
    assert!(!g.valid_moves.contains(&10));
    assert!(g.values.iter().all(|&v| v == 0));
    assert!(g.owners.iter().all(|&o| o == 0));
    assert_eq!(g.turn, 0);
    assert!(!g.is_terminal());
    let full = Grid::init([true; GRID_SIZE]);
    assert!(full.is_terminal());
}

#[test]
fn update_adjacency_sets_one_cell() {
    let mut g = Grid::init([false; GRID_SIZE]);
    g.update_adjacency(4, true);
    assert!(g.adjacency[4]);
    assert_eq!(g.adjacency.iter().filter(|&&a| a).count(), 1);
}

#[test]
fn grid_clone_copies_cells_and_free_list() {
    let mut g = Grid::init([false; GRID_SIZE]);
    g.values[3] = 7;
    g.owners[3] = 1;
    g.takens[3] = true;
    let c = g.clone();
    assert_eq!(c.values, g.values);
    assert_eq!(c.owners, g.owners);
    assert_eq!(c.takens, g.takens);
    assert_eq!(c.valid_moves.to_vec(), g.valid_moves.to_vec());
    assert_eq!(c.valid_moves.len(), GRID_SIZE);
}

#[test]
fn neighbors_stay_next_to_the_cell() {
    for a in 0..GRID_SIZE {
        let (x, y) = (a % 10, a / 10);
        let wraps = (y % 2 == 0 && x == 0) || (y % 2 == 1 && x == 9);
        if wraps {
            continue;
        }
        for n in Grid::get_neighbors(a) {
            assert!(n < GRID_SIZE && n != a);
            let (nx, ny) = (n % 10, n / 10);
            assert!((nx as i64 - x as i64).abs() <= 1, "cell {} neighbour {}", a, n);
            assert!((ny as i64 - y as i64).abs() <= 1, "cell {} neighbour {}", a, n);
        }
    }
}
