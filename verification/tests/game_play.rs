use proximity::constants::{Config, GRID_SIZE, NUMBANK_SIZE};
use proximity::game::Game;
use proximity::moves::{best_move_from_infos, MoveInfo};
use proximity::play::MoveKind;
use proximity::player::Player;

fn fresh() -> Game {
    Game::new(&Config::default(), [false; GRID_SIZE])
}

fn fixed_player(id: u8, move_type: u8, roll: u8) -> Player {
    Player { id, move_type, score: 0, turn: 0, numbank: [roll; NUMBANK_SIZE] }
}

#[test]
fn new_game_is_empty() {
    let g = fresh();
    assert_eq!(g.grid.valid_moves.len(), GRID_SIZE);
    assert_eq!(g.players[0].id, 1);
    assert_eq!(g.players[1].id, 2);
    assert_eq!(g.players[0].move_type, 3);
    assert_eq!(g.get_scores(true), [0, 0]);
    assert_eq!(g.get_scores(false), [0, 0]);
    assert!(!g.is_terminal_py());
}

#[test]
fn player_bank_holds_each_roll_twice() {
    let p = Player::init(1, 3, 20);
    assert_eq!((p.id, p.move_type, p.score, p.turn), (1, 3, 0, 0));
    let mut bank = p.numbank.to_vec();
    bank.sort();
    let mut expected: Vec<u8> = (0..NUMBANK_SIZE).map(|i| ((i as u8 + 1) % 20) + 1).collect();
    expected.sort();
    assert_eq!(bank, expected);
    assert!(p.numbank.iter().all(|&v| (1..=20).contains(&v)));
    assert_eq!(p.roll(), p.numbank[0]);
}

#[test]
fn placing_capturing_and_reinforcing() {
    let mut g = fresh();
    g.add(5, 1, 15);
    assert_eq!(g.get_scores(true), [5, 0]);
    g.add(3, 2, 16);
    // 15 holds 5, not less than 3: no capture
    assert_eq!(g.grid.owners[15], 1);
    assert_eq!(g.get_scores(true), [5, 3]);
    g.add(7, 2, 14);
    // 15 holds 5 < 7: captured by player 2, with its value
    assert_eq!(g.grid.owners[15], 2);
    assert_eq!(g.get_scores(true), [0, 15]);
    g.add(2, 2, 25);
    // 15 and 14 are player 2's neighbours of 25: each gains one
    assert_eq!(g.grid.values[15], 6);
    assert_eq!(g.grid.values[14], 8);
    assert_eq!(g.get_scores(true), [0, 19]);
    assert_eq!(g.get_scores(false), [0, 19]);
    assert_eq!(g.get_winner(), 2);
    assert_eq!(g.players[1].turn, 3);
    assert_eq!(g.players[0].turn, 1);
    assert_eq!(g.grid.turn, 4);
    assert_eq!(g.grid.valid_moves.len(), GRID_SIZE - 4);
    assert!(g.grid.takens[25]);
}

#[test]
fn winner_prefers_the_last_of_equal_scores() {
    let g = fresh();
    assert_eq!(g.get_winner(), 2);
    let mut h = fresh();
    h.add(4, 1, 0);
    assert_eq!(h.get_winner(), 1);
}

#[test]
fn remove_valid_tile_swaps_in_the_last_cell() {
    let mut g = fresh();
    g.remove_valid_tile(5);
    assert_eq!(g.grid.valid_moves.len(), GRID_SIZE - 1);
    assert_eq!(g.grid.valid_moves[5], 79);
    assert!(!g.grid.valid_moves.contains(&5));
}

#[test]
fn remove_valid_tile_sorted_keeps_order() {
    let mut g = fresh();
    g.remove_valid_tile_sorted(5);
    let expected: Vec<usize> = (0..GRID_SIZE).filter(|&c| c != 5).collect();
    assert_eq!(g.grid.valid_moves.to_vec(), expected);
    g.remove_valid_tile_sorted(79);
    g.remove_valid_tile_sorted(0);
    let expected: Vec<usize> = (1..79).filter(|&c| c != 5).collect();
    assert_eq!(g.grid.valid_moves.to_vec(), expected);
}

#[test]
fn score_of_a_move() {
    let mut g = fresh();
    g.add(5, 2, 25);
    g.add(8, 2, 14);
    // 24 neighbours 25 and 14, both player 2's and below 10
    assert_eq!(g.get_score_from_move(24, 1, 10), 20);
    // for player 2 each of its own neighbours counts one
    assert_eq!(g.get_score_from_move(24, 2, 1), 2);
    // a value not above the neighbours captures nothing
    assert_eq!(g.get_score_from_move(24, 1, 5), 0);
}

#[test]
fn greedy_takes_the_first_best_cell() {
    let mut g = fresh();
    g.add(3, 2, 45);
    let p = fixed_player(1, 2, 10);
    g.players[0] = p;
    g.make_greedy_move(p);
    // the cells around 45 each score 10; 34 comes first in the list
    assert_eq!(g.grid.owners[34], 1);
    assert_eq!(g.grid.owners[45], 1);
    assert_eq!(g.get_scores(true), [13, 0]);
    assert_eq!(g.get_scores(false), [13, 0]);
}

#[test]
fn random_move_takes_one_free_cell() {
    let mut g = fresh();
    let p = g.players[0];
    g.make_random_move(p);
    assert_eq!(g.grid.valid_moves.len(), GRID_SIZE - 1);
    assert_eq!(g.grid.takens.iter().filter(|&&t| t).count(), 1);
    assert_eq!(g.grid.owners.iter().filter(|&&o| o == 1).count(), 1);
    assert_eq!(g.players[0].turn, 1);
    assert_eq!(g.get_scores(true), g.get_scores(false));
}

#[test]
fn playout_fills_the_board() {
    let mut g = fresh();
    let starter = g.players[1];
    let winner = g.simulation_loop(starter);
    assert!(g.is_terminal_py());
    assert!(g.grid.takens.iter().all(|&t| t));
    assert!(winner == 1 || winner == 2);
    let scores = g.get_scores(true);
    assert_eq!(scores, g.get_scores(false));
    assert!(scores[(winner - 1) as usize] >= scores[(2 - winner) as usize]);
    assert_eq!(g.players[0].turn, 40);
    assert_eq!(g.players[1].turn, 40);
}

#[test]
fn rollout_names_a_player() {
    let g = fresh();
    let w = g.run_single_rollout(g.players[1]);
    assert!(w == 1 || w == 2);
    assert_eq!(g.grid.valid_moves.len(), GRID_SIZE);
}

#[test]
fn evaluate_counts_games() {
    let g = fresh();
    let p = g.players[0];
    let (wins, total) = g.evaluate(p, 33, Some(4), &Config::default());
    assert_eq!(total, 4);
    assert!(wins <= 3);
    assert_eq!(g.evaluate(p, 33, Some(0), &Config::default()), (0, 1));
    assert_eq!(g.evaluate(p, 33, Some(1), &Config::default()), (0, 1));
    let mut few = Config::default();
    few.simulation_max = 2;
    let (w, t) = g.evaluate(p, 33, None, &few);
    assert_eq!(t, 2);
    assert!(w <= 1);
}

#[test]
fn best_move_takes_the_last_of_equal_shares() {
    let base = MoveInfo { wins: 0, total: 1, uncertainty: 0 };
    let mut infos = [base; GRID_SIZE];
    let mut takens = [false; GRID_SIZE];
    assert_eq!(best_move_from_infos(&infos, &takens), Some(79));
    infos[3] = MoveInfo { wins: 1, total: 2, uncertainty: 0 };
    infos[7] = MoveInfo { wins: 2, total: 4, uncertainty: 0 };
    assert_eq!(best_move_from_infos(&infos, &takens), Some(7));
    takens[7] = true;
    assert_eq!(best_move_from_infos(&infos, &takens), Some(3));
    infos[50] = MoveInfo { wins: 2, total: 3, uncertainty: 0 };
    assert_eq!(best_move_from_infos(&infos, &takens), Some(50));
    assert_eq!(best_move_from_infos(&infos, &[true; GRID_SIZE]), None);
}

#[test]
fn monte_carlo_plays_one_cell() {
    let mut g = fresh();
    let mut config = Config::default();
    config.simulation_max = 2;
    let p = g.players[0];
    g.make_monte_carlo_flat_move(p, &config);
    assert_eq!(g.grid.valid_moves.len(), GRID_SIZE - 1);
    assert_eq!(g.grid.owners.iter().filter(|&&o| o == 1).count(), 1);
    assert_eq!(g.moves, 2 * GRID_SIZE * GRID_SIZE);
    assert_eq!(g.players[0].turn, 1);
}

#[test]
fn move_kinds_dispatch() {
    let config = Config::default();
    let mut g = fresh();
    let human = fixed_player(1, 0, 5);
    assert!(g.is_ready_for(human, &config));
    assert_eq!(g.make_move(human, &config), MoveKind::Human);
    assert_eq!(g.grid.valid_moves.len(), GRID_SIZE);
    let idle = fixed_player(1, 9, 5);
    assert_eq!(g.make_move(idle, &config), MoveKind::Idle);
    assert_eq!(g.grid.valid_moves.len(), GRID_SIZE);
    let random = fixed_player(1, 1, 5);
    g.players[0] = random;
    assert!(g.is_ready_for(random, &config));
    assert_eq!(g.make_move(random, &config), MoveKind::Random);
    assert_eq!(g.grid.valid_moves.len(), GRID_SIZE - 1);
    let greedy = fixed_player(2, 2, 5);
    g.players[1] = greedy;
    assert!(g.is_ready_for(greedy, &config));
    assert_eq!(g.make_move(greedy, &config), MoveKind::Greedy);
    assert_eq!(g.grid.valid_moves.len(), GRID_SIZE - 2);
}

#[test]
fn readiness_checks_refuse_exhausted_banks_and_large_rolls() {
    let config = Config::default();
    let g = fresh();
    let mut spent = g.players[0];
    spent.move_type = 1;
    spent.turn = NUMBANK_SIZE;
    assert!(!g.is_ready_for(spent, &config));
    let mut h = fresh();
    let big = fixed_player(1, 3, 200);
    h.players[0] = big;
    // 200 plus the six reinforcements a cell can still get fits in a byte
    assert!(h.is_ready_for(big, &config));
    assert!(h.banks_fit_playout());
    assert!(h.values_fit_playout());
    let huge = fixed_player(1, 3, 250);
    h.players[0] = huge;
    assert!(!h.is_ready_for(huge, &config));
    assert!(!h.banks_fit_playout());
    let greedy_big = fixed_player(1, 2, 200);
    h.players[0] = greedy_big;
    h.add(1, 2, 44);
    h.add(1, 2, 46);
    // 200 captured twice does not fit in a byte
    assert!(!h.greedy_fits(greedy_big));
    assert_eq!(h.move_score_wide(45, 1, 200), 400);
}

#[test]
fn raw_accessors() {
    let mut g = fresh();
    g.add(9, 1, 3);
    assert_eq!(g.get_raw_values()[3], 9);
    assert_eq!(g.get_raw_owners()[3], 1);
    assert!(g.get_raw_takens()[3]);
    assert_eq!(g.roll_py(2), g.players[1].numbank[1]);
    assert!(Game::is_hole(true, 0));
    assert!(!Game::is_hole(true, 1));
    assert!(!Game::is_hole(false, 0));
}

#[test]
fn free_cells_acting_on_a_cell() {
    let mut g = fresh();
    assert_eq!(g.free_listers_of(45), 6);
    assert_eq!(g.free_listers_of(0), 2);
    g.add(5, 1, 46);
    assert_eq!(g.free_listers_of(45), 5);
    assert!(g.values_fit_playout());
    g.add(250, 1, 55);
    // five free cells still act on cell 55: 250 + 5 fits, 251 + 5 does not
    assert_eq!(g.free_listers_of(55), 5);
    assert!(g.values_fit_playout());
    g.grid.values[55] = 251;
    assert!(!g.values_fit_playout());
}

#[test]
fn add_sorted_keeps_free_cells_in_order() {
    let mut g = fresh();
    g.add_sorted(5, 1, 44);
    g.add_sorted(7, 2, 0);
    let moves: Vec<usize> = g.grid.valid_moves.to_vec();
    assert_eq!(moves.len(), GRID_SIZE - 2);
    assert!(moves.windows(2).all(|w| w[0] < w[1]));
    assert!(!moves.contains(&44) && !moves.contains(&0));
    assert_eq!(moves[0], 1);
    assert_eq!(g.get_raw_values()[44], 5);
    assert_eq!(g.get_raw_owners()[0], 2);
    assert_eq!(g.get_scores(true), [5, 7]);
    g.remove_valid_tile_sorted(79);
    assert_eq!(g.grid.valid_moves.len(), GRID_SIZE - 3);
    assert!(g.grid.valid_moves.windows(2).all(|w| w[0] < w[1]));
}

#[test]
fn turn_loop_steps() {
    let mut g = fresh();
    let first = g.next_mover(0).unwrap();
    assert_eq!(first.id, 1);
    assert_eq!(g.next_mover(1).unwrap().id, 2);
    for c in 0..GRID_SIZE {
        g.add(1, 1 + (c % 2) as u8, c);
    }
    assert!(g.next_mover(0).is_none());
    assert!(g.next_mover(1).is_none());
}

#[test]
fn next_roll_fits_every_free_cell() {
    let g = fresh();
    assert!(g.roll_fits_everywhere_check(fixed_player(1, 3, 249)));
    assert!(!g.roll_fits_everywhere_check(fixed_player(1, 3, 250)));
    let mut spent = fixed_player(1, 3, 5);
    spent.turn = NUMBANK_SIZE;
    assert!(!g.roll_fits_everywhere_check(spent));
    // a passed player whose bank differs from the stored one is accepted
    let config = Config::default();
    let other_bank = fixed_player(1, 3, 7);
    assert!(g.is_ready_for(other_bank, &config));
}
