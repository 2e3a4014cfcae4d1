use proximity::args::{config_from_args, flag_of_arg, ArgsOutcome, Flag};
use proximity::constants::{Config, GRID_SIZE};
use proximity::display::{tile_label, BoardPiece};
use proximity::game::Game;
use proximity::human::{parse_xy_input, HumanChoice};
use proximity::python::sum_as_string;
use proximity::text::text_is;

fn args(list: &[&str]) -> Vec<String> {
    list.iter().map(|s| s.to_string()).collect()
}

#[test]
fn typed_numbers_are_read_between_commas() {
    assert_eq!(parse_xy_input("5,3,\n"), vec![5, 3]);
    assert_eq!(parse_xy_input("5,3\n"), vec![5]);
    assert_eq!(parse_xy_input("5, 3"), vec![5]);
    assert_eq!(parse_xy_input("a,b"), Vec::<usize>::new());
    assert_eq!(parse_xy_input("+2,-1,007,"), vec![2, 7]);
    assert_eq!(parse_xy_input(""), Vec::<usize>::new());
    assert_eq!(parse_xy_input("99999999999999999999999,1"), vec![1]);
}

#[test]
fn typed_cells_are_judged() {
    let mut g = Game::new(&Config::default(), [false; GRID_SIZE]);
    assert_eq!(g.check_human_choice(&vec![5, 3]), HumanChoice::Place(35));
    assert_eq!(g.check_human_choice(&vec![5]), HumanChoice::InvalidInput);
    assert_eq!(g.check_human_choice(&vec![1, 2, 3]), HumanChoice::InvalidInput);
    assert_eq!(g.check_human_choice(&vec![0, 9]), HumanChoice::OutOfBounds);
    assert_eq!(g.check_human_choice(&vec![15, 8]), HumanChoice::OutOfBounds);
    g.add(4, 1, 35);
    assert_eq!(g.check_human_choice(&vec![5, 3]), HumanChoice::Taken);
}

#[test]
fn flags_are_recognised() {
    assert_eq!(flag_of_arg("-s"), Flag::SimulationMax);
    assert_eq!(flag_of_arg("--simulation-max"), Flag::SimulationMax);
    assert_eq!(flag_of_arg("--roll-max"), Flag::RollMax);
    assert_eq!(flag_of_arg("--hole-prob"), Flag::HoleProbability);
    assert_eq!(flag_of_arg("-hp"), Flag::HoleProbability);
    assert_eq!(flag_of_arg("-p4"), Flag::PlayerMoveType(3));
    assert_eq!(flag_of_arg("-h"), Flag::Help);
    assert_eq!(flag_of_arg("-x"), Flag::Other);
    assert!(text_is("abc", "abc"));
    assert!(!text_is("abc", "abd"));
    assert!(!text_is("abc", "ab"));
}

#[test]
fn arguments_set_the_configuration() {
    let a = args(&["prog", "-s", "100", "-r", "abc", "-p2", "+1", "-hp", "0.5", "-p5", "2"]);
    match config_from_args(&a) {
        ArgsOutcome::Run(c, hole) => {
            assert_eq!(c.simulation_max, 100);
            assert_eq!(c.roll_max, 20);
            assert_eq!(c.player_movetypes, [3, 1, 1, 1, 2]);
            assert_eq!((c.x_max, c.y_max, c.player_number), (10, 8, 2));
            assert_eq!(hole, Some("0.5".to_string()));
        },
        ArgsOutcome::Help => panic!("no help was asked for"),
    }
}

#[test]
fn arguments_without_values_or_unknown_are_skipped() {
    match config_from_args(&args(&["prog", "-x", "5", "--roll-max", "9", "-s"])) {
        ArgsOutcome::Run(c, hole) => {
            assert_eq!(c.simulation_max, 5000);
            assert_eq!(c.roll_max, 9);
            assert_eq!(hole, None);
        },
        ArgsOutcome::Help => panic!("no help was asked for"),
    }
    match config_from_args(&args(&["-s", "7"])) {
        ArgsOutcome::Run(c, _) => assert_eq!(c.simulation_max, 5000),
        ArgsOutcome::Help => panic!("the program name is skipped"),
    }
    match config_from_args(&args(&["prog", "-r", "300"])) {
        ArgsOutcome::Run(c, _) => assert_eq!(c.roll_max, 20),
        ArgsOutcome::Help => panic!("no help was asked for"),
    }
}

#[test]
fn help_stops_reading() {
    assert!(matches!(config_from_args(&args(&["prog", "-s", "5", "--help", "-r", "3"])), ArgsOutcome::Help));
    // a flag's value is never read as a flag
    assert!(matches!(config_from_args(&args(&["prog", "-s", "-h"])), ArgsOutcome::Run(_, _)));
}

#[test]
fn tile_labels() {
    assert_eq!(tile_label(false, 0, 0), vec![' ', '·', ' ']);
    assert_eq!(tile_label(true, 0, 0), vec![' ', 'X', ' ']);
    assert_eq!(tile_label(true, 1, 7), vec!['P', '0', '7']);
    assert_eq!(tile_label(true, 2, 42), vec!['P', '4', '2']);
    assert_eq!(tile_label(true, 2, 123), vec!['P', '1', '2', '3']);
}

#[test]
fn board_text_layout() {
    let mut g = Game::new(&Config::default(), [false; GRID_SIZE]);
    g.add(7, 1, 11);
    let pieces = g.board_pieces();
    assert_eq!(pieces.len(), 88);
    assert!(matches!(pieces[0], BoardPiece::NewRow { indent: false }));
    assert!(matches!(pieces[11], BoardPiece::NewRow { indent: true }));
    match &pieces[13] {
        BoardPiece::Tile { text, owner } => {
            assert_eq!(text, &vec!['P', '0', '7']);
            assert_eq!(*owner, 1);
        },
        BoardPiece::NewRow { .. } => panic!("cell 11 is a tile"),
    }
    match &pieces[1] {
        BoardPiece::Tile { text, owner } => {
            assert_eq!(text, &vec![' ', '·', ' ']);
            assert_eq!(*owner, 0);
        },
        BoardPiece::NewRow { .. } => panic!("cell 0 is a tile"),
    }
}

#[test]
fn python_sum() {
    assert_eq!(sum_as_string(2, 3), "5");
    assert_eq!(sum_as_string(123, 877), "1000");
    assert_eq!(sum_as_string(0, 0), "0");
}
