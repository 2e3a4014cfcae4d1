//! Reading the configuration from command-line arguments.
use vstd::prelude::*;

use crate::constants::{
    Config, P1MOVETYPE, P2MOVETYPE, P3MOVETYPE, P4MOVETYPE, P5MOVETYPE, PLAYER_MAX, PLAYER_NUMBER,
    ROLL_MAX, SIMULATION_MAX, X_MAX, Y_MAX,
};
use crate::text::{parse_u32, parse_u8, parsed_unsigned, text_is};

verus! {

/// What an argument asks for.
#[derive(Clone, Copy, Debug, PartialEq, Eq, Structural)]
pub enum Flag {
    /// `--simulation-max` or `-s`: the next argument is the number of playouts.
    SimulationMax,
    /// `--roll-max` or `-r`: the next argument is the largest roll.
    RollMax,
    /// `--hole-probability`, `--hole-prob` or `-hp`: the next argument is the
    /// chance of a hole.
    HoleProbability,
    /// `-p1` to `-p5`: the next argument is the move type of that player slot (0 to 4).
    PlayerMoveType(usize),
    /// `--help` or `-h`.
    Help,
    /// Anything else, which is skipped.
    Other,
}

/// What an argument asks for.
pub open spec fn flag_of(a: Seq<char>) -> Flag {
    if a == "--simulation-max"@ || a == "-s"@ {
        Flag::SimulationMax
    } else if a == "--roll-max"@ || a == "-r"@ {
        Flag::RollMax
    } else if a == "--hole-probability"@ || a == "--hole-prob"@ || a == "-hp"@ {
        Flag::HoleProbability
    } else if a == "-p1"@ {
        Flag::PlayerMoveType(0)
    } else if a == "-p2"@ {
        Flag::PlayerMoveType(1)
    } else if a == "-p3"@ {
        Flag::PlayerMoveType(2)
    } else if a == "-p4"@ {
        Flag::PlayerMoveType(3)
    } else if a == "-p5"@ {
        Flag::PlayerMoveType(4)
    } else if a == "--help"@ || a == "-h"@ {
        Flag::Help
    } else {
        Flag::Other
    }
}

/// What an argument asks for.
pub fn flag_of_arg(a: &str) -> (r: Flag)
    ensures
        r == flag_of(a@),
{
    if text_is(a, "--simulation-max") || text_is(a, "-s") {
        Flag::SimulationMax
    } else if text_is(a, "--roll-max") || text_is(a, "-r") {
        Flag::RollMax
    } else if text_is(a, "--hole-probability") || text_is(a, "--hole-prob") || text_is(a, "-hp") {
        Flag::HoleProbability
    } else if text_is(a, "-p1") {
        Flag::PlayerMoveType(0)
    } else if text_is(a, "-p2") {
        Flag::PlayerMoveType(1)
    } else if text_is(a, "-p3") {
        Flag::PlayerMoveType(2)
    } else if text_is(a, "-p4") {
        Flag::PlayerMoveType(3)
    } else if text_is(a, "-p5") {
        Flag::PlayerMoveType(4)
    } else if text_is(a, "--help") || text_is(a, "-h") {
        Flag::Help
    } else {
        Flag::Other
    }
}

/// The argument `-pK`, for `K` from 1 to 5, asks for the move type of player
/// slot `K - 1`; given the arguments `prog -pK v` with `v` a number `n` that
/// fits in a byte, the settings are the defaults with slot `K - 1` set to `n`
/// and every other slot left at its default.
pub proof fn lemma_player_flag_sets_slot(prog: Seq<char>, k: int, v: Seq<char>, n: u8)
    requires
        0 <= k < 5,
        parsed_unsigned(v, u8::MAX as int) == Some(n as int),
    ensures
        flag_of(seq!['-', 'p', ('1' as int + k) as char]) == Flag::PlayerMoveType(k as usize),
        read_args(seq![prog, seq!['-', 'p', ('1' as int + k) as char], v], 1, default_settings()) == Some(
            (SIMULATION_MAX, ROLL_MAX, default_settings().2.update(k, n), None::<Seq<char>>),
        ),
{
    reveal_strlit("--simulation-max");
    reveal_strlit("-s");
    reveal_strlit("--roll-max");
    reveal_strlit("-r");
    reveal_strlit("--hole-probability");
    reveal_strlit("--hole-prob");
    reveal_strlit("-hp");
    reveal_strlit("-p1");
    reveal_strlit("-p2");
    reveal_strlit("-p3");
    reveal_strlit("-p4");
    reveal_strlit("-p5");
    reveal_strlit("--help");
    reveal_strlit("-h");
    let a = seq!['-', 'p', ('1' as int + k) as char];
    if k == 0 {
        assert(a =~= "-p1"@);
    } else if k == 1 {
        assert(a =~= "-p2"@);
    } else if k == 2 {
        assert(a =~= "-p3"@);
    } else if k == 3 {
        assert(a =~= "-p4"@);
    } else {
        assert(a =~= "-p5"@);
    }
    assert(a != "--simulation-max"@ && a != "--roll-max"@ && a != "--hole-probability"@ && a != "--hole-prob"@
        && a != "--help"@) by {
        assert(a.len() != "--simulation-max"@.len());
        assert(a.len() != "--roll-max"@.len());
        assert(a.len() != "--hole-probability"@.len());
        assert(a.len() != "--hole-prob"@.len());
        assert(a.len() != "--help"@.len());
    }
    assert(a != "-s"@ && a != "-r"@ && a != "-h"@) by {
        assert(a.len() != "-s"@.len());
    }
    assert(a != "-hp"@) by {
        assert(a[1] != "-hp"@[1]);
    }
    let args = seq![prog, a, v];
    let st1 = apply_flag(default_settings(), Flag::PlayerMoveType(k as usize), v);
    assert(parsed_or(v, u8::MAX as int, default_movetype(k) as int) == n);
    assert(read_args(args, 3, st1) == Some(st1));
    assert(read_args(args, 1, default_settings()) == read_args(args, 3, st1));
}

/// `-s v` (or `--simulation-max v`) sets the number of playouts to the
/// number `v` when it fits in a `u32`; `-r v` (or `--roll-max v`) sets the
/// largest roll to `v` when it fits in a byte; `-h` (or `--help`) asks for
/// the help whatever follows; every other setting keeps its default.
pub proof fn lemma_value_flags(prog: Seq<char>, v: Seq<char>, n: u32, b: u8)
    requires
        parsed_unsigned(v, u32::MAX as int) == Some(n as int),
        parsed_unsigned(v, u8::MAX as int) == Some(b as int),
    ensures
        read_args(seq![prog, "-s"@, v], 1, default_settings()) == Some(
            (n, ROLL_MAX, default_settings().2, None::<Seq<char>>),
        ),
        read_args(seq![prog, "--simulation-max"@, v], 1, default_settings()) == Some(
            (n, ROLL_MAX, default_settings().2, None::<Seq<char>>),
        ),
        read_args(seq![prog, "-r"@, v], 1, default_settings()) == Some(
            (SIMULATION_MAX, b, default_settings().2, None::<Seq<char>>),
        ),
        read_args(seq![prog, "--roll-max"@, v], 1, default_settings()) == Some(
            (SIMULATION_MAX, b, default_settings().2, None::<Seq<char>>),
        ),
        read_args(seq![prog, "-h"@, v], 1, default_settings()) is None,
        read_args(seq![prog, "--help"@, v], 1, default_settings()) is None,
{
    reveal_strlit("--simulation-max");
    reveal_strlit("-s");
    reveal_strlit("--roll-max");
    reveal_strlit("-r");
    reveal_strlit("--hole-probability");
    reveal_strlit("--hole-prob");
    reveal_strlit("-hp");
    reveal_strlit("--help");
    reveal_strlit("-h");
    assert("-r"@ != "-s"@) by {
        assert("-r"@[1] != "-s"@[1]);
    }
    assert("--roll-max"@ != "--simulation-max"@) by {
        assert("--roll-max"@.len() != "--simulation-max"@.len());
    }
    assert("-h"@ != "-s"@ && "-h"@ != "-r"@) by {
        assert("-h"@[1] != "-s"@[1] && "-h"@[1] != "-r"@[1]);
    }
    assert("--help"@ != "--simulation-max"@ && "--help"@ != "--roll-max"@ && "--help"@ != "--hole-probability"@
        && "--help"@ != "--hole-prob"@ && "--help"@ != "-s"@ && "--help"@ != "-r"@ && "--help"@ != "-hp"@) by {
        assert("--help"@.len() == 6);
    }
    assert("-h"@ != "--simulation-max"@ && "-h"@ != "--roll-max"@ && "-h"@ != "--hole-probability"@
        && "-h"@ != "--hole-prob"@ && "-h"@ != "-hp"@) by {
        assert("-h"@.len() == 2);
    }
    assert("-r"@ != "--simulation-max"@ && "--roll-max"@ != "-s"@) by {
        assert("-r"@.len() == 2 && "--roll-max"@.len() == 10);
    }
    reveal_strlit("-p1");
    reveal_strlit("-p2");
    reveal_strlit("-p3");
    reveal_strlit("-p4");
    reveal_strlit("-p5");
    assert("-h"@ != "-p1"@ && "-h"@ != "-p2"@ && "-h"@ != "-p3"@ && "-h"@ != "-p4"@ && "-h"@ != "-p5"@) by {
        assert("-p1"@.len() == 3);
    }
    assert("--help"@ != "-p1"@ && "--help"@ != "-p2"@ && "--help"@ != "-p3"@ && "--help"@ != "-p4"@ && "--help"@
        != "-p5"@) by {
        assert("--help"@.len() == 6);
        assert("-p1"@.len() == 3 && "-p2"@.len() == 3 && "-p3"@.len() == 3 && "-p4"@.len() == 3 && "-p5"@.len()
            == 3);
    }
    assert(flag_of("-h"@) == Flag::Help);
    assert(flag_of("--help"@) == Flag::Help);
    let d = default_settings();
    let s1 = apply_flag(d, Flag::SimulationMax, v);
    let r1 = apply_flag(d, Flag::RollMax, v);
    assert(read_args(seq![prog, "-s"@, v], 3, s1) == Some(s1));
    assert(read_args(seq![prog, "--simulation-max"@, v], 3, s1) == Some(s1));
    assert(read_args(seq![prog, "-r"@, v], 3, r1) == Some(r1));
    assert(read_args(seq![prog, "--roll-max"@, v], 3, r1) == Some(r1));
}

/// The default move type of player slot `k`.
pub open spec fn default_movetype(k: int) -> u8 {
    if k == 0 {
        P1MOVETYPE
    } else if k == 1 {
        P2MOVETYPE
    } else if k == 2 {
        P3MOVETYPE
    } else if k == 3 {
        P4MOVETYPE
    } else {
        P5MOVETYPE
    }
}

/// The settings read so far: playouts, largest roll, move types, and the
/// text given for the hole probability.
pub struct ArgState {
    pub simulation_max: u32,
    pub roll_max: u8,
    pub player_movetypes: [u8; PLAYER_MAX],
    pub hole_probability: Option<String>,
}

/// The settings as plain values.
pub open spec fn state_view(st: ArgState) -> (u32, u8, Seq<u8>, Option<Seq<char>>) {
    (
        st.simulation_max,
        st.roll_max,
        st.player_movetypes@,
        match st.hole_probability {
            Some(h) => Some(h@),
            None => None,
        },
    )
}

/// `v` parsed as an unsigned number up to `max`, or `default` when it is not one.
pub open spec fn parsed_or(v: Seq<char>, max: int, default: int) -> int {
    match parsed_unsigned(v, max) {
        Some(n) => n,
        None => default,
    }
}

/// The settings after `flag` is given the value `v`.
pub open spec fn apply_flag(
    st: (u32, u8, Seq<u8>, Option<Seq<char>>),
    flag: Flag,
    v: Seq<char>,
) -> (u32, u8, Seq<u8>, Option<Seq<char>>) {
    match flag {
        Flag::SimulationMax => (parsed_or(v, u32::MAX as int, SIMULATION_MAX as int) as u32, st.1, st.2, st.3),
        Flag::RollMax => (st.0, parsed_or(v, u8::MAX as int, ROLL_MAX as int) as u8, st.2, st.3),
        Flag::HoleProbability => (st.0, st.1, st.2, Some(v)),
        Flag::PlayerMoveType(k) => (
            st.0,
            st.1,
            st.2.update(k as int, parsed_or(v, u8::MAX as int, default_movetype(k as int) as int) as u8),
            st.3,
        ),
        _ => st,
    }
}

/// Whether a flag takes the next argument as its value.
pub open spec fn takes_value(flag: Flag) -> bool {
    match flag {
        Flag::SimulationMax | Flag::RollMax | Flag::HoleProbability | Flag::PlayerMoveType(_) => true,
        _ => false,
    }
}

/// Reads the arguments from position `i` on: `None` when help is asked for,
/// otherwise the settings. A flag that takes a value reads the next
/// argument, if there is one; unknown arguments are skipped.
pub open spec fn read_args(args: Seq<Seq<char>>, i: int, st: (u32, u8, Seq<u8>, Option<Seq<char>>)) -> Option<
    (u32, u8, Seq<u8>, Option<Seq<char>>),
>
    decreases args.len() - i,
{
    if i >= args.len() || i < 0 {
        Some(st)
    } else {
        let flag = flag_of(args[i]);
        if flag == Flag::Help {
            None
        } else if takes_value(flag) {
            if i + 1 < args.len() {
                read_args(args, i + 2, apply_flag(st, flag, args[i + 1]))
            } else {
                Some(st)
            }
        } else {
            read_args(args, i + 1, st)
        }
    }
}

/// The arguments as plain text.
pub open spec fn args_view(args: Seq<String>) -> Seq<Seq<char>> {
    Seq::new(args.len(), |i: int| args[i]@)
}

/// The settings before any argument is read.
pub open spec fn default_settings() -> (u32, u8, Seq<u8>, Option<Seq<char>>) {
    (SIMULATION_MAX, ROLL_MAX, seq![P1MOVETYPE, P2MOVETYPE, P3MOVETYPE, P4MOVETYPE, P5MOVETYPE], None)
}

/// What the arguments ask for.
pub enum ArgsOutcome {
    /// Run with this configuration; the text given for the hole
    /// probability, if any, is left for the caller to read as a number.
    Run(Config, Option<String>),
    /// Print the help and stop.
    Help,
}

/// Reads the configuration from the program's arguments (the first, the
/// program's name, is skipped).
#[verifier::spinoff_prover]
pub fn config_from_args(args: &Vec<String>) -> (r: ArgsOutcome)
    ensures
        read_args(args_view(args@), 1, default_settings()) is None <==> r is Help,
        r matches ArgsOutcome::Run(config, hole) ==> {
            let s = read_args(args_view(args@), 1, default_settings())->0;
            &&& config.simulation_max == s.0
            &&& config.roll_max == s.1
            &&& config.player_movetypes@ == s.2
            &&& config.x_max == X_MAX
            &&& config.y_max == Y_MAX
            &&& config.player_number == PLAYER_NUMBER
            &&& match hole {
                Some(h) => s.3 == Some(h@),
                None => s.3 is None,
            }
        },
{
    let ghost av = args_view(args@);
    let mut st = ArgState {
        simulation_max: SIMULATION_MAX,
        roll_max: ROLL_MAX,
        player_movetypes: crate::constants::default_player_movetypes(),
        hole_probability: None,
    };
    let mut i: usize = 1;
    while i < args.len()
        invariant
            av == args_view(args@),
            1 <= i,
            i <= args@.len() || i == 1,
            read_args(av, i as int, state_view(st)) == read_args(av, 1, default_settings()),
        decreases args.len() - i,
    {
        let flag = flag_of_arg(args[i].as_str());
        proof {
            assert(av[i as int] == args@[i as int]@);
        }
        match flag {
            Flag::Help => {
                return ArgsOutcome::Help;
            },
            Flag::Other => {
                i = i + 1;
            },
            _ => {
                let ghost before = state_view(st);
                if i + 1 < args.len() {
                    let v = args[i + 1].as_str();
                    proof {
                        assert(av[i + 1] == args@[i + 1]@);
                    }
                    match flag {
                        Flag::SimulationMax => {
                            st.simulation_max = match parse_u32(v) {
                                Some(n) => n,
                                None => SIMULATION_MAX,
                            };
                        },
                        Flag::RollMax => {
                            st.roll_max = match parse_u8(v) {
                                Some(n) => n,
                                None => ROLL_MAX,
                            };
                        },
                        Flag::HoleProbability => {
                            st.hole_probability = Some(v.to_owned());
                        },
                        Flag::PlayerMoveType(k) => {
                            let default = if k == 0 {
                                P1MOVETYPE
                            } else if k == 1 {
                                P2MOVETYPE
                            } else if k == 2 {
                                P3MOVETYPE
                            } else if k == 3 {
                                P4MOVETYPE
                            } else {
                                P5MOVETYPE
                            };
                            st.player_movetypes[k] = match parse_u8(v) {
                                Some(n) => n,
                                None => default,
                            };
                        },
                        _ => {},
                    }
                    proof {
                        assert(state_view(st) == apply_flag(before, flag, av[i + 1]));
                    }
                    i = i + 2;
                } else {
                    i = args.len();
                }
            },
        }
    }
    let config = Config {
        simulation_max: st.simulation_max,
        x_max: X_MAX,
        y_max: Y_MAX,
        player_number: PLAYER_NUMBER,
        roll_max: st.roll_max,
        player_movetypes: st.player_movetypes,
    };
    ArgsOutcome::Run(config, st.hole_probability)
}

} // verus!
