//! Players and their banks of rolls.
use vstd::prelude::*;

use rand::seq::SliceRandom;

use crate::constants::NUMBANK_SIZE;

verus! {

/// A player: its number (from 1), how it chooses moves, its score, how many
/// tiles it has placed, and the values it places, in order.
#[derive(Clone, Copy)]
pub struct Player {
    pub id: u8,
    pub move_type: u8,
    pub score: usize,
    pub turn: usize,
    pub numbank: [u8; NUMBANK_SIZE],
}

/// Entry `i` of a bank before shuffling: the numbers 2, 3, ... taken modulo
/// `roll_max` and plus one, so that each lies between 1 and `roll_max`.
pub open spec fn bank_entry(i: int, roll_max: u8) -> u8 {
    (((i + 1) % (roll_max as int)) + 1) as u8
}

/// The bank before shuffling.
pub open spec fn unshuffled_bank(roll_max: u8) -> Seq<u8> {
    Seq::new(NUMBANK_SIZE as nat, |i: int| bank_entry(i, roll_max))
}

/// `rand::seq::SliceRandom::shuffle` with the thread's generator
/// `rand::rng()`: the bank afterwards holds the same values, each as often,
/// in an order drawn at random. Which order is left unsaid: it rests on chance.
#[verifier::external_body]
fn shuffle_bank(bank: &mut [u8; NUMBANK_SIZE])
    ensures
        final(bank)@.to_multiset() == old(bank)@.to_multiset(),
{
    bank.shuffle(&mut rand::rng());
}

impl Player {
    /// A new player with number `id` and move type `move_type`, no score, no
    /// tile placed, and a bank holding the values `bank_entry(i, roll_max)`
    /// for `i` below `NUMBANK_SIZE` in random order.
    pub fn init(id: u8, move_type: u8, roll_max: u8) -> (r: Player)
        requires
            roll_max > 0,
        ensures
            r.id == id,
            r.move_type == move_type,
            r.score == 0,
            r.turn == 0,
            r.numbank@.to_multiset() == unshuffled_bank(roll_max).to_multiset(),
            forall|i: int| 0 <= i < NUMBANK_SIZE ==> 1 <= #[trigger] r.numbank@[i] <= roll_max,
    {
        let mut numarray: [u8; NUMBANK_SIZE] = [0u8; NUMBANK_SIZE];
        let mut i: usize = 0;
        while i < NUMBANK_SIZE
            invariant
                i <= NUMBANK_SIZE,
                roll_max > 0,
                forall|j: int| 0 <= j < i ==> #[trigger] numarray@[j] == bank_entry(j, roll_max),
            decreases NUMBANK_SIZE - i,
        {
            numarray[i] = ((i as u8 + 1) % roll_max) + 1;
            i = i + 1;
        }
        assert(numarray@ =~= unshuffled_bank(roll_max));
        shuffle_bank(&mut numarray);
        proof {
            broadcast use vstd::seq_lib::group_to_multiset_ensures;

            assert forall|i: int| 0 <= i < NUMBANK_SIZE implies 1 <= #[trigger] numarray@[i] <= roll_max by {
                let x = numarray@[i];
                assert(numarray@.contains(x));
                assert(numarray@.to_multiset().count(x) > 0);
                assert(unshuffled_bank(roll_max).to_multiset().count(x) > 0);
                assert(unshuffled_bank(roll_max).contains(x));
                let j = choose|j: int| 0 <= j < NUMBANK_SIZE && unshuffled_bank(roll_max)[j] == x;
                assert(x == bank_entry(j, roll_max));
            }
        }
        Player { id: id, move_type: move_type, score: 0, turn: 0, numbank: numarray }
    }

    /// The value of the player's next tile: entry `turn` of its bank.
    pub fn roll(&self) -> (r: u8)
        requires
            self.turn < NUMBANK_SIZE,
        ensures
            r == self.numbank@[self.turn as int],
    {
        self.numbank[self.turn]
    }
}

} // verus!
