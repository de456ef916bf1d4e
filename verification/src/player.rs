//! One durable player: the drawable bag of chips, the per-round cauldron,
//! the cross-round counters (victory points, rubies, flask, drop track), and
//! the chosen strategy. Players live in the game's arena and are mutated
//! only by the orchestrator.

use vstd::prelude::*;

use crate::cauldron::Cauldron;
use crate::chip::{Chip, Color};
use crate::rng::rng_index;
use crate::strategy::{
    bag_choice_ok, cauldron_choice_ok, continue_decision_ok, drop_pay_ok, flask_decision_ok,
    Strategy,
};

verus! {

/// A generous ceiling on the durable counters: proofs of freedom from
/// overflow only need the counters to stay far below the machine word, and
/// nine rounds of play move them by small amounts.
pub const COUNTER_ROOM: u64 = 0x100_0000_0000;

/// The nine chips every bag starts with.
pub open spec fn starting_bag() -> Seq<Chip> {
    seq![
        Chip::White1,
        Chip::White1,
        Chip::White1,
        Chip::White1,
        Chip::White2,
        Chip::White2,
        Chip::White3,
        Chip::Orange1,
        Chip::Green1,
    ]
}

/// How many copies of one chip a player holds across bag and cauldron
/// together. Chips move between the two containers; the round phases state
/// over this count that none is created or lost unaccounted.
pub open spec fn chip_count(p: Player, c: Chip) -> int {
    p.bag@.to_multiset().count(c) + p.cauldron.spec_chips().to_multiset().count(c) as int
}

/// How many chips a player holds across bag and cauldron together.
pub open spec fn pool_size(p: Player) -> int {
    p.bag@.len() + p.cauldron.spec_chips().len() as int
}

/// A durable player.
#[derive(Debug)]
pub struct Player {
    pub name: String,
    pub score: u64,
    pub rubies: u64,
    pub flask: bool,
    pub drop: u64,
    pub bag: Vec<Chip>,
    pub cauldron: Cauldron,
    pub strategy: Strategy,
}

impl Player {
    /// The identity, strategy and durable counters agree (the bag and
    /// cauldron may differ).
    pub open spec fn same_meta(self, other: Player) -> bool {
        &&& self.name == other.name
        &&& self.strategy == other.strategy
        &&& self.score == other.score
        &&& self.rubies == other.rubies
        &&& self.flask == other.flask
        &&& self.drop == other.drop
    }

    /// The bag and cauldron agree (the counters may differ).
    pub open spec fn same_holdings(self, other: Player) -> bool {
        &&& self.bag@ == other.bag@
        &&& self.cauldron == other.cauldron
    }

    /// The counters are far enough below the machine word for a round of
    /// gains, and the cauldron invariant holds.
    pub open spec fn headroom(self) -> bool {
        &&& self.score <= COUNTER_ROOM
        &&& self.rubies <= COUNTER_ROOM
        &&& self.drop <= COUNTER_ROOM
        &&& self.cauldron.wf()
    }

    /// A fresh player: empty counters, a full flask, an empty cauldron, and
    /// the standard starting bag.
    pub fn new(name: &str, strategy: Strategy) -> (p: Player)
        ensures
            p.name@ == name@,
            p.strategy == strategy,
            p.score == 0,
            p.rubies == 0,
            p.flask,
            p.drop == 0,
            p.bag@ =~= starting_bag(),
            p.cauldron.wf(),
            p.cauldron.spec_chips() =~= Seq::<Chip>::empty(),
            p.cauldron.spec_position() == 0,
            p.cauldron.spec_limit() == 7,
            p.headroom(),
    {
        let mut bag: Vec<Chip> = Vec::new();
        bag.push(Chip::White1);
        bag.push(Chip::White1);
        bag.push(Chip::White1);
        bag.push(Chip::White1);
        bag.push(Chip::White2);
        bag.push(Chip::White2);
        bag.push(Chip::White3);
        bag.push(Chip::Orange1);
        bag.push(Chip::Green1);
        Player {
            name: name.to_owned(),
            strategy,
            score: 0,
            rubies: 0,
            flask: true,
            drop: 0,
            cauldron: Cauldron::new(),
            bag,
        }
    }

    /// Draws one chip from the bag: a uniformly random index is removed.
    /// Drawing from an empty bag is a programming error, which the
    /// precondition rules out.
    pub fn draw(&mut self, rng: &mut rand::rngs::SmallRng) -> (c: Chip)
        requires
            old(self).bag@.len() > 0,
        ensures
            exists|k: int|
                0 <= k < old(self).bag@.len() && c == old(self).bag@[k] && final(self).bag@
                    == old(self).bag@.remove(k),
            final(self).bag@.len() == old(self).bag@.len() - 1,
            final(self).same_meta(*old(self)),
            final(self).cauldron == old(self).cauldron,
    {
        let idx = rng_index(rng, self.bag.len());
        self.bag.remove(idx)
    }

    /// The player's cauldron.
    pub fn cauldron(&self) -> (r: &Cauldron)
        ensures
            *r == self.cauldron,
    {
        &self.cauldron
    }

    /// The player's cauldron, for mutation.
    pub fn cauldron_mut(&mut self) -> (r: &mut Cauldron)
        ensures
            *r == old(self).cauldron,
            final(self).cauldron == *final(r),
            final(self).same_meta(*old(self)),
            final(self).bag@ == old(self).bag@,
    {
        &mut self.cauldron
    }

    /// Places a chip in the cauldron. The cauldron must be neither full nor
    /// exploded.
    pub fn add_chip_to_cauldron(&mut self, chip: Chip)
        requires
            old(self).cauldron.wf(),
            !old(self).cauldron.spec_full(),
            !old(self).cauldron.spec_exploded(),
        ensures
            final(self).cauldron.wf(),
            final(self).cauldron.spec_chips() == old(self).cauldron.spec_chips().push(chip),
            final(self).cauldron.spec_position() == old(self).cauldron.spec_position()
                + chip.spec_value(),
            final(self).cauldron.spec_limit() == old(self).cauldron.spec_limit(),
            final(self).same_meta(*old(self)),
            final(self).bag@ == old(self).bag@,
    {
        self.cauldron.add_chip(chip);
    }

    /// Drains the cauldron back into the bag at the end of a round.
    pub fn empty_cauldron(&mut self)
        ensures
            final(self).bag@ == old(self).bag@ + old(self).cauldron.spec_chips(),
            final(self).cauldron.wf(),
            final(self).cauldron.spec_chips() =~= Seq::<Chip>::empty(),
            final(self).cauldron.spec_position() == 0,
            final(self).cauldron.spec_limit() == old(self).cauldron.spec_limit(),
            final(self).same_meta(*old(self)),
    {
        let mut chips = self.cauldron.remove_all();
        self.bag.append(&mut chips);
    }

    /// The player's bag of drawable chips.
    pub fn bag(&self) -> (r: &Vec<Chip>)
        ensures
            r@ == self.bag@,
    {
        &self.bag
    }

    /// The player's bag, for mutation.
    pub fn bag_mut(&mut self) -> (r: &mut Vec<Chip>)
        ensures
            r@ == old(self).bag@,
            final(self).bag@ == final(r)@,
            final(self).same_meta(*old(self)),
            final(self).cauldron == old(self).cauldron,
    {
        &mut self.bag
    }

    /// Adds one chip to the bag (bonus-die grant or purchase).
    pub fn add_chip_to_bag(&mut self, chip: Chip)
        ensures
            final(self).bag@ == old(self).bag@.push(chip),
            final(self).same_meta(*old(self)),
            final(self).cauldron == old(self).cauldron,
    {
        self.bag.push(chip);
    }

    /// Whether the single-use flask is still available.
    pub fn flask(&self) -> (r: bool)
        ensures
            r == self.flask,
    {
        self.flask
    }

    /// Consumes the flask.
    pub fn use_flask(&mut self)
        ensures
            !final(self).flask,
            final(self).name == old(self).name,
            final(self).strategy == old(self).strategy,
            final(self).score == old(self).score,
            final(self).rubies == old(self).rubies,
            final(self).drop == old(self).drop,
            final(self).same_holdings(*old(self)),
    {
        self.flask = false;
    }

    /// Refills the flask (paid for with rubies at the end of a round).
    pub fn fill_flask(&mut self)
        ensures
            final(self).flask,
            final(self).name == old(self).name,
            final(self).strategy == old(self).strategy,
            final(self).score == old(self).score,
            final(self).rubies == old(self).rubies,
            final(self).drop == old(self).drop,
            final(self).same_holdings(*old(self)),
    {
        self.flask = true;
    }

    /// The flask may be spent only while it is unused and the most recent
    /// chip in the cauldron is white.
    pub fn can_use_flask(&self) -> (r: bool)
        ensures
            r == (self.flask && self.cauldron.spec_chips().len() > 0
                && self.cauldron.spec_chips().last().spec_color() == Color::White),
    {
        if !self.flask {
            return false;
        }
        match self.cauldron.last_chip() {
            Some(c) => c.color() == Color::White,
            None => false,
        }
    }

    /// The drop-track offset: future cauldrons start this far along.
    pub fn drop_position(&self) -> (r: u64)
        ensures
            r == self.drop,
    {
        self.drop
    }

    /// The ruby count.
    pub fn rubies(&self) -> (r: u64)
        ensures
            r == self.rubies,
    {
        self.rubies
    }

    /// Grants rubies.
    pub fn add_rubies(&mut self, cnt: u64)
        requires
            old(self).rubies + cnt <= u64::MAX,
        ensures
            final(self).rubies == old(self).rubies + cnt,
            final(self).name == old(self).name,
            final(self).strategy == old(self).strategy,
            final(self).score == old(self).score,
            final(self).flask == old(self).flask,
            final(self).drop == old(self).drop,
            final(self).same_holdings(*old(self)),
    {
        self.rubies = self.rubies + cnt;
    }

    /// Spends rubies; the caller checks the balance first.
    pub fn subtract_rubies(&mut self, cnt: u64)
        requires
            cnt <= old(self).rubies,
        ensures
            final(self).rubies == old(self).rubies - cnt,
            final(self).name == old(self).name,
            final(self).strategy == old(self).strategy,
            final(self).score == old(self).score,
            final(self).flask == old(self).flask,
            final(self).drop == old(self).drop,
            final(self).same_holdings(*old(self)),
    {
        self.rubies = self.rubies - cnt;
    }

    /// The running victory-point total.
    pub fn victory_points(&self) -> (r: u64)
        ensures
            r == self.score,
    {
        self.score
    }

    /// Grants victory points.
    pub fn add_victory_points(&mut self, points: u64)
        requires
            old(self).score + points <= u64::MAX,
        ensures
            final(self).score == old(self).score + points,
            final(self).name == old(self).name,
            final(self).strategy == old(self).strategy,
            final(self).rubies == old(self).rubies,
            final(self).flask == old(self).flask,
            final(self).drop == old(self).drop,
            final(self).same_holdings(*old(self)),
    {
        self.score = self.score + points;
    }

    /// Advances the drop track by one.
    pub fn move_drop(&mut self)
        requires
            old(self).drop < u64::MAX,
        ensures
            final(self).drop == old(self).drop + 1,
            final(self).name == old(self).name,
            final(self).strategy == old(self).strategy,
            final(self).score == old(self).score,
            final(self).rubies == old(self).rubies,
            final(self).flask == old(self).flask,
            final(self).same_holdings(*old(self)),
    {
        self.drop = self.drop + 1;
    }

    /// Asks the strategy whether to keep drawing.
    pub fn wants_to_continue_drawing(&self, turn: u8, rng: &mut rand::rngs::SmallRng) -> (r:
        bool)
        requires
            self.cauldron.wf(),
        ensures
            continue_decision_ok(self.strategy, turn, *self, r),
    {
        let strategy = self.strategy;
        strategy.continue_drawing(turn, self, rng)
    }

    /// Asks the strategy whether to spend the flask.
    pub fn wants_to_use_flask(&self, rng: &mut rand::rngs::SmallRng) -> (r: bool)
        requires
            self.cauldron.wf(),
        ensures
            flask_decision_ok(*self, r),
    {
        let strategy = self.strategy;
        strategy.spend_flask(self, rng)
    }

    /// Asks the strategy whether to buy with the exploded score's coins
    /// rather than take its points.
    pub fn wants_to_buy_instead_of_points(&self) -> (r: bool)
        ensures
            r,
    {
        let strategy = self.strategy;
        strategy.buy_instead_of_points(self)
    }

    /// Asks the strategy to pick a purchase bundle from the offered list.
    pub fn choose_chips_to_add_to_bag(&self, options: &Vec<Vec<Chip>>) -> (r: Option<usize>)
        ensures
            bag_choice_ok(self.strategy, options@, r),
    {
        let strategy = self.strategy;
        strategy.choose_chips_to_add_to_bag(options)
    }

    /// Asks the strategy which freshly drawn chip to keep.
    pub fn choose_chips_to_add_to_cauldon(
        &self,
        chips: &Vec<Chip>,
        rng: &mut rand::rngs::SmallRng,
    ) -> (r: Option<usize>)
        ensures
            cauldron_choice_ok(self.strategy, chips@, r),
    {
        let strategy = self.strategy;
        strategy.choose_chips_to_add_to_cauldon(chips, rng)
    }

    /// Asks the strategy whether to pay rubies to refill the flask.
    pub fn wants_to_pay_rubies_to_fill_flask(&self, rng: &mut rand::rngs::SmallRng) -> bool {
        let strategy = self.strategy;
        strategy.wants_to_pay_rubies_to_fill_flask(rng)
    }

    /// Asks the strategy whether to pay rubies to advance the drop track.
    pub fn wants_to_pay_rubies_to_move_drop(&self, price: u8, rng: &mut rand::rngs::SmallRng)
        -> (r: bool)
        ensures
            drop_pay_ok(self.strategy, price, *self, r),
    {
        let strategy = self.strategy;
        strategy.wants_to_pay_rubies_to_move_drop(price, self, rng)
    }
}

} // verus!
