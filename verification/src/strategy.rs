//! Per-player decision making. The three strategies of the game are a closed
//! set of variants dispatched by pattern match; every random choice draws
//! from the explicitly threaded generator, so a fixed seed reproduces a
//! whole match.

use vstd::prelude::*;

use crate::cauldron::{color_sum, explosive_count};
use crate::chip::{Chip, Color};
use crate::player::Player;
use crate::rng::{rng_ratio, rng_index};

verus! {

/// The pluggable decision-making variants.
#[derive(Clone, Copy, Debug, PartialEq, Eq, Structural)]
pub enum Strategy {
    /// Draws boldly early, cautiously later, and always buys.
    Simple,
    /// Chases blue chips when choosing what to buy or keep.
    PreferBlue,
    /// Chases one chosen color when choosing what to buy or keep.
    PreferColor(Color),
}

/// How many chips of the player's bag would explode the cauldron if drawn
/// next.
pub open spec fn risk_num(p: Player) -> int {
    explosive_count(
        p.bag@,
        color_sum(p.cauldron.spec_chips(), Color::White),
        p.cauldron.spec_limit(),
    )
}

/// How many chips the player's bag holds in all; the chance to explode on
/// the next draw is `risk_num / risk_den`, taken as zero on an empty bag.
pub open spec fn risk_den(p: Player) -> int {
    p.bag@.len() as int
}

/// What every continue-drawing decision guarantees: with no risk at all the
/// player draws on, facing certain explosion it stops, and the Simple
/// strategy is deterministic away from the middle turns.
pub open spec fn continue_decision_ok(st: Strategy, turn: u8, p: Player, r: bool) -> bool {
    let bad = risk_num(p);
    let total = risk_den(p);
    &&& (bad == 0 ==> r)
    &&& (0 < total == bad ==> !r)
    &&& (st is Simple && turn < 4 ==> r == (total == 0 || bad < total))
    &&& (st is Simple && turn >= 6 ==> r == (bad == 0))
}

/// What every flask decision guarantees: the flask is only ever spent under
/// a real risk of exploding.
pub open spec fn flask_decision_ok(p: Player, r: bool) -> bool {
    risk_num(p) == 0 ==> !r
}

/// The color a strategy favors when buying or keeping chips. The simple
/// strategy favors none; white stands for that, since no strategy ever
/// keeps a white chip.
pub open spec fn preferred_color(st: Strategy) -> Color {
    match st {
        Strategy::Simple => Color::White,
        Strategy::PreferBlue => Color::Blue,
        Strategy::PreferColor(pc) => pc,
    }
}

/// Whether any bundle of the sequence contains a chip of the color.
pub open spec fn bundle_has_color(opts: Seq<Vec<Chip>>, j: int, c: Color) -> bool {
    exists|k: int| 0 <= k < opts[j]@.len() && opts[j]@[k].spec_color() == c
}

/// What the choice of a purchase bundle guarantees: the preferring
/// strategies take the first bundle containing their color if one exists,
/// and every strategy otherwise names the first bundle, possibly out of
/// range of an empty list (the buy phase checks the index).
pub open spec fn bag_choice_ok(st: Strategy, opts: Seq<Vec<Chip>>, r: Option<usize>) -> bool {
    let c = preferred_color(st);
    match st {
        Strategy::Simple => r == Some(0usize),
        _ => {
            if exists|j: int| 0 <= j < opts.len() && bundle_has_color(opts, j, c) {
                r matches Some(i) && 0 <= i < opts.len() && bundle_has_color(opts, i as int, c)
                    && forall|j: int| 0 <= j < i ==> !bundle_has_color(opts, j, c)
            } else {
                r == Some(0usize)
            }
        },
    }
}

/// What the choice among freshly drawn chips guarantees: a chip is kept if
/// and only if one is not white; the kept chip is never white; and the
/// preferring strategies keep the highest-valued chip of their color when
/// one is offered, taking the last among equals.
pub open spec fn cauldron_choice_ok(st: Strategy, chips: Seq<Chip>, r: Option<usize>) -> bool {
    let pref = preferred_color(st);
    &&& (r is Some <==> exists|j: int|
        0 <= j < chips.len() && chips[j].spec_color() != Color::White)
    &&& (r matches Some(i) ==> 0 <= i < chips.len() && chips[i as int].spec_color()
        != Color::White)
    &&& (!(st is Simple) && (exists|j: int|
        0 <= j < chips.len() && chips[j].spec_color() == pref && pref != Color::White)
        ==> (r matches Some(i) && chips[i as int].spec_color() == pref && forall|j: int|
        0 <= j < chips.len() && chips[j].spec_color() == pref ==> chips[j].spec_value()
            < chips[i as int].spec_value() || (chips[j].spec_value()
            == chips[i as int].spec_value() && j <= i)))
    &&& (!(st is Simple) && !(exists|j: int|
        0 <= j < chips.len() && chips[j].spec_color() == pref && pref != Color::White)
        ==> (r matches Some(i) ==> forall|j: int|
        0 <= j < i ==> chips[j].spec_color() == Color::White))
}

/// What the pay-to-move-drop decision guarantees: the preferring strategies
/// always pay when the price is discounted or the player has rubies to
/// spare.
pub open spec fn drop_pay_ok(st: Strategy, price: u8, p: Player, r: bool) -> bool {
    !(st is Simple) && (price < 2 || p.rubies > 2) ==> r
}

/// Decides `true` with probability `num/den`, certainly at ratio 1 and
/// never at ratio 0. Halving both sides preserves those edges while
/// bringing huge counts into the range of the generator.
fn ratio_decision(rng: &mut rand::rngs::SmallRng, num: usize, den: usize) -> (b: bool)
    requires
        0 < den,
        num <= den,
    ensures
        num == 0 ==> !b,
        num == den ==> b,
{
    let mut n = num;
    let mut d = den;
    while d > u32::MAX as usize
        invariant
            0 < d,
            n <= d,
            num == 0 ==> n == 0,
            num == den ==> n == d,
        decreases d,
    {
        n = n / 2;
        d = d / 2;
    }
    rng_ratio(rng, n as u32, d as u32)
}

impl Strategy {
    /// Whether to keep drawing after a successful placement. Simple players
    /// stop only at certain explosion in early turns, flip a risk-weighted
    /// coin in the middle turns, and accept no risk at all from turn 6 on;
    /// the preferring strategies always flip the risk-weighted coin.
    pub fn continue_drawing(&self, turn: u8, player: &Player, rng: &mut rand::rngs::SmallRng)
        -> (r: bool)
        requires
            player.cauldron.wf(),
        ensures
            continue_decision_ok(*self, turn, *player, r),
    {
        let bad = player.cauldron.explosive_chips(&player.bag);
        let total = player.bag.len();
        match self {
            Strategy::Simple => {
                if turn < 4 {
                    total == 0 || bad < total
                } else if turn < 6 {
                    if total == 0 {
                        true
                    } else {
                        ratio_decision(rng, total - bad, total)
                    }
                } else {
                    bad == 0
                }
            },
            _ => {
                if total == 0 {
                    true
                } else if bad < total {
                    ratio_decision(rng, total - bad, total)
                } else {
                    false
                }
            },
        }
    }

    /// Whether to spend the flask on the just-placed white chip: sometimes,
    /// but only when a further draw could explode the cauldron.
    pub fn spend_flask(&self, player: &Player, rng: &mut rand::rngs::SmallRng) -> (r: bool)
        requires
            player.cauldron.wf(),
        ensures
            flask_decision_ok(*player, r),
    {
        let bad = player.cauldron.explosive_chips(&player.bag);
        if bad > 0 {
            rng_ratio(rng, 1, 2)
        } else {
            false
        }
    }

    /// After an explosion, whether to take the coins and buy rather than
    /// score points: every strategy buys.
    pub fn buy_instead_of_points(&self, _player: &Player) -> (r: bool)
        ensures
            r,
    {
        true
    }

    /// Picks a purchase bundle by index from the offered list (most
    /// expensive first), or the first bundle containing the preferred color.
    pub fn choose_chips_to_add_to_bag(&self, options: &Vec<Vec<Chip>>) -> (r: Option<usize>)
        ensures
            bag_choice_ok(*self, options@, r),
    {
        let pref = match self {
            Strategy::Simple => {
                return Some(0);
            },
            Strategy::PreferBlue => Color::Blue,
            Strategy::PreferColor(pc) => *pc,
        };
        let mut j: usize = 0;
        while j < options.len()
            invariant
                j <= options@.len(),
                forall|q: int| 0 <= q < j ==> !bundle_has_color(options@, q, pref),
                pref == preferred_color(*self),
                !(*self is Simple),
            decreases options@.len() - j,
        {
            let bundle = &options[j];
            let mut k: usize = 0;
            while k < bundle.len()
                invariant
                    k <= bundle@.len(),
                    bundle@ == options@[j as int]@,
                    j < options@.len(),
                    forall|q: int| 0 <= q < k ==> bundle@[q].spec_color() != pref,
                    forall|q: int| 0 <= q < j ==> !bundle_has_color(options@, q, pref),
                    pref == preferred_color(*self),
                    !(*self is Simple),
                decreases bundle@.len() - k,
            {
                if bundle[k].color() == pref {
                    assert(bundle_has_color(options@, j as int, preferred_color(*self)));
                    return Some(j);
                }
                k = k + 1;
            }
            assert(!bundle_has_color(options@, j as int, pref));
            j = j + 1;
        }
        Some(0)
    }

    /// Picks which of several freshly drawn chips to keep in the cauldron:
    /// never a white one; the preferring strategies take the best chip of
    /// their color when offered, and the simple strategy picks a non-white
    /// chip at random.
    pub fn choose_chips_to_add_to_cauldon(
        &self,
        chips: &Vec<Chip>,
        rng: &mut rand::rngs::SmallRng,
    ) -> (r: Option<usize>)
        ensures
            cauldron_choice_ok(*self, chips@, r),
    {
        match self {
            Strategy::Simple => {
                let mut picks: Vec<usize> = Vec::new();
                let mut i: usize = 0;
                while i < chips.len()
                    invariant
                        i <= chips@.len(),
                        forall|q: int| 0 <= q < picks@.len() ==> 0 <= #[trigger] picks@[q] < i
                            && chips@[picks@[q] as int].spec_color() != Color::White,
                        picks@.len() == 0 ==> forall|j: int|
                            0 <= j < i ==> chips@[j].spec_color() == Color::White,
                    decreases chips@.len() - i,
                {
                    if chips[i].color() != Color::White {
                        picks.push(i);
                    }
                    i = i + 1;
                }
                if picks.len() > 0 {
                    let w = rng_index(rng, picks.len());
                    Some(picks[w])
                } else {
                    None
                }
            },
            _ => {
                let pref = match self {
                    Strategy::Simple => Color::White,
                    Strategy::PreferBlue => Color::Blue,
                    Strategy::PreferColor(pc) => *pc,
                };
                assert(pref == preferred_color(*self));
                let mut best: Option<usize> = None;
                let mut first_other: Option<usize> = None;
                let mut i: usize = 0;
                while i < chips.len()
                    invariant
                        i <= chips@.len(),
                        best matches Some(b) ==> 0 <= b < i && chips@[b as int].spec_color()
                            == pref && pref != Color::White && forall|j: int|
                            0 <= j < i && chips@[j].spec_color() == pref
                                ==> chips@[j].spec_value() < chips@[b as int].spec_value() || (
                            chips@[j].spec_value() == chips@[b as int].spec_value() && j <= b),
                        best is None ==> forall|j: int|
                            0 <= j < i ==> !(chips@[j].spec_color() == pref && pref
                                != Color::White),
                        first_other matches Some(f) ==> 0 <= f < i && chips@[f as int].spec_color()
                            != Color::White && forall|j: int|
                            0 <= j < f ==> chips@[j].spec_color() == Color::White,
                        first_other is None ==> forall|j: int|
                            0 <= j < i ==> chips@[j].spec_color() == Color::White,
                        pref == preferred_color(*self),
                        !(*self is Simple),
                    decreases chips@.len() - i,
                {
                    let c = chips[i];
                    if c.color() == pref && pref != Color::White {
                        let take_it = match best {
                            None => true,
                            Some(b) => chips[b].value() <= c.value(),
                        };
                        if take_it {
                            best = Some(i);
                        }
                    }
                    if c.color() != Color::White && first_other.is_none() {
                        first_other = Some(i);
                    }
                    i = i + 1;
                }
                match best {
                    Some(b) => Some(b),
                    None => first_other,
                }
            },
        }
    }

    /// Whether to pay rubies to refill the flask: a coin flip for every
    /// strategy.
    pub fn wants_to_pay_rubies_to_fill_flask(&self, rng: &mut rand::rngs::SmallRng) -> bool {
        rng_ratio(rng, 1, 2)
    }

    /// Whether to pay rubies to advance the drop: the preferring strategies
    /// always pay at a discount or with rubies to spare; otherwise a coin
    /// flip.
    pub fn wants_to_pay_rubies_to_move_drop(
        &self,
        price: u8,
        player: &Player,
        rng: &mut rand::rngs::SmallRng,
    ) -> (r: bool)
        ensures
            drop_pay_ok(*self, price, *player, r),
    {
        match self {
            Strategy::Simple => rng_ratio(rng, 1, 2),
            _ => {
                if price < 2 || player.rubies > 2 {
                    true
                } else {
                    rng_ratio(rng, 1, 2)
                }
            },
        }
    }
}

} // verus!
