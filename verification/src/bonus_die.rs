//! The bonus die: a six-sided end-of-round reward roll for the round's top
//! scorer(s).

use vstd::prelude::*;

use crate::rng::rng_die;

verus! {

/// One of the four reward kinds a bonus-die face maps to.
#[derive(Clone, Copy, Debug, PartialEq, Eq, Structural)]
pub enum BonusDieResult {
    /// An extra orange chip goes into the bag.
    OrangeChip,
    /// One ruby.
    Ruby,
    /// One or two victory points.
    VictoryPoint(u8),
    /// The drop track advances one space.
    Drop,
}

/// The fixed face-to-reward mapping: 1 is the orange chip, 2 the ruby,
/// 3 and 4 one point, 5 two points, 6 the drop advance.
pub open spec fn spec_die_outcome(roll: u8) -> BonusDieResult {
    if roll == 1 {
        BonusDieResult::OrangeChip
    } else if roll == 2 {
        BonusDieResult::Ruby
    } else if roll == 3 || roll == 4 {
        BonusDieResult::VictoryPoint(1)
    } else if roll == 5 {
        BonusDieResult::VictoryPoint(2)
    } else {
        BonusDieResult::Drop
    }
}

/// Maps one die face to its reward.
pub fn die_outcome(roll: u8) -> (r: BonusDieResult)
    requires
        1 <= roll <= 6,
    ensures
        r == spec_die_outcome(roll),
{
    match roll {
        1 => BonusDieResult::OrangeChip,
        2 => BonusDieResult::Ruby,
        3 | 4 => BonusDieResult::VictoryPoint(1),
        5 => BonusDieResult::VictoryPoint(2),
        _ => BonusDieResult::Drop,
    }
}

/// Rolls the bonus die: some face between 1 and 6 comes up, and its reward
/// is returned.
pub fn roll_bonus_die(rng: &mut rand::rngs::SmallRng) -> (r: BonusDieResult)
    ensures
        exists|roll: u8| 1 <= roll <= 6 && r == #[trigger] spec_die_outcome(roll),
        r matches BonusDieResult::VictoryPoint(p) ==> 1 <= p <= 2,
{
    let roll = rng_die(rng);
    let r = die_outcome(roll);
    assert(r == spec_die_outcome(roll));
    r
}

} // verus!
