//! The cauldron: the per-round, per-player risk container. Chips placed this
//! round advance a position counter; the position maps to a score through a
//! fixed ascending table, and the cauldron explodes when the total value of
//! its white chips exceeds the limit.

use vstd::prelude::*;

use crate::chip::{Chip, Color};

verus! {

/// Index of the last entry of the scoring table.
pub const LAST_FIELD: u64 = 51;

/// The reward read off the scoring table: coins to spend in the purchase
/// phase, victory points, and whether the space carries a ruby.
#[derive(Clone, Copy, Debug, PartialEq, Eq, Structural)]
pub struct Score {
    pub coins: u8,
    pub points: u8,
    pub ruby: bool,
}

/// Encodes a ruby flag as an integer so the score order is a plain
/// lexicographic order on integers.
pub open spec fn ruby_val(b: bool) -> int {
    if b {
        1
    } else {
        0
    }
}

impl Score {
    /// The total order on scores: lexicographic on (coins, points, ruby).
    pub open spec fn spec_le(self, other: Score) -> bool {
        ||| self.coins < other.coins
        ||| (self.coins == other.coins && self.points < other.points)
        ||| (self.coins == other.coins && self.points == other.points && ruby_val(self.ruby)
            <= ruby_val(other.ruby))
    }

    /// Compares two scores in the lexicographic (coins, points, ruby) order.
    pub fn le(&self, other: &Score) -> (r: bool)
        ensures
            r == self.spec_le(*other),
    {
        if self.coins != other.coins {
            self.coins < other.coins
        } else if self.points != other.points {
            self.points < other.points
        } else {
            !self.ruby || other.ruby
        }
    }
}

/// The fixed 52-entry scoring table, indexed by clamped cauldron position.
pub open spec fn table_entry(pos: int) -> Score {
    if pos <= 0 { Score { coins: 0, points: 0, ruby: false } }
    else if pos == 1 { Score { coins: 1, points: 0, ruby: false } }
    else if pos == 2 { Score { coins: 2, points: 0, ruby: false } }
    else if pos == 3 { Score { coins: 3, points: 0, ruby: false } }
    else if pos == 4 { Score { coins: 4, points: 0, ruby: false } }
    else if pos == 5 { Score { coins: 5, points: 0, ruby: true } }
    else if pos == 6 { Score { coins: 6, points: 1, ruby: false } }
    else if pos == 7 { Score { coins: 7, points: 1, ruby: false } }
    else if pos == 8 { Score { coins: 8, points: 1, ruby: false } }
    else if pos == 9 { Score { coins: 9, points: 1, ruby: true } }
    else if pos == 10 { Score { coins: 10, points: 2, ruby: false } }
    else if pos == 11 { Score { coins: 11, points: 2, ruby: false } }
    else if pos == 12 { Score { coins: 12, points: 2, ruby: false } }
    else if pos == 13 { Score { coins: 13, points: 2, ruby: true } }
    else if pos == 14 { Score { coins: 14, points: 3, ruby: false } }
    else if pos == 15 { Score { coins: 15, points: 3, ruby: false } }
    else if pos == 16 { Score { coins: 16, points: 3, ruby: false } }
    else if pos == 17 { Score { coins: 16, points: 4, ruby: false } }
    else if pos == 18 { Score { coins: 17, points: 4, ruby: false } }
    else if pos == 19 { Score { coins: 17, points: 4, ruby: true } }
    else if pos == 20 { Score { coins: 18, points: 4, ruby: false } }
    else if pos == 21 { Score { coins: 18, points: 5, ruby: false } }
    else if pos == 22 { Score { coins: 19, points: 5, ruby: false } }
    else if pos == 23 { Score { coins: 19, points: 5, ruby: true } }
    else if pos == 24 { Score { coins: 20, points: 5, ruby: false } }
    else if pos == 25 { Score { coins: 20, points: 6, ruby: false } }
    else if pos == 26 { Score { coins: 21, points: 6, ruby: false } }
    else if pos == 27 { Score { coins: 21, points: 6, ruby: true } }
    else if pos == 28 { Score { coins: 22, points: 7, ruby: false } }
    else if pos == 29 { Score { coins: 22, points: 7, ruby: true } }
    else if pos == 30 { Score { coins: 23, points: 7, ruby: false } }
    else if pos == 31 { Score { coins: 23, points: 8, ruby: false } }
    else if pos == 32 { Score { coins: 24, points: 8, ruby: false } }
    else if pos == 33 { Score { coins: 24, points: 8, ruby: true } }
    else if pos == 34 { Score { coins: 25, points: 9, ruby: false } }
    else if pos == 35 { Score { coins: 25, points: 9, ruby: true } }
    else if pos == 36 { Score { coins: 26, points: 9, ruby: false } }
    else if pos == 37 { Score { coins: 26, points: 10, ruby: false } }
    else if pos == 38 { Score { coins: 27, points: 10, ruby: false } }
    else if pos == 39 { Score { coins: 27, points: 10, ruby: true } }
    else if pos == 40 { Score { coins: 28, points: 11, ruby: false } }
    else if pos == 41 { Score { coins: 29, points: 11, ruby: false } }
    else if pos == 42 { Score { coins: 29, points: 12, ruby: false } }
    else if pos == 43 { Score { coins: 30, points: 12, ruby: false } }
    else if pos == 44 { Score { coins: 30, points: 12, ruby: true } }
    else if pos == 45 { Score { coins: 31, points: 12, ruby: false } }
    else if pos == 46 { Score { coins: 31, points: 13, ruby: false } }
    else if pos == 47 { Score { coins: 32, points: 13, ruby: false } }
    else if pos == 48 { Score { coins: 32, points: 13, ruby: true } }
    else if pos == 49 { Score { coins: 33, points: 14, ruby: false } }
    else if pos == 50 { Score { coins: 33, points: 14, ruby: true } }
    else { Score { coins: 35, points: 15, ruby: false } }
}

/// Looks up the scoring table at a position already clamped into range.
fn table_lookup(pos: u64) -> (s: Score)
    requires
        pos <= LAST_FIELD,
    ensures
        s == table_entry(pos as int),
{
    if pos == 0 { Score { coins: 0, points: 0, ruby: false } }
    else if pos == 1 { Score { coins: 1, points: 0, ruby: false } }
    else if pos == 2 { Score { coins: 2, points: 0, ruby: false } }
    else if pos == 3 { Score { coins: 3, points: 0, ruby: false } }
    else if pos == 4 { Score { coins: 4, points: 0, ruby: false } }
    else if pos == 5 { Score { coins: 5, points: 0, ruby: true } }
    else if pos == 6 { Score { coins: 6, points: 1, ruby: false } }
    else if pos == 7 { Score { coins: 7, points: 1, ruby: false } }
    else if pos == 8 { Score { coins: 8, points: 1, ruby: false } }
    else if pos == 9 { Score { coins: 9, points: 1, ruby: true } }
    else if pos == 10 { Score { coins: 10, points: 2, ruby: false } }
    else if pos == 11 { Score { coins: 11, points: 2, ruby: false } }
    else if pos == 12 { Score { coins: 12, points: 2, ruby: false } }
    else if pos == 13 { Score { coins: 13, points: 2, ruby: true } }
    else if pos == 14 { Score { coins: 14, points: 3, ruby: false } }
    else if pos == 15 { Score { coins: 15, points: 3, ruby: false } }
    else if pos == 16 { Score { coins: 16, points: 3, ruby: false } }
    else if pos == 17 { Score { coins: 16, points: 4, ruby: false } }
    else if pos == 18 { Score { coins: 17, points: 4, ruby: false } }
    else if pos == 19 { Score { coins: 17, points: 4, ruby: true } }
    else if pos == 20 { Score { coins: 18, points: 4, ruby: false } }
    else if pos == 21 { Score { coins: 18, points: 5, ruby: false } }
    else if pos == 22 { Score { coins: 19, points: 5, ruby: false } }
    else if pos == 23 { Score { coins: 19, points: 5, ruby: true } }
    else if pos == 24 { Score { coins: 20, points: 5, ruby: false } }
    else if pos == 25 { Score { coins: 20, points: 6, ruby: false } }
    else if pos == 26 { Score { coins: 21, points: 6, ruby: false } }
    else if pos == 27 { Score { coins: 21, points: 6, ruby: true } }
    else if pos == 28 { Score { coins: 22, points: 7, ruby: false } }
    else if pos == 29 { Score { coins: 22, points: 7, ruby: true } }
    else if pos == 30 { Score { coins: 23, points: 7, ruby: false } }
    else if pos == 31 { Score { coins: 23, points: 8, ruby: false } }
    else if pos == 32 { Score { coins: 24, points: 8, ruby: false } }
    else if pos == 33 { Score { coins: 24, points: 8, ruby: true } }
    else if pos == 34 { Score { coins: 25, points: 9, ruby: false } }
    else if pos == 35 { Score { coins: 25, points: 9, ruby: true } }
    else if pos == 36 { Score { coins: 26, points: 9, ruby: false } }
    else if pos == 37 { Score { coins: 26, points: 10, ruby: false } }
    else if pos == 38 { Score { coins: 27, points: 10, ruby: false } }
    else if pos == 39 { Score { coins: 27, points: 10, ruby: true } }
    else if pos == 40 { Score { coins: 28, points: 11, ruby: false } }
    else if pos == 41 { Score { coins: 29, points: 11, ruby: false } }
    else if pos == 42 { Score { coins: 29, points: 12, ruby: false } }
    else if pos == 43 { Score { coins: 30, points: 12, ruby: false } }
    else if pos == 44 { Score { coins: 30, points: 12, ruby: true } }
    else if pos == 45 { Score { coins: 31, points: 12, ruby: false } }
    else if pos == 46 { Score { coins: 31, points: 13, ruby: false } }
    else if pos == 47 { Score { coins: 32, points: 13, ruby: false } }
    else if pos == 48 { Score { coins: 32, points: 13, ruby: true } }
    else if pos == 49 { Score { coins: 33, points: 14, ruby: false } }
    else if pos == 50 { Score { coins: 33, points: 14, ruby: true } }
    else { Score { coins: 35, points: 15, ruby: false } }
}

/// Sum of the denominations of every chip in the sequence.
pub open spec fn sum_values(s: Seq<Chip>) -> int
    decreases s.len(),
{
    if s.len() == 0 {
        0
    } else {
        sum_values(s.drop_last()) + s.last().spec_value()
    }
}

/// Sum of the denominations of the chips of one color.
pub open spec fn color_sum(s: Seq<Chip>, c: Color) -> int
    decreases s.len(),
{
    if s.len() == 0 {
        0
    } else {
        color_sum(s.drop_last(), c) + if s.last().spec_color() == c {
            s.last().spec_value()
        } else {
            0
        }
    }
}

/// Number of chips of one color.
pub open spec fn color_count(s: Seq<Chip>, c: Color) -> int
    decreases s.len(),
{
    if s.len() == 0 {
        0
    } else {
        color_count(s.drop_last(), c) + if s.last().spec_color() == c {
            1int
        } else {
            0int
        }
    }
}

/// Relates the three chip sums: each is non-negative, the per-color sum and
/// count are bounded by the total, and every chip counts for at least 1.
pub proof fn lemma_sum_relations(s: Seq<Chip>, c: Color)
    ensures
        0 <= color_count(s, c),
        color_count(s, c) <= color_sum(s, c),
        color_sum(s, c) <= sum_values(s),
        s.len() <= sum_values(s),
    decreases s.len(),
{
    if s.len() > 0 {
        lemma_sum_relations(s.drop_last(), c);
    }
}

/// Pushing one chip extends each sum by that chip's contribution.
pub proof fn lemma_sums_push(s: Seq<Chip>, x: Chip, c: Color)
    ensures
        sum_values(s.push(x)) == sum_values(s) + x.spec_value(),
        color_sum(s.push(x), c) == color_sum(s, c) + if x.spec_color() == c {
            x.spec_value()
        } else {
            0int
        },
        color_count(s.push(x), c) == color_count(s, c) + if x.spec_color() == c {
            1int
        } else {
            0int
        },
{
    assert(s.push(x).drop_last() =~= s);
}

/// How many chips of the sequence are white and worth enough to push the
/// given white total past the limit.
pub open spec fn explosive_count(s: Seq<Chip>, white_total: int, limit: int) -> int
    decreases s.len(),
{
    if s.len() == 0 {
        0
    } else {
        explosive_count(s.drop_last(), white_total, limit) + if s.last().spec_color()
            == Color::White && white_total + s.last().spec_value() > limit {
            1int
        } else {
            0int
        }
    }
}

/// The per-round working state of one player: the chips placed so far, the
/// accumulated position on the scoring track, and the white-chip limit.
#[derive(Debug)]
pub struct Cauldron {
    limit: u8,
    position: u64,
    chips: Vec<Chip>,
}

impl Cauldron {
    /// The chips placed this round, oldest first.
    pub closed spec fn spec_chips(self) -> Seq<Chip> {
        self.chips@
    }

    /// The accumulated position on the scoring track.
    pub closed spec fn spec_position(self) -> int {
        self.position as int
    }

    /// The white-chip limit above which the cauldron explodes.
    pub closed spec fn spec_limit(self) -> int {
        self.limit as int
    }

    /// Chips can only enter while the position is below the end of the table,
    /// so their total value never exceeds the position nor a small bound;
    /// the limit, stored unsigned, is never negative.
    pub open spec fn wf(self) -> bool {
        &&& sum_values(self.spec_chips()) <= self.spec_position()
        &&& sum_values(self.spec_chips()) <= LAST_FIELD + 4
        &&& self.spec_limit() >= 0
    }

    /// The part of the position not carried by the chips in the cauldron:
    /// the starting offsets and rule bonuses. Chips move the position by
    /// exactly their value, so this quantity never shrinks during a round.
    pub open spec fn spec_free(self) -> int {
        self.spec_position() - sum_values(self.spec_chips())
    }

    /// Full: the position has reached the last space of the scoring table.
    pub open spec fn spec_full(self) -> bool {
        self.spec_position() >= LAST_FIELD
    }

    /// Exploded: the white chips placed are worth more than the limit.
    pub open spec fn spec_exploded(self) -> bool {
        color_sum(self.spec_chips(), Color::White) > self.spec_limit()
    }

    /// The score for the current position, clamped into the table.
    pub open spec fn spec_score(self) -> Score {
        if self.spec_position() <= LAST_FIELD {
            table_entry(self.spec_position())
        } else {
            table_entry(LAST_FIELD as int)
        }
    }

    /// An empty cauldron with the base-game white-chip limit of 7.
    pub fn new() -> (c: Cauldron)
        ensures
            c.wf(),
            c.spec_chips() =~= Seq::<Chip>::empty(),
            c.spec_position() == 0,
            c.spec_limit() == 7,
    {
        Cauldron { position: 0, limit: 7, chips: Vec::new() }
    }

    /// Whether the position has reached the end of the scoring table.
    pub fn is_full(&self) -> (r: bool)
        ensures
            r == self.spec_full(),
    {
        self.position >= LAST_FIELD
    }

    /// Whether an advance of `n` spaces stays within the machine word.
    pub fn can_advance(&self, n: u64) -> (r: bool)
        ensures
            r == (self.spec_position() + n <= u64::MAX),
    {
        self.position <= u64::MAX - n
    }

    /// Advances the position without placing a chip (drop offset, rat tails,
    /// and rule bonuses).
    pub fn increase_position(&mut self, n: u64)
        requires
            old(self).spec_position() + n <= u64::MAX,
    ensures
            final(self).spec_position() == old(self).spec_position() + n,
            final(self).spec_chips() == old(self).spec_chips(),
            final(self).spec_limit() == old(self).spec_limit(),
            old(self).wf() ==> final(self).wf(),
    {
        self.position = self.position + n;
    }

    /// Places a chip: appends it and advances the position by its value.
    /// Adding to a full or exploded cauldron is a programming error, which
    /// the precondition rules out.
    pub fn add_chip(&mut self, chip: Chip)
        requires
            old(self).wf(),
            !old(self).spec_full(),
            !old(self).spec_exploded(),
        ensures
            final(self).wf(),
            final(self).spec_chips() == old(self).spec_chips().push(chip),
            final(self).spec_position() == old(self).spec_position() + chip.spec_value(),
            final(self).spec_limit() == old(self).spec_limit(),
    {
        proof {
            lemma_sum_relations(self.chips@, Color::White);
            lemma_sums_push(self.chips@, chip, Color::White);
        }
        let v = chip.value();
        self.chips.push(chip);
        self.position = self.position + v as u64;
    }

    /// The most recently placed chip, if any.
    pub fn last_chip(&self) -> (r: Option<Chip>)
        ensures
            r == if self.spec_chips().len() == 0 {
                Option::<Chip>::None
            } else {
                Option::Some(self.spec_chips().last())
            },
    {
        if self.chips.len() == 0 {
            None
        } else {
            Some(self.chips[self.chips.len() - 1])
        }
    }

    /// A read-only view of the chips placed this round.
    pub fn chips(&self) -> (r: &Vec<Chip>)
        ensures
            r@ == self.spec_chips(),
    {
        &self.chips
    }

    /// Removes the most recently placed chip and gives its value back to the
    /// position; `None` on an empty cauldron.
    pub fn remove_last(&mut self) -> (r: Option<Chip>)
        requires
            old(self).wf(),
        ensures
            final(self).wf(),
            final(self).spec_limit() == old(self).spec_limit(),
            old(self).spec_chips().len() == 0 ==> {
                &&& r is None
                &&& *final(self) == *old(self)
            },
            old(self).spec_chips().len() > 0 ==> {
                &&& r == Option::Some(old(self).spec_chips().last())
                &&& final(self).spec_chips() == old(self).spec_chips().drop_last()
                &&& final(self).spec_position() == old(self).spec_position()
                    - old(self).spec_chips().last().spec_value()
            },
    {
        if self.chips.len() == 0 {
            None
        } else {
            proof {
                lemma_sum_relations(self.chips@.drop_last(), Color::White);
            }
            let chip = self.chips.pop().unwrap();
            self.position = self.position - chip.value() as u64;
            Some(chip)
        }
    }

    /// Drains every chip (ownership moves to the caller, normally back into
    /// the bag) and resets the position to 0.
    pub fn remove_all(&mut self) -> (r: Vec<Chip>)
        ensures
            final(self).wf(),
            r@ == old(self).spec_chips(),
            final(self).spec_chips() =~= Seq::<Chip>::empty(),
            final(self).spec_position() == 0,
            final(self).spec_limit() == old(self).spec_limit(),
    {
        let mut chips = Vec::new();
        std::mem::swap(&mut chips, &mut self.chips);
        self.position = 0;
        chips
    }

    /// Number of chips of the given color placed this round.
    pub fn number_of(&self, color: Color) -> (n: u8)
        requires
            self.wf(),
        ensures
            n == color_count(self.spec_chips(), color),
    {
        proof {
            lemma_sum_relations(self.spec_chips(), color);
        }
        let mut n: u8 = 0;
        let mut i: usize = 0;
        while i < self.chips.len()
            invariant
                i <= self.chips@.len(),
                self.chips@.len() <= LAST_FIELD + 4,
                n == color_count(self.chips@.take(i as int), color),
                n <= i,
            decreases self.chips@.len() - i,
        {
            proof {
                assert(self.chips@.take(i + 1).drop_last() =~= self.chips@.take(i as int));
                assert(self.chips@.take(i + 1).last() == self.chips@[i as int]);
            }
            if self.chips[i].color() == color {
                n = n + 1;
            }
            i = i + 1;
        }
        proof {
            assert(self.chips@.take(self.chips@.len() as int) =~= self.chips@);
        }
        n
    }

    /// Total value of the chips of the given color placed this round.
    pub fn total_value_of(&self, color: Color) -> (v: u8)
        requires
            self.wf(),
        ensures
            v == color_sum(self.spec_chips(), color),
    {
        let mut v: u8 = 0;
        let mut i: usize = 0;
        while i < self.chips.len()
            invariant
                i <= self.chips@.len(),
                v == color_sum(self.chips@.take(i as int), color),
                self.wf(),
            decreases self.chips@.len() - i,
        {
            proof {
                assert(self.chips@.take(i + 1).drop_last() =~= self.chips@.take(i as int));
                assert(self.chips@.take(i + 1).last() == self.chips@[i as int]);
                lemma_color_sum_prefix(self.chips@, i + 1, color);
                lemma_sum_relations(self.chips@, color);
            }
            let c = self.chips[i];
            if c.color() == color {
                assert(color_sum(self.chips@.take(i + 1), color) <= LAST_FIELD + 4);
                v = v + c.value();
            }
            i = i + 1;
        }
        proof {
            assert(self.chips@.take(self.chips@.len() as int) =~= self.chips@);
        }
        v
    }

    /// Whether the white chips placed are worth more than the limit.
    pub fn is_exploded(&self) -> (r: bool)
        requires
            self.wf(),
        ensures
            r == self.spec_exploded(),
    {
        self.total_value_of(Color::White) > self.limit
    }

    /// Counts the chips of the remaining bag that would set the cauldron off
    /// if drawn next: white chips whose value pushes the white total past
    /// the limit. Dividing by the bag size gives the chance to explode on
    /// the next draw; an empty bag allows no draw, so it means zero risk.
    pub fn explosive_chips(&self, bag: &Vec<Chip>) -> (n: usize)
        requires
            self.wf(),
        ensures
            n == explosive_count(
                bag@,
                color_sum(self.spec_chips(), Color::White),
                self.spec_limit(),
            ),
            n <= bag@.len(),
    {
        let white_total = self.total_value_of(Color::White);
        let ghost wt = color_sum(self.spec_chips(), Color::White);
        let ghost lim = self.spec_limit();
        let mut n: usize = 0;
        let mut i: usize = 0;
        while i < bag.len()
            invariant
                i <= bag@.len(),
                n <= i,
                n == explosive_count(bag@.take(i as int), wt, lim),
                white_total == wt,
                lim == self.spec_limit(),
                self.wf(),
            decreases bag@.len() - i,
        {
            proof {
                assert(bag@.take(i + 1).drop_last() =~= bag@.take(i as int));
                assert(bag@.take(i + 1).last() == bag@[i as int]);
            }
            let c = bag[i];
            if c.color() == Color::White && white_total as u64 + c.value() as u64 > self.limit as u64 {
                n = n + 1;
            }
            i = i + 1;
        }
        proof {
            assert(bag@.take(bag@.len() as int) =~= bag@);
        }
        n
    }

    /// The score for the current position; positions beyond the table clamp
    /// to its last entry.
    pub fn score(&self) -> (s: Score)
        ensures
            s == self.spec_score(),
    {
        let pos = if self.position < LAST_FIELD {
            self.position
        } else {
            LAST_FIELD
        };
        table_lookup(pos)
    }
}

/// A chip of any color other than white leaves the white total unchanged,
/// so placing it can never set off an explosion by itself.
pub proof fn lemma_non_white_chip_never_explodes(s: Seq<Chip>, x: Chip, limit: int)
    requires
        x.spec_color() != Color::White,
    ensures
        color_sum(s.push(x), Color::White) == color_sum(s, Color::White),
        color_sum(s, Color::White) <= limit ==> color_sum(s.push(x), Color::White) <= limit,
{
    lemma_sums_push(s, x, Color::White);
}

/// Each scoring-table entry is no larger than its successor, under the
/// lexicographic (coins, points, ruby) order.
proof fn lemma_table_step(p: int)
    requires
        0 <= p < LAST_FIELD,
    ensures
        table_entry(p).spec_le(table_entry(p + 1)),
{
}

/// The scoring table ascends: a smaller clamped position never scores higher
/// than a larger one.
pub proof fn lemma_table_monotonic(p1: int, p2: int)
    requires
        0 <= p1 <= p2 <= LAST_FIELD,
    ensures
        table_entry(p1).spec_le(table_entry(p2)),
    decreases p2 - p1,
{
    if p1 < p2 {
        lemma_table_monotonic(p1, p2 - 1);
        lemma_table_step(p2 - 1);
    }
}

/// Score monotonicity for cauldrons: a cauldron whose position is no larger
/// scores no higher, and the score depends on the clamped position alone.
pub proof fn lemma_score_monotonic(c1: Cauldron, c2: Cauldron)
    requires
        c1.spec_position() <= c2.spec_position(),
    ensures
        c1.spec_score().spec_le(c2.spec_score()),
{
    let p1 = if c1.spec_position() <= LAST_FIELD { c1.spec_position() } else { LAST_FIELD as int };
    let p2 = if c2.spec_position() <= LAST_FIELD { c2.spec_position() } else { LAST_FIELD as int };
    lemma_table_monotonic(p1, p2);
}

/// The color count never exceeds the length of the sequence.
pub proof fn lemma_count_le_len(s: Seq<Chip>, c: Color)
    ensures
        color_count(s, c) <= s.len(),
    decreases s.len(),
{
    if s.len() > 0 {
        lemma_count_le_len(s.drop_last(), c);
    }
}

/// The color sum of a prefix is bounded by the color sum of the whole
/// sequence.
pub proof fn lemma_color_sum_prefix(s: Seq<Chip>, i: int, c: Color)
    requires
        0 <= i <= s.len(),
    ensures
        color_sum(s.take(i), c) <= color_sum(s, c),
        0 <= color_sum(s.take(i), c),
    decreases s.len() - i,
{
    lemma_sum_relations(s.take(i), c);
    if i < s.len() {
        assert(s.take(i + 1).drop_last() =~= s.take(i));
        lemma_color_sum_prefix(s, i + 1, c);
    } else {
        assert(s.take(i) =~= s);
    }
}

} // verus!
