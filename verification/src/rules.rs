//! The rule-hook system: a registry of rules invoked at well-defined event
//! points of a round. Every hook is a no-op except on the one rule that
//! implements it, and hooks fire for every registered rule in registration
//! order.

use vstd::prelude::*;

use crate::cauldron::{color_count, color_sum, Cauldron, LAST_FIELD};
use crate::chip::{Chip, Color};
use crate::player::{chip_count, Player};

verus! {

broadcast use vstd::seq_lib::group_to_multiset_ensures, vstd::multiset::group_multiset_axioms;

/// The closed set of rule cards in play. Each variant owns the hooks of one
/// chip color's behavior and contributes that color's purchase options.
#[derive(Clone, Copy, Debug, PartialEq, Eq, Structural)]
pub enum Rule {
    Orange,
    Black,
    Green,
    Red,
    Blue,
    Yellow,
    Purple,
}

/// An ordered collection of rules; hooks run in registration order.
#[derive(Debug)]
pub struct RuleSet {
    pub rules: Vec<Rule>,
}

/// How many times one rule occurs in a registry prefix.
pub open spec fn rule_count(rules: Seq<Rule>, r: Rule) -> int
    decreases rules.len(),
{
    if rules.len() == 0 {
        0
    } else {
        rule_count(rules.drop_last(), r) + if rules.last() == r {
            1int
        } else {
            0int
        }
    }
}

/// A freshly placed chip keeps the position within one chip value of the
/// table end, so the yellow swap can always put its chips back. The guard
/// holds whenever the last chip entered through a legal placement.
pub open spec fn yellow_guard(c: Cauldron) -> bool {
    c.spec_chips().len() > 0 && (c.spec_chips().last().spec_color() == Color::Yellow
        ==> c.spec_position() - c.spec_chips().last().spec_value() < LAST_FIELD)
}

/// The red rule: a freshly placed red chip advances the position by 1 when
/// the cauldron holds one or two orange chips, by 2 when it holds more.
pub open spec fn red_bonus(orange: int) -> int {
    if orange == 0 {
        0
    } else if orange <= 2 {
        1
    } else {
        2
    }
}

/// Fires when a red chip lands in the cauldron: grants the orange-dependent
/// position bonus. The advance is skipped in the unreachable case that it
/// would leave the machine word.
pub fn red_chip_drawn(p: &mut Player)
    requires
        old(p).cauldron.wf(),
    ensures
        final(p).cauldron.wf(),
        final(p).same_meta(*old(p)),
        final(p).bag@ == old(p).bag@,
        final(p).cauldron.spec_chips() == old(p).cauldron.spec_chips(),
        final(p).cauldron.spec_limit() == old(p).cauldron.spec_limit(),
        final(p).cauldron.spec_free() >= old(p).cauldron.spec_free(),
        ({
            let b = red_bonus(color_count(old(p).cauldron.spec_chips(), Color::Orange));
            if old(p).cauldron.spec_position() + b <= u64::MAX {
                final(p).cauldron.spec_position() == old(p).cauldron.spec_position() + b
            } else {
                final(p).cauldron.spec_position() == old(p).cauldron.spec_position()
            }
        }),
{
    let cnt = p.cauldron.number_of(Color::Orange);
    let bonus: u64 = if cnt == 1 || cnt == 2 {
        1
    } else if cnt > 2 {
        2
    } else {
        0
    };
    if bonus > 0 && p.cauldron.can_advance(bonus) {
        p.cauldron.increase_position(bonus);
    }
}

/// Fires when a yellow chip lands in the cauldron: the chip under it is
/// lifted out; a white one stays out of the sequence with its value kept as
/// plain position, any other chip goes straight back under the yellow one.
pub fn yellow_chip_drawn(p: &mut Player)
    requires
        old(p).cauldron.wf(),
        old(p).cauldron.spec_chips().len() > 0,
        old(p).cauldron.spec_chips().last().spec_color() == Color::Yellow,
        !old(p).cauldron.spec_exploded(),
        yellow_guard(old(p).cauldron),
    ensures
        final(p).cauldron.wf(),
        final(p).same_meta(*old(p)),
        final(p).bag@ == old(p).bag@,
        final(p).cauldron.spec_limit() == old(p).cauldron.spec_limit(),
        final(p).cauldron.spec_position() == old(p).cauldron.spec_position(),
        final(p).cauldron.spec_free() >= old(p).cauldron.spec_free(),
        !final(p).cauldron.spec_exploded(),
        final(p).cauldron.spec_chips().len() > 0,
        final(p).cauldron.spec_chips().last() == old(p).cauldron.spec_chips().last(),
        ({
            let s = old(p).cauldron.spec_chips();
            if s.len() >= 2 && s[s.len() - 2].spec_color() == Color::White {
                final(p).cauldron.spec_chips() =~= s.drop_last().drop_last().push(s.last())
            } else {
                final(p).cauldron.spec_chips() =~= s
            }
        }),
        forall|c: Chip|
            c.spec_color() != Color::White ==> chip_count(*final(p), c) == chip_count(
                *old(p),
                c,
            ),
        forall|c: Chip| chip_count(*final(p), c) <= chip_count(*old(p), c),
{
    let ghost s = p.cauldron.spec_chips();
    proof {
        assert(s =~= s.drop_last().push(s.last()));
        crate::cauldron::lemma_sums_push(s.drop_last(), s.last(), Color::White);
    }
    let yellow_chip = p.cauldron.remove_last().unwrap();
    let under = p.cauldron.remove_last();
    proof {
        if s.len() >= 2 {
            assert(s.drop_last() =~= s.drop_last().drop_last().push(s.drop_last().last()));
            crate::cauldron::lemma_sums_push(
                s.drop_last().drop_last(),
                s.drop_last().last(),
                Color::White,
            );
        }
    }
    match under {
        Some(chip) => {
            if chip.color() == Color::White {
                p.cauldron.increase_position(chip.value() as u64);
            } else {
                p.cauldron.add_chip(chip);
            }
        },
        None => {},
    }
    p.cauldron.add_chip(yellow_chip);
    proof {
        crate::cauldron::lemma_sums_push(s.drop_last().drop_last(), s.last(), Color::White);
        if s.len() >= 2 && s[s.len() - 2].spec_color() == Color::White {
            assert(final(p).cauldron.spec_chips() =~= s.drop_last().drop_last().push(s.last()));
        } else if s.len() >= 2 {
            assert(final(p).cauldron.spec_chips() =~= s);
        } else {
            assert(final(p).cauldron.spec_chips() =~= s);
        }
    }
}

/// How the chip hooks may extend a cauldron: the chips already placed stay
/// an untouched prefix, and everything appended is a non-white chip.
pub open spec fn chips_extended(o: Seq<Chip>, n: Seq<Chip>) -> bool {
    &&& n.len() >= o.len()
    &&& n.subrange(0, o.len() as int) == o
    &&& forall|k: int| o.len() <= k < n.len() ==> (#[trigger] n[k]).spec_color() != Color::White
}

/// Every sequence extends itself.
pub proof fn lemma_chips_extended_refl(o: Seq<Chip>)
    ensures
        chips_extended(o, o),
{
    assert(o.subrange(0, o.len() as int) =~= o);
}

/// Extension composes.
pub proof fn lemma_chips_extended_trans(a: Seq<Chip>, b: Seq<Chip>, c: Seq<Chip>)
    requires
        chips_extended(a, b),
        chips_extended(b, c),
    ensures
        chips_extended(a, c),
{
    assert(c.subrange(0, a.len() as int) =~= a) by {
        assert(forall|k: int|
            0 <= k < a.len() ==> c.subrange(0, b.len() as int)[k] == #[trigger] c[k]);
        assert(forall|k: int|
            0 <= k < a.len() ==> b.subrange(0, a.len() as int)[k] == #[trigger] b[k]);
    }
    assert forall|k: int| a.len() <= k < c.len() implies (#[trigger] c[k]).spec_color()
        != Color::White by {
        if k < b.len() {
            assert(c.subrange(0, b.len() as int)[k] == c[k]);
            assert(b[k].spec_color() != Color::White);
        }
    }
}

/// No white chip sits directly under a yellow top chip, so the yellow swap
/// cannot dissolve anything.
pub open spec fn no_white_under_yellow(o: Seq<Chip>) -> bool {
    o.last().spec_color() == Color::Yellow ==> (o.len() < 2 || o[o.len() - 2].spec_color()
        != Color::White)
}

/// The green rule: one ruby for each green chip among the last two placed.
pub open spec fn green_in_last_two(s: Seq<Chip>) -> int {
    color_count(s.skip(if s.len() >= 2 { s.len() - 2 } else { 0 } as int), Color::Green)
}

/// Fires once per player in the post-round phase: grants a ruby for each
/// green chip among the last two placed this round.
pub fn green_chip(p: &mut Player)
    requires
        old(p).cauldron.wf(),
        old(p).rubies + 2 <= u64::MAX,
    ensures
        final(p).rubies == old(p).rubies + green_in_last_two(old(p).cauldron.spec_chips()),
        final(p).name == old(p).name,
        final(p).strategy == old(p).strategy,
        final(p).score == old(p).score,
        final(p).flask == old(p).flask,
        final(p).drop == old(p).drop,
        final(p).same_holdings(*old(p)),
{
    let ghost s = p.cauldron.spec_chips();
    let chips = p.cauldron.chips();
    let len = chips.len();
    let mut cnt: u64 = 0;
    if len >= 1 && chips[len - 1].color() == Color::Green {
        cnt = cnt + 1;
    }
    if len >= 2 && chips[len - 2].color() == Color::Green {
        cnt = cnt + 1;
    }
    proof {
        if len >= 2 {
            let tail = s.skip(len - 2);
            assert(tail =~= seq![s[len - 2], s[len - 1]]);
            assert(tail.last() == s[len - 1]);
            assert(tail.drop_last() =~= seq![s[len - 2]]);
            assert(tail.drop_last().last() == s[len - 2]);
            assert(tail.drop_last().drop_last() =~= Seq::<Chip>::empty());
            assert(color_count(tail.drop_last().drop_last(), Color::Green) == 0);
            assert(color_count(tail.drop_last(), Color::Green) == if s[len - 2].spec_color()
                == Color::Green {
                1int
            } else {
                0int
            });
            assert(color_count(tail, Color::Green) == color_count(tail.drop_last(), Color::Green)
                + if s[len - 1].spec_color() == Color::Green {
                1int
            } else {
                0int
            });
            assert(green_in_last_two(s) == color_count(tail, Color::Green));
        } else if len == 1 {
            let tail = s.skip(0);
            assert(tail =~= seq![s[0]]);
            assert(tail.last() == s[0]);
            assert(tail.drop_last() =~= Seq::<Chip>::empty());
            assert(color_count(tail.drop_last(), Color::Green) == 0);
            assert(green_in_last_two(s) == color_count(tail, Color::Green));
        } else {
            assert(s.skip(0) =~= Seq::<Chip>::empty());
            assert(green_in_last_two(s) == 0);
        }
        assert(cnt == green_in_last_two(s));
    }
    p.add_rubies(cnt);
}

/// The purple rule's escalating rewards for owning purple chips: one point
/// at one copy, a ruby on top at two, two points and a drop advance at
/// three or more.
pub open spec fn purple_points(cnt: int) -> int {
    if cnt == 1 || cnt == 2 {
        1
    } else if cnt > 2 {
        2
    } else {
        0
    }
}

/// The purple rule's ruby reward: one ruby at exactly two copies.
pub open spec fn purple_rubies(cnt: int) -> int {
    if cnt == 2 {
        1
    } else {
        0
    }
}

/// The purple rule's drop reward: one advance at three copies or more.
pub open spec fn purple_drops(cnt: int) -> int {
    if cnt > 2 {
        1
    } else {
        0
    }
}

/// Fires once per player in the post-round phase: grants the escalating
/// purple rewards for the purple chips in the finished cauldron.
pub fn purple_chip(p: &mut Player)
    requires
        old(p).cauldron.wf(),
        old(p).rubies + 1 <= u64::MAX,
        old(p).score + 2 <= u64::MAX,
        old(p).drop < u64::MAX,
    ensures
        ({
            let cnt = color_count(old(p).cauldron.spec_chips(), Color::Purple);
            &&& final(p).score == old(p).score + purple_points(cnt)
            &&& final(p).rubies == old(p).rubies + purple_rubies(cnt)
            &&& final(p).drop == old(p).drop + purple_drops(cnt)
        }),
        final(p).name == old(p).name,
        final(p).strategy == old(p).strategy,
        final(p).flask == old(p).flask,
        final(p).same_holdings(*old(p)),
{
    let cnt = p.cauldron.number_of(Color::Purple);
    if cnt == 1 {
        p.add_victory_points(1);
    } else if cnt == 2 {
        p.add_victory_points(1);
        p.add_rubies(1);
    } else if cnt > 2 {
        p.add_victory_points(2);
        p.move_drop();
    }
}

/// How many black chips a player's cauldron holds.
pub open spec fn blacks(p: Player) -> int {
    color_count(p.cauldron.spec_chips(), Color::Black)
}

/// The neighbor to the left in registration order, wrapping around.
pub open spec fn left_of(idx: int, n: int) -> int {
    if idx == 0 {
        n - 1
    } else {
        idx - 1
    }
}

/// The neighbor to the right in registration order, wrapping around.
pub open spec fn right_of(idx: int, n: int) -> int {
    if idx == n - 1 {
        0
    } else {
        idx + 1
    }
}

/// The black rule's drop reward: with two players, a tie or better in black
/// chips earns the advance; with more, beating either neighbor does.
pub open spec fn black_drop_gain(ps: Seq<Player>, idx: int) -> int {
    let n = ps.len() as int;
    if n == 2 {
        if blacks(ps[idx]) >= blacks(ps[1 - idx]) {
            1
        } else {
            0
        }
    } else if n > 2 {
        if blacks(ps[idx]) > blacks(ps[left_of(idx, n)]) || blacks(ps[idx]) > blacks(
            ps[right_of(idx, n)],
        ) {
            1
        } else {
            0
        }
    } else {
        0
    }
}

/// The black rule's ruby reward: strictly more black chips than the other
/// player, or than both neighbors.
pub open spec fn black_ruby_gain(ps: Seq<Player>, idx: int) -> int {
    let n = ps.len() as int;
    if n == 2 {
        if blacks(ps[idx]) > blacks(ps[1 - idx]) {
            1
        } else {
            0
        }
    } else if n > 2 {
        if blacks(ps[idx]) > blacks(ps[left_of(idx, n)]) && blacks(ps[idx]) > blacks(
            ps[right_of(idx, n)],
        ) {
            1
        } else {
            0
        }
    } else {
        0
    }
}

/// Fires once per player in the post-round phase: compares the player's
/// black chips against the neighbors' (or the single opponent's) and grants
/// a drop advance and possibly a ruby.
pub fn black_chip(players: &mut Vec<Player>, idx: usize)
    requires
        idx < old(players)@.len(),
        forall|j: int| 0 <= j < old(players)@.len() ==> (#[trigger] old(players)@[j]).cauldron.wf(),
        old(players)@[idx as int].drop < u64::MAX,
        old(players)@[idx as int].rubies < u64::MAX,
    ensures
        final(players)@.len() == old(players)@.len(),
        forall|j: int|
            0 <= j < old(players)@.len() && j != idx ==> final(players)@[j] == old(players)@[j],
        final(players)@[idx as int].drop == old(players)@[idx as int].drop + black_drop_gain(
            old(players)@,
            idx as int,
        ),
        final(players)@[idx as int].rubies == old(players)@[idx as int].rubies + black_ruby_gain(
            old(players)@,
            idx as int,
        ),
        final(players)@[idx as int].name == old(players)@[idx as int].name,
        final(players)@[idx as int].strategy == old(players)@[idx as int].strategy,
        final(players)@[idx as int].score == old(players)@[idx as int].score,
        final(players)@[idx as int].flask == old(players)@[idx as int].flask,
        final(players)@[idx as int].same_holdings(old(players)@[idx as int]),
{
    let n = players.len();
    let own_count = players[idx].cauldron.number_of(Color::Black);
    if n == 2 {
        let other = if idx == 0 {
            1
        } else {
            0
        };
        let other_count = players[other].cauldron.number_of(Color::Black);
        if own_count >= other_count {
            let p = &mut players[idx];
            p.move_drop();
        }
        if own_count > other_count {
            let p = &mut players[idx];
            p.add_rubies(1);
        }
    } else if n > 2 {
        let left = if idx == 0 {
            n - 1
        } else {
            idx - 1
        };
        let right = if idx == n - 1 {
            0
        } else {
            idx + 1
        };
        let left_count = players[left].cauldron.number_of(Color::Black);
        let right_count = players[right].cauldron.number_of(Color::Black);
        if own_count > left_count || own_count > right_count {
            let p = &mut players[idx];
            p.move_drop();
        }
        if own_count > left_count && own_count > right_count {
            let p = &mut players[idx];
            p.add_rubies(1);
        }
    }
}

impl RuleSet {
    /// A registry holding the given rules, invoked in this order.
    pub fn new(rules: Vec<Rule>) -> (rs: RuleSet)
        ensures
            rs.rules@ == rules@,
    {
        RuleSet { rules }
    }

    /// Fires the color-dispatched hooks for the most recently placed chip,
    /// once per registered rule in registration order. Only red, blue and
    /// yellow chips have hooks; a blue one draws replacement candidates and
    /// may place a kept chip, firing the hooks again for it.
    pub fn apply_chip_drawn_rules(
        &self,
        p: &mut Player,
        turn: u8,
        rng: &mut rand::rngs::SmallRng,
    )
        requires
            old(p).cauldron.wf(),
            old(p).cauldron.spec_chips().len() > 0,
            old(p).cauldron.spec_exploded() ==> old(p).cauldron.spec_chips().last().spec_color()
                == Color::White,
            yellow_guard(old(p).cauldron),
        ensures
            final(p).cauldron.wf(),
            final(p).same_meta(*old(p)),
            final(p).cauldron.spec_limit() == old(p).cauldron.spec_limit(),
            final(p).cauldron.spec_chips().len() > 0,
            final(p).cauldron.spec_exploded() == old(p).cauldron.spec_exploded(),
            final(p).cauldron.spec_exploded() ==> final(p).cauldron.spec_chips().last().spec_color()
                == Color::White,
            yellow_guard(final(p).cauldron),
            final(p).cauldron.spec_free() >= old(p).cauldron.spec_free(),
            final(p).bag@.len() <= old(p).bag@.len(),
            forall|c: Chip| chip_count(*final(p), c) <= chip_count(*old(p), c),
            forall|c: Chip|
                c.spec_color() != Color::White ==> chip_count(*final(p), c) == chip_count(
                    *old(p),
                    c,
                ),
            !self.rules@.contains(Rule::Yellow) ==> forall|c: Chip|
                chip_count(*final(p), c) == chip_count(*old(p), c),
            !(old(p).cauldron.spec_chips().last().spec_color() == Color::Red || old(
                p,
            ).cauldron.spec_chips().last().spec_color() == Color::Blue || old(
                p,
            ).cauldron.spec_chips().last().spec_color() == Color::Yellow) ==> *final(p) == *old(p),
            ({
                let last = old(p).cauldron.spec_chips().last();
                let b = red_bonus(color_count(old(p).cauldron.spec_chips(), Color::Orange));
                last.spec_color() == Color::Red && old(p).cauldron.spec_position() + 2
                    * self.rules@.len() <= u64::MAX ==> {
                    &&& final(p).bag@ == old(p).bag@
                    &&& final(p).cauldron.spec_chips() == old(p).cauldron.spec_chips()
                    &&& final(p).cauldron.spec_position() == old(p).cauldron.spec_position()
                        + rule_count(self.rules@, Rule::Red) * b
                }
            }),
            no_white_under_yellow(old(p).cauldron.spec_chips()) ==> chips_extended(
                old(p).cauldron.spec_chips(),
                final(p).cauldron.spec_chips(),
            ),
        decreases old(p).bag@.len(), 1int,
    {
        let ghost red_case = old(p).cauldron.spec_chips().last().spec_color() == Color::Red && old(
            p,
        ).cauldron.spec_position() + 2 * self.rules@.len() <= u64::MAX;
        let ghost rb = red_bonus(color_count(old(p).cauldron.spec_chips(), Color::Orange));
        proof {
            lemma_chips_extended_refl(old(p).cauldron.spec_chips());
        }
        let mut i: usize = 0;
        while i < self.rules.len()
            invariant
                i <= self.rules@.len(),
                p.cauldron.wf(),
                p.same_meta(*old(p)),
                p.cauldron.spec_limit() == old(p).cauldron.spec_limit(),
                p.cauldron.spec_chips().len() > 0,
                p.cauldron.spec_exploded() == old(p).cauldron.spec_exploded(),
                p.cauldron.spec_exploded() ==> p.cauldron.spec_chips().last().spec_color()
                    == Color::White,
                yellow_guard(p.cauldron),
                p.cauldron.spec_free() >= old(p).cauldron.spec_free(),
                p.bag@.len() <= old(p).bag@.len(),
                forall|c: Chip| chip_count(*p, c) <= chip_count(*old(p), c),
                forall|c: Chip|
                    c.spec_color() != Color::White ==> chip_count(*p, c) == chip_count(*old(p), c),
                !self.rules@.contains(Rule::Yellow) ==> forall|c: Chip|
                    chip_count(*p, c) == chip_count(*old(p), c),
                !(old(p).cauldron.spec_chips().last().spec_color() == Color::Red || old(
                    p,
                ).cauldron.spec_chips().last().spec_color() == Color::Blue || old(
                    p,
                ).cauldron.spec_chips().last().spec_color() == Color::Yellow) ==> *p == *old(p),
                red_case == (old(p).cauldron.spec_chips().last().spec_color() == Color::Red && old(
                    p,
                ).cauldron.spec_position() + 2 * self.rules@.len() <= u64::MAX),
                rb == red_bonus(color_count(old(p).cauldron.spec_chips(), Color::Orange)),
                red_case ==> {
                    &&& p.bag@ == old(p).bag@
                    &&& p.cauldron.spec_chips() == old(p).cauldron.spec_chips()
                    &&& p.cauldron.spec_position() == old(p).cauldron.spec_position() + rule_count(
                        self.rules@.take(i as int),
                        Rule::Red,
                    ) * rb
                },
                no_white_under_yellow(old(p).cauldron.spec_chips()) ==> chips_extended(
                    old(p).cauldron.spec_chips(),
                    p.cauldron.spec_chips(),
                ) && (p.cauldron.spec_chips().len() > old(p).cauldron.spec_chips().len() ==> old(
                    p,
                ).cauldron.spec_chips().last().spec_color() != Color::White),
            decreases self.rules@.len() - i,
        {
            proof {
                assert(self.rules@.take(i + 1).drop_last() =~= self.rules@.take(i as int));
                assert(self.rules@.take(i + 1).last() == self.rules@[i as int]);
                if red_case {
                    let k = rule_count(self.rules@.take(i as int), Rule::Red);
                    lemma_rule_count_bounds(self.rules@.take(i as int), Rule::Red);
                    assert(0 <= k * rb <= 2 * k && (k + 1) * rb == k * rb + rb)
                        by (nonlinear_arith)
                        requires
                            0 <= k,
                            0 <= rb <= 2,
                    ;
                }
            }
            let rule = self.rules[i];
            let last = p.cauldron.last_chip().unwrap();
            match (rule, last.color()) {
                (Rule::Red, Color::Red) => {
                    red_chip_drawn(p);
                },
                (Rule::Blue, Color::Blue) => {
                    let ghost pre = p.cauldron.spec_chips();
                    self.blue_chip_drawn(p, last.value(), turn, rng);
                    proof {
                        let o = old(p).cauldron.spec_chips();
                        if no_white_under_yellow(o) {
                            assert(pre.last().spec_color() == Color::Blue);
                            lemma_chips_extended_trans(o, pre, p.cauldron.spec_chips());
                            if p.cauldron.spec_chips().len() > o.len() && pre.len() == o.len() {
                                assert(pre =~= o);
                                assert(o.last().spec_color() == Color::Blue);
                            }
                        }
                    }
                },
                (Rule::Yellow, Color::Yellow) => {
                    proof {
                        assert(self.rules@[i as int] == Rule::Yellow);
                        assert(self.rules@.contains(Rule::Yellow));
                    }
                    let ghost pre = p.cauldron.spec_chips();
                    proof {
                        let o = old(p).cauldron.spec_chips();
                        if no_white_under_yellow(o) {
                            // The chip under the yellow top is never white
                            // here, so the swap leaves the chips alone.
                            if pre.len() >= 2 {
                                if pre.len() == o.len() {
                                    assert(pre =~= o);
                                } else if pre.len() - 2 >= o.len() {
                                    assert(pre[pre.len() - 2].spec_color() != Color::White);
                                } else {
                                    assert(pre.len() - 2 == o.len() - 1);
                                    assert(pre.subrange(0, o.len() as int)[o.len() - 1]
                                        == pre[o.len() - 1]);
                                    assert(pre[pre.len() - 2] == o.last());
                                    assert(pre[pre.len() - 2].spec_color() != Color::White);
                                }
                            }
                        }
                    }
                    yellow_chip_drawn(p);
                    proof {
                        let o = old(p).cauldron.spec_chips();
                        if no_white_under_yellow(o) {
                            assert(p.cauldron.spec_chips() =~= pre);
                        }
                    }
                },
                _ => {},
            }
            i = i + 1;
        }
        proof {
            assert(self.rules@.take(self.rules@.len() as int) =~= self.rules@);
        }
    }

    /// The blue rule: a freshly placed blue chip lets the player draw as
    /// many chips as its value, keep at most one non-white candidate in the
    /// cauldron (firing the chip hooks for it), and return the rest to the
    /// bag. A short bag cuts the draws short, and a full cauldron sends the
    /// kept chip back to the bag.
    pub fn blue_chip_drawn(
        &self,
        p: &mut Player,
        value: u8,
        turn: u8,
        rng: &mut rand::rngs::SmallRng,
    )
        requires
            old(p).cauldron.wf(),
            old(p).cauldron.spec_chips().len() > 0,
            !old(p).cauldron.spec_exploded(),
            yellow_guard(old(p).cauldron),
        ensures
            final(p).cauldron.wf(),
            final(p).same_meta(*old(p)),
            final(p).cauldron.spec_limit() == old(p).cauldron.spec_limit(),
            final(p).cauldron.spec_chips().len() > 0,
            !final(p).cauldron.spec_exploded(),
            yellow_guard(final(p).cauldron),
            final(p).cauldron.spec_free() >= old(p).cauldron.spec_free(),
            old(p).cauldron.spec_chips().last().spec_color() != Color::White ==> chips_extended(
                old(p).cauldron.spec_chips(),
                final(p).cauldron.spec_chips(),
            ),
            final(p).bag@.len() <= old(p).bag@.len(),
            forall|c: Chip| chip_count(*final(p), c) <= chip_count(*old(p), c),
            forall|c: Chip|
                c.spec_color() != Color::White ==> chip_count(*final(p), c) == chip_count(
                    *old(p),
                    c,
                ),
            !self.rules@.contains(Rule::Yellow) ==> forall|c: Chip|
                chip_count(*final(p), c) == chip_count(*old(p), c),
        decreases old(p).bag@.len(), 0int,
    {
        let mut drawn: Vec<Chip> = Vec::new();
        let mut k: u8 = 0;
        while k < value && p.bag.len() > 0
            invariant
                p.cauldron == old(p).cauldron,
                p.same_meta(*old(p)),
                forall|c: Chip|
                    chip_count(*p, c) + drawn@.to_multiset().count(c) == chip_count(*old(p), c),
                p.bag@.len() + drawn@.len() == old(p).bag@.len(),
                k <= value,
            decreases value - k,
        {
            let c = p.draw(rng);
            drawn.push(c);
            k = k + 1;
        }
        let ghost drawn_pre = drawn@;
        let choice = p.choose_chips_to_add_to_cauldon(&drawn, rng);
        let kept: Option<Chip> = match choice {
            Some(i) => Some(drawn.remove(i)),
            None => None,
        };
        proof {
            if choice is Some {
                assert(kept matches Some(c) ==> c.spec_color() != Color::White);
            }
        }
        let ghost b_mid = p.bag@;
        let ghost d_mid = drawn@;
        p.bag.append(&mut drawn);
        proof {
            vstd::seq_lib::lemma_multiset_commutative(b_mid, d_mid);
        }
        proof {
            lemma_chips_extended_refl(old(p).cauldron.spec_chips());
        }
        match kept {
            Some(chip) => {
                assert(chip.spec_color() != Color::White);
                if !p.cauldron.is_full() {
                    let ghost pre = p.cauldron.spec_chips();
                    p.add_chip_to_cauldron(chip);
                    proof {
                        crate::cauldron::lemma_sums_push(pre, chip, Color::White);
                        let o = old(p).cauldron.spec_chips();
                        if o.last().spec_color() != Color::White {
                            assert(pre == o);
                            assert(p.cauldron.spec_chips().subrange(0, o.len() as int) =~= o);
                            assert(chips_extended(o, p.cauldron.spec_chips()));
                            assert(p.cauldron.spec_chips()[p.cauldron.spec_chips().len() - 2]
                                == o.last());
                            assert(no_white_under_yellow(p.cauldron.spec_chips()));
                        }
                    }
                    let ghost mid = p.cauldron.spec_chips();
                    self.apply_chip_drawn_rules(p, turn, rng);
                    proof {
                        let o = old(p).cauldron.spec_chips();
                        if o.last().spec_color() != Color::White {
                            lemma_chips_extended_trans(o, mid, p.cauldron.spec_chips());
                        }
                    }
                } else {
                    p.bag.push(chip);
                }
            },
            None => {},
        }
    }

    /// Fires the cauldron-finished hook for every registered rule, in
    /// order. Every rule in the current catalog leaves the finished
    /// cauldron untouched.
    pub fn apply_cauldron_finished_rules(&self, p: &Player) {
        let mut i: usize = 0;
        while i < self.rules.len()
            invariant
                i <= self.rules@.len(),
            decreases self.rules@.len() - i,
        {
            match self.rules[i] {
                _ => {},
            }
            i = i + 1;
        }
    }

    /// Fires the bonus-die hook for every registered rule, in order. Every
    /// rule in the current catalog ignores the rolled result.
    pub fn apply_bonus_die_rolled_rules(
        &self,
        p: &Player,
        _result: crate::bonus_die::BonusDieResult,
    ) {
        let mut i: usize = 0;
        while i < self.rules.len()
            invariant
                i <= self.rules@.len(),
            decreases self.rules@.len() - i,
        {
            match self.rules[i] {
                _ => {},
            }
            i = i + 1;
        }
    }

    /// Fires the black-chip resolution for one player, once per registered
    /// black rule: the gains repeat because the cauldrons never change.
    pub fn apply_black_chip_rules(&self, players: &mut Vec<Player>, idx: usize)
        requires
            idx < old(players)@.len(),
            forall|j: int|
                0 <= j < old(players)@.len() ==> (#[trigger] old(players)@[j]).cauldron.wf(),
            old(players)@[idx as int].drop + self.rules@.len() <= u64::MAX,
            old(players)@[idx as int].rubies + self.rules@.len() <= u64::MAX,
        ensures
            final(players)@.len() == old(players)@.len(),
            forall|j: int|
                0 <= j < old(players)@.len() && j != idx ==> final(players)@[j] == old(
                    players,
                )@[j],
            final(players)@[idx as int].drop == old(players)@[idx as int].drop + rule_count(
                self.rules@,
                Rule::Black,
            ) * black_drop_gain(old(players)@, idx as int),
            final(players)@[idx as int].rubies == old(players)@[idx as int].rubies + rule_count(
                self.rules@,
                Rule::Black,
            ) * black_ruby_gain(old(players)@, idx as int),
            final(players)@[idx as int].name == old(players)@[idx as int].name,
            final(players)@[idx as int].strategy == old(players)@[idx as int].strategy,
            final(players)@[idx as int].score == old(players)@[idx as int].score,
            final(players)@[idx as int].flask == old(players)@[idx as int].flask,
            final(players)@[idx as int].same_holdings(old(players)@[idx as int]),
    {
        let ghost dg = black_drop_gain(old(players)@, idx as int);
        let ghost rg = black_ruby_gain(old(players)@, idx as int);
        let mut i: usize = 0;
        while i < self.rules.len()
            invariant
                i <= self.rules@.len(),
                idx < players@.len(),
                players@.len() == old(players)@.len(),
                forall|j: int|
                    0 <= j < old(players)@.len() && j != idx ==> players@[j] == old(players)@[j],
                players@[idx as int].drop == old(players)@[idx as int].drop + rule_count(
                    self.rules@.take(i as int),
                    Rule::Black,
                ) * dg,
                players@[idx as int].rubies == old(players)@[idx as int].rubies + rule_count(
                    self.rules@.take(i as int),
                    Rule::Black,
                ) * rg,
                players@[idx as int].name == old(players)@[idx as int].name,
                players@[idx as int].strategy == old(players)@[idx as int].strategy,
                players@[idx as int].score == old(players)@[idx as int].score,
                players@[idx as int].flask == old(players)@[idx as int].flask,
                players@[idx as int].same_holdings(old(players)@[idx as int]),
                forall|j: int| 0 <= j < players@.len() ==> (#[trigger] players@[j]).cauldron.wf(),
                dg == black_drop_gain(old(players)@, idx as int),
                rg == black_ruby_gain(old(players)@, idx as int),
                0 <= dg <= 1 && 0 <= rg <= 1,
                old(players)@[idx as int].drop + self.rules@.len() <= u64::MAX,
                old(players)@[idx as int].rubies + self.rules@.len() <= u64::MAX,
            decreases self.rules@.len() - i,
        {
            let ghost k = rule_count(self.rules@.take(i as int), Rule::Black);
            proof {
                assert(self.rules@.take(i + 1).drop_last() =~= self.rules@.take(i as int));
                assert(self.rules@.take(i + 1).last() == self.rules@[i as int]);
                assert(0 <= k <= i) by {
                    lemma_rule_count_bounds(self.rules@.take(i as int), Rule::Black);
                }
                assert(k * dg <= k && k * rg <= k && 0 <= k * dg && 0 <= k * rg)
                    by (nonlinear_arith)
                    requires
                        0 <= k,
                        0 <= dg <= 1,
                        0 <= rg <= 1,
                ;
            }
            if matches!(self.rules[i], Rule::Black) {
                proof {
                    assert((k + 1) * dg == k * dg + dg) by (nonlinear_arith);
                    assert((k + 1) * rg == k * rg + rg) by (nonlinear_arith);
                    assert(black_drop_gain(players@, idx as int) == dg);
                    assert(black_ruby_gain(players@, idx as int) == rg);
                }
                black_chip(players, idx);
            }
            i = i + 1;
        }
        proof {
            assert(self.rules@.take(self.rules@.len() as int) =~= self.rules@);
        }
    }

    /// Fires the green-chip resolution for one player, once per registered
    /// green rule.
    pub fn apply_green_chip_rules(&self, p: &mut Player)
        requires
            old(p).cauldron.wf(),
            old(p).rubies + 2 * self.rules@.len() + 2 <= u64::MAX,
        ensures
            final(p).rubies == old(p).rubies + rule_count(self.rules@, Rule::Green)
                * green_in_last_two(old(p).cauldron.spec_chips()),
            final(p).name == old(p).name,
            final(p).strategy == old(p).strategy,
            final(p).score == old(p).score,
            final(p).flask == old(p).flask,
            final(p).drop == old(p).drop,
            final(p).same_holdings(*old(p)),
    {
        let ghost g = green_in_last_two(old(p).cauldron.spec_chips());
        proof {
            let s = old(p).cauldron.spec_chips();
            let tail = s.skip(
                if s.len() >= 2 {
                    s.len() - 2
                } else {
                    0
                },
            );
            crate::cauldron::lemma_sum_relations(tail, Color::Green);
            crate::cauldron::lemma_count_le_len(tail, Color::Green);
            assert(tail.len() <= 2);
        }
        let mut i: usize = 0;
        while i < self.rules.len()
            invariant
                i <= self.rules@.len(),
                p.cauldron.wf(),
                p.rubies == old(p).rubies + rule_count(self.rules@.take(i as int), Rule::Green)
                    * g,
                p.name == old(p).name,
                p.strategy == old(p).strategy,
                p.score == old(p).score,
                p.flask == old(p).flask,
                p.drop == old(p).drop,
                p.same_holdings(*old(p)),
                g == green_in_last_two(old(p).cauldron.spec_chips()),
                0 <= g <= 2,
                old(p).rubies + 2 * self.rules@.len() + 2 <= u64::MAX,
            decreases self.rules@.len() - i,
        {
            let ghost k = rule_count(self.rules@.take(i as int), Rule::Green);
            proof {
                assert(self.rules@.take(i + 1).drop_last() =~= self.rules@.take(i as int));
                assert(self.rules@.take(i + 1).last() == self.rules@[i as int]);
                assert(0 <= k <= i) by {
                    lemma_rule_count_bounds(self.rules@.take(i as int), Rule::Green);
                }
                assert(0 <= k * g <= 2 * k) by (nonlinear_arith)
                    requires
                        0 <= k,
                        0 <= g <= 2,
                ;
                assert((k + 1) * g == k * g + g) by (nonlinear_arith);
            }
            if matches!(self.rules[i], Rule::Green) {
                proof {
                    assert(green_in_last_two(p.cauldron.spec_chips()) == g);
                }
                green_chip(p);
            }
            i = i + 1;
        }
        proof {
            assert(self.rules@.take(self.rules@.len() as int) =~= self.rules@);
        }
    }

    /// Fires the purple-chip resolution for one player, once per registered
    /// purple rule.
    pub fn apply_purple_chip_rules(&self, p: &mut Player)
        requires
            old(p).cauldron.wf(),
            old(p).rubies + self.rules@.len() + 1 <= u64::MAX,
            old(p).score + 2 * self.rules@.len() + 2 <= u64::MAX,
            old(p).drop + self.rules@.len() + 1 <= u64::MAX,
        ensures
            ({
                let cnt = color_count(old(p).cauldron.spec_chips(), Color::Purple);
                let k = rule_count(self.rules@, Rule::Purple);
                &&& final(p).score == old(p).score + k * purple_points(cnt)
                &&& final(p).rubies == old(p).rubies + k * purple_rubies(cnt)
                &&& final(p).drop == old(p).drop + k * purple_drops(cnt)
            }),
            final(p).name == old(p).name,
            final(p).strategy == old(p).strategy,
            final(p).flask == old(p).flask,
            final(p).same_holdings(*old(p)),
    {
        let ghost cnt = color_count(old(p).cauldron.spec_chips(), Color::Purple);
        let mut i: usize = 0;
        while i < self.rules.len()
            invariant
                i <= self.rules@.len(),
                p.cauldron.wf(),
                p.score == old(p).score + rule_count(self.rules@.take(i as int), Rule::Purple)
                    * purple_points(cnt),
                p.rubies == old(p).rubies + rule_count(self.rules@.take(i as int), Rule::Purple)
                    * purple_rubies(cnt),
                p.drop == old(p).drop + rule_count(self.rules@.take(i as int), Rule::Purple)
                    * purple_drops(cnt),
                p.name == old(p).name,
                p.strategy == old(p).strategy,
                p.flask == old(p).flask,
                p.same_holdings(*old(p)),
                cnt == color_count(old(p).cauldron.spec_chips(), Color::Purple),
                old(p).rubies + self.rules@.len() + 1 <= u64::MAX,
                old(p).score + 2 * self.rules@.len() + 2 <= u64::MAX,
                old(p).drop + self.rules@.len() + 1 <= u64::MAX,
            decreases self.rules@.len() - i,
        {
            let ghost k = rule_count(self.rules@.take(i as int), Rule::Purple);
            proof {
                assert(self.rules@.take(i + 1).drop_last() =~= self.rules@.take(i as int));
                assert(self.rules@.take(i + 1).last() == self.rules@[i as int]);
                assert(0 <= k <= i) by {
                    lemma_rule_count_bounds(self.rules@.take(i as int), Rule::Purple);
                }
                assert({
                    &&& 0 <= k * purple_points(cnt) <= 2 * k
                    &&& 0 <= k * purple_rubies(cnt) <= k
                    &&& 0 <= k * purple_drops(cnt) <= k
                    &&& (k + 1) * purple_points(cnt) == k * purple_points(cnt) + purple_points(cnt)
                    &&& (k + 1) * purple_rubies(cnt) == k * purple_rubies(cnt) + purple_rubies(cnt)
                    &&& (k + 1) * purple_drops(cnt) == k * purple_drops(cnt) + purple_drops(cnt)
                }) by (nonlinear_arith)
                    requires
                        0 <= k,
                        0 <= purple_points(cnt) <= 2,
                        0 <= purple_rubies(cnt) <= 1,
                        0 <= purple_drops(cnt) <= 1,
                ;
            }
            if matches!(self.rules[i], Rule::Purple) {
                proof {
                    assert(color_count(p.cauldron.spec_chips(), Color::Purple) == cnt);
                }
                purple_chip(p);
            }
            i = i + 1;
        }
        proof {
            assert(self.rules@.take(self.rules@.len() as int) =~= self.rules@);
        }
    }
}

/// The green reward is at most two rubies: only the last two chips count.
pub proof fn lemma_green_in_last_two_bounds(s: Seq<Chip>)
    ensures
        0 <= green_in_last_two(s) <= 2,
{
    let tail = s.skip(
        if s.len() >= 2 {
            s.len() - 2
        } else {
            0
        },
    );
    crate::cauldron::lemma_sum_relations(tail, Color::Green);
    crate::cauldron::lemma_count_le_len(tail, Color::Green);
    assert(tail.len() <= 2);
}

/// The rule count of a prefix never exceeds its length.
pub proof fn lemma_rule_count_bounds(rules: Seq<Rule>, r: Rule)
    ensures
        0 <= rule_count(rules, r) <= rules.len(),
    decreases rules.len(),
{
    if rules.len() > 0 {
        lemma_rule_count_bounds(rules.drop_last(), r);
    }
}

} // verus!
