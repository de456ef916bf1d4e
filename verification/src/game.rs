//! The round orchestrator: drives the nine turns of a match, coordinating
//! each player's bag, cauldron, the rule hooks, the strategies and the
//! bonus die, with one explicitly threaded random generator so that a fixed
//! seed reproduces a whole match.

use vstd::prelude::*;

use crate::bonus_die::{roll_bonus_die, BonusDieResult};
use crate::cauldron::{Score, LAST_FIELD};
use crate::chip::{Chip, Color};
use crate::player::Player;
use crate::rules::RuleSet;

verus! {

/// One match: the player arena, the active rules, the turn counter and the
/// ruby exchange prices.
pub struct Game {
    pub players: Vec<Player>,
    pub rules: RuleSet,
    pub turn: u8,
    pub rubies_to_fill_flask: u8,
    pub rubies_to_move_drop: u8,
}

impl Game {
    /// A fresh match over the given players and rules: turn 1, both ruby
    /// prices at 2.
    pub fn new(players: Vec<Player>, rules: RuleSet) -> (g: Game)
        ensures
            g.players@ == players@,
            g.rules.rules@ == rules.rules@,
            g.turn == 1,
            g.rubies_to_fill_flask == 2,
            g.rubies_to_move_drop == 2,
    {
        Game { players, rules, turn: 1, rubies_to_fill_flask: 2, rubies_to_move_drop: 2 }
    }

    /// The player arena.
    pub fn players(&self) -> (r: &Vec<Player>)
        ensures
            r@ == self.players@,
    {
        &self.players
    }
}

/// Whether a victory-point track space (taken modulo one lap of 50) carries
/// a rat-tail marker just before it: spaces 2, 5, 8, 11 and every odd space
/// from 13 to 49.
pub open spec fn rat_tail_before(m: int) -> bool {
    m == 2 || m == 5 || m == 8 || m == 11 || (13 <= m <= 49 && m % 2 == 1)
}

/// The marker test as an executable function.
pub fn is_rat_tail_before(m: u64) -> (r: bool)
    ensures
        r == rat_tail_before(m as int),
{
    m == 2 || m == 5 || m == 8 || m == 11 || (13 <= m && m <= 49 && m % 2 == 1)
}

/// How many rat-tail markers lie strictly after `lo` and up to `hi` on the
/// victory-point track.
pub open spec fn rat_tails_between(lo: int, hi: int) -> int
    decreases hi - lo,
{
    if hi <= lo {
        0
    } else {
        rat_tails_between(lo, hi - 1) + if rat_tail_before(hi % 50) {
            1int
        } else {
            0int
        }
    }
}

/// The highest victory-point total in the arena (0 when it is empty).
pub open spec fn max_points(ps: Seq<Player>) -> int
    decreases ps.len(),
{
    if ps.len() == 0 {
        0
    } else {
        let m = max_points(ps.drop_last());
        if ps.last().score > m {
            ps.last().score as int
        } else {
            m
        }
    }
}

/// The rat-tail count is never negative and never exceeds the span.
proof fn lemma_rat_tails_bounds(lo: int, hi: int)
    requires
        lo <= hi,
    ensures
        0 <= rat_tails_between(lo, hi) <= hi - lo,
    decreases hi - lo,
{
    if lo < hi {
        lemma_rat_tails_bounds(lo, hi - 1);
    }
}

/// The catch-up mechanic: a trailing player starts with one extra cauldron
/// space for each rat-tail marker between their victory-point total and the
/// leader's.
pub fn calculate_rat_tails(players: &Vec<Player>, idx: usize) -> (r: u64)
    requires
        idx < players@.len(),
    ensures
        r == rat_tails_between(players@[idx as int].score as int, max_points(players@)),
        r <= max_points(players@),
        max_points(players@) <= u64::MAX,
{
    let mut leading: u64 = 0;
    let mut i: usize = 0;
    while i < players.len()
        invariant
            i <= players@.len(),
            leading == max_points(players@.take(i as int)),
        decreases players@.len() - i,
    {
        proof {
            assert(players@.take(i + 1).drop_last() =~= players@.take(i as int));
            assert(players@.take(i + 1).last() == players@[i as int]);
        }
        let s = players[i].victory_points();
        if s > leading {
            leading = s;
        }
        i = i + 1;
    }
    proof {
        assert(players@.take(players@.len() as int) =~= players@);
        lemma_max_points_nonneg(players@);
    }
    let own = players[idx].victory_points();
    let mut rat_tails: u64 = 0;
    let mut pos: u64 = own;
    if own < leading {
        while pos < leading
            invariant
                own <= pos <= leading,
                rat_tails == rat_tails_between(own as int, pos as int),
                rat_tails <= pos - own,
            decreases leading - pos,
        {
            proof {
                lemma_rat_tails_bounds(own as int, pos as int);
            }
            pos = pos + 1;
            if is_rat_tail_before(pos % 50) {
                rat_tails = rat_tails + 1;
            }
        }
    }
    rat_tails
}

/// The highest total is never negative.
proof fn lemma_max_points_nonneg(ps: Seq<Player>)
    ensures
        max_points(ps) >= 0,
        forall|i: int| 0 <= i < ps.len() ==> (#[trigger] ps[i]).score <= max_points(ps),
    decreases ps.len(),
{
    if ps.len() > 0 {
        lemma_max_points_nonneg(ps.drop_last());
        assert(forall|i: int| 0 <= i < ps.len() - 1 ==> ps.drop_last()[i] == ps[i]);
    }
}

/// One player after exactly one bonus-die reward: an orange chip into the
/// bag, a ruby, one or two victory points, or a drop advance; nothing else
/// moves.
pub open spec fn bonus_applied(o: Player, n: Player) -> bool {
    &&& n.name == o.name
    &&& n.strategy == o.strategy
    &&& n.flask == o.flask
    &&& n.cauldron == o.cauldron
    &&& {
        ||| (n.bag@ == o.bag@.push(Chip::Orange1) && n.score == o.score && n.rubies == o.rubies
            && n.drop == o.drop)
        ||| (n.bag@ == o.bag@ && n.rubies == o.rubies + 1 && n.score == o.score && n.drop
            == o.drop)
        ||| (n.bag@ == o.bag@ && n.score == o.score + 1 && n.rubies == o.rubies && n.drop
            == o.drop)
        ||| (n.bag@ == o.bag@ && n.score == o.score + 2 && n.rubies == o.rubies && n.drop
            == o.drop)
        ||| (n.bag@ == o.bag@ && n.drop == o.drop + 1 && n.score == o.score && n.rubies
            == o.rubies)
    }
}

/// A round's top scorer: not exploded, and no other non-exploded cauldron
/// scores higher.
pub open spec fn is_top_scorer(ps: Seq<Player>, i: int) -> bool {
    &&& 0 <= i < ps.len()
    &&& !ps[i].cauldron.spec_exploded()
    &&& forall|j: int|
        0 <= j < ps.len() && !(#[trigger] ps[j]).cauldron.spec_exploded()
            ==> ps[j].cauldron.spec_score().spec_le(ps[i].cauldron.spec_score())
}

/// The score order has no distinct ties: mutual order means equality.
proof fn lemma_score_le_antisymmetric(a: Score, b: Score)
    ensures
        a.spec_le(b) && b.spec_le(a) ==> a == b,
{
}

/// The bonus-die phase: every player tied for the round's best non-exploded
/// score rolls the die once, in registration order, and its reward is
/// applied; everyone else is left alone.
pub fn bonus_die_phase(players: &mut Vec<Player>, rules: &RuleSet, rng: &mut rand::rngs::SmallRng)
    requires
        forall|i: int| 0 <= i < old(players)@.len() ==> (#[trigger] old(players)@[i]).cauldron.wf(),
        forall|i: int|
            0 <= i < old(players)@.len() ==> (#[trigger] old(players)@[i]).score + 2 <= u64::MAX
                && old(players)@[i].rubies + 1 <= u64::MAX && old(players)@[i].drop + 1
                <= u64::MAX,
    ensures
        final(players)@.len() == old(players)@.len(),
        forall|i: int|
            0 <= i < old(players)@.len() ==> if is_top_scorer(old(players)@, i) {
                bonus_applied(old(players)@[i], (#[trigger] final(players)@[i]))
            } else {
                final(players)@[i] == old(players)@[i]
            },
{
    let n = players.len();
    let mut best: Option<Score> = None;
    let mut i: usize = 0;
    while i < n
        invariant
            i <= n,
            n == players@.len(),
            players@ == old(players)@,
            forall|j: int| 0 <= j < players@.len() ==> (#[trigger] players@[j]).cauldron.wf(),
            best is None ==> forall|j: int|
                0 <= j < i ==> (#[trigger] players@[j]).cauldron.spec_exploded(),
            best matches Some(b) ==> (exists|j: int|
                0 <= j < i && !(#[trigger] players@[j]).cauldron.spec_exploded()
                    && players@[j].cauldron.spec_score() == b) && forall|j: int|
                0 <= j < i && !(#[trigger] players@[j]).cauldron.spec_exploded()
                    ==> players@[j].cauldron.spec_score().spec_le(b),
        decreases n - i,
    {
        if !players[i].cauldron.is_exploded() {
            let s = players[i].cauldron.score();
            best = match best {
                None => Some(s),
                Some(b) => {
                    if b.le(&s) {
                        Some(s)
                    } else {
                        proof {
                            lemma_score_le_antisymmetric(b, s);
                            assert(s.spec_le(b));
                        }
                        Some(b)
                    }
                },
            };
        }
        i = i + 1;
    }
    let max_score = match best {
        Some(b) => b,
        None => {
            return ;
        },
    };
    let mut i: usize = 0;
    while i < n
        invariant
            i <= n,
            n == players@.len(),
            players@.len() == old(players)@.len(),
            forall|j: int| i <= j < players@.len() ==> (#[trigger] players@[j]) == old(players)@[j],
            forall|j: int|
                0 <= j < i ==> if is_top_scorer(old(players)@, j) {
                    bonus_applied(old(players)@[j], (#[trigger] players@[j]))
                } else {
                    players@[j] == old(players)@[j]
                },
            forall|j: int|
                0 <= j < old(players)@.len() ==> (#[trigger] old(players)@[j]).score + 2
                    <= u64::MAX && old(players)@[j].rubies + 1 <= u64::MAX && old(
                players,
            )@[j].drop + 1 <= u64::MAX,
            forall|j: int|
                0 <= j < old(players)@.len() ==> (#[trigger] old(players)@[j]).cauldron.wf(),
            forall|j: int|
                0 <= j < old(players)@.len() && !(#[trigger] old(players)@[j]).cauldron.spec_exploded()
                    ==> old(players)@[j].cauldron.spec_score().spec_le(max_score),
            exists|j: int|
                0 <= j < old(players)@.len() && !(#[trigger] old(players)@[j]).cauldron.spec_exploded()
                    && old(players)@[j].cauldron.spec_score() == max_score,
        decreases n - i,
    {
        let exploded = players[i].cauldron.is_exploded();
        let tied = if exploded {
            false
        } else {
            let s = players[i].cauldron.score();
            s == max_score
        };
        proof {
            lemma_score_le_antisymmetric(old(players)@[i as int].cauldron.spec_score(), max_score);
        }
        if tied {
            assert(is_top_scorer(old(players)@, i as int));
            let roll = roll_bonus_die(rng);
            let p = &mut players[i];
            match roll {
                BonusDieResult::OrangeChip => {
                    p.add_chip_to_bag(Chip::Orange1);
                },
                BonusDieResult::VictoryPoint(points) => {
                    p.add_victory_points(points as u64);
                },
                BonusDieResult::Ruby => {
                    p.add_rubies(1);
                },
                BonusDieResult::Drop => {
                    p.move_drop();
                },
            }
            rules.apply_bonus_die_rolled_rules(&players[i], roll);
        } else {
            assert(!is_top_scorer(old(players)@, i as int));
        }
        i = i + 1;
    }
}

/// What the purchase phase does to a bag, for a given rule registry, turn
/// and budget: it stays as it is, or grows by exactly one well-formed
/// combination priced strictly below the budget; and it grows if and only
/// if some affordable combination exists at all.
pub open spec fn bag_bought(
    ob: Seq<Chip>,
    nb: Seq<Chip>,
    rules: Seq<crate::rules::Rule>,
    turn: u8,
    coins: u8,
) -> bool {
    let opts = crate::purchase::ruleset_options(rules, turn);
    &&& (nb == ob || exists|ch: Seq<Chip>|
        nb == ob + ch && #[trigger] crate::purchase::valid_choice(opts, coins as int, ch))
    &&& ((exists|ch: Seq<Chip>| #[trigger] crate::purchase::valid_choice(opts, coins as int, ch))
        <==> nb != ob)
}

/// The purchase phase for one player: the rules' combined options for this
/// turn are offered to the strategy, and the chosen bundle (if any, and in
/// range) moves into the bag. The bag grows by a well-formed combination
/// priced strictly below the coins, or not at all.
#[verifier::rlimit(60)]
pub fn buy_chips_phase(
    players: &mut Vec<Player>,
    idx: usize,
    rules: &RuleSet,
    turn: u8,
    coins: u8,
)
    requires
        idx < old(players)@.len(),
    ensures
        final(players)@.len() == old(players)@.len(),
        forall|j: int|
            0 <= j < old(players)@.len() && j != idx ==> final(players)@[j] == old(players)@[j],
        final(players)@[idx as int].same_meta(old(players)@[idx as int]),
        final(players)@[idx as int].cauldron == old(players)@[idx as int].cauldron,
        bag_bought(
            old(players)@[idx as int].bag@,
            final(players)@[idx as int].bag@,
            rules.rules@,
            turn,
            coins,
        ),
{
    let ghost opts_spec = crate::purchase::ruleset_options(rules.rules@, turn);
    let options = rules.purchase_options(turn, coins);
    proof {
        crate::purchase::lemma_ruleset_options_valid(rules.rules@, turn);
        // An affordable combination exists exactly when the offered list is
        // non-empty: soundness gives one direction, the completeness
        // clauses the other.
        if options@.len() > 0 {
            assert(crate::purchase::valid_choice(opts_spec, coins as int, options@[0]@));
        }
        if exists|ch: Seq<Chip>|
            #[trigger] crate::purchase::valid_choice(opts_spec, coins as int, ch) {
            let ch = choose|ch: Seq<Chip>|
                #[trigger] crate::purchase::valid_choice(opts_spec, coins as int, ch);
            if ch.len() == 1 {
                let i = choose|i: int|
                    0 <= i < opts_spec.len() && (#[trigger] opts_spec[i]).0 == ch[0];
                assert(opts_spec[i].1 < coins);
                assert(options@.len() > 0);
            } else {
                let i = choose|i: int|
                    0 <= i < opts_spec.len() && (#[trigger] opts_spec[i]).0 == ch[0];
                let j = choose|j: int|
                    0 <= j < opts_spec.len() && (#[trigger] opts_spec[j]).0 == ch[1];
                assert(i != j);
                assert(opts_spec[i].1 + opts_spec[j].1 < coins);
                assert(options@.len() > 0);
            }
        }
    }
    let choice = players[idx].choose_chips_to_add_to_bag(&options);
    proof {
        if options@.len() > 0 {
            assert(choice matches Some(ci) && ci < options@.len());
        }
    }
    if let Some(ci) = choice {
        if ci < options.len() {
            let bundle = &options[ci];
            let ghost ob = players@[idx as int].bag@;
            let mut m: usize = 0;
            while m < bundle.len()
                invariant
                    m <= bundle@.len(),
                    idx < players@.len(),
                    players@.len() == old(players)@.len(),
                    forall|j: int|
                        0 <= j < old(players)@.len() && j != idx ==> players@[j] == old(
                            players,
                        )@[j],
                    players@[idx as int].same_meta(old(players)@[idx as int]),
                    players@[idx as int].cauldron == old(players)@[idx as int].cauldron,
                    players@[idx as int].bag@ == ob + bundle@.take(m as int),
                    ob == old(players)@[idx as int].bag@,
                decreases bundle@.len() - m,
            {
                let chip = bundle[m];
                let p = &mut players[idx];
                p.add_chip_to_bag(chip);
                proof {
                    assert(players@[idx as int].bag@ =~= ob + bundle@.take(m + 1));
                }
                m = m + 1;
            }
            proof {
                assert(bundle@.take(bundle@.len() as int) =~= bundle@);
                assert(players@[idx as int].bag@ == ob + bundle@);
                assert(crate::purchase::valid_choice(opts_spec, coins as int, bundle@));
                assert(bundle@.len() >= 1);
                assert(players@[idx as int].bag@.len() > ob.len());
            }
        }
    }
}

/// One player's remaining draw capital: the drawable chips plus the unused
/// flask, which can put one chip back into play.
pub open spec fn measure_of(p: Player) -> int {
    p.bag@.len() + if p.flask {
        1int
    } else {
        0int
    }
}

/// The whole arena's remaining draw capital; every draw tick spends at
/// least one unit of it, which bounds the fill phase.
pub open spec fn total_measure(ps: Seq<Player>) -> int
    decreases ps.len(),
{
    if ps.len() == 0 {
        0
    } else {
        total_measure(ps.drop_last()) + measure_of(ps.last())
    }
}

/// Changing one player moves the total measure by that player's change.
proof fn lemma_total_measure_update(a: Seq<Player>, b: Seq<Player>, i: int)
    requires
        a.len() == b.len(),
        0 <= i < a.len(),
        forall|j: int| 0 <= j < a.len() && j != i ==> a[j] == b[j],
    ensures
        total_measure(b) == total_measure(a) + measure_of(b[i]) - measure_of(a[i]),
    decreases a.len(),
{
    if i == a.len() - 1 {
        assert(a.drop_last() =~= b.drop_last());
    } else {
        assert(a.drop_last().len() == b.drop_last().len());
        lemma_total_measure_update(a.drop_last(), b.drop_last(), i);
        assert(a.last() == b.last());
    }
}

/// The measure is never negative.
proof fn lemma_total_measure_nonneg(ps: Seq<Player>)
    ensures
        total_measure(ps) >= 0,
    decreases ps.len(),
{
    if ps.len() > 0 {
        lemma_total_measure_nonneg(ps.drop_last());
    }
}

/// The highest total is bounded by any bound on every total.
proof fn lemma_max_points_le(ps: Seq<Player>, cap: int)
    requires
        forall|i: int| 0 <= i < ps.len() ==> (#[trigger] ps[i]).score <= cap,
        cap >= 0,
    ensures
        max_points(ps) <= cap,
    decreases ps.len(),
{
    if ps.len() > 0 {
        assert(forall|i: int| 0 <= i < ps.len() - 1 ==> ps.drop_last()[i] == ps[i]);
        lemma_max_points_le(ps.drop_last(), cap);
    }
}

/// A player may draw: the cauldron can take a chip and the bag has one.
pub open spec fn draw_ready(p: Player) -> bool {
    &&& p.cauldron.wf()
    &&& !p.cauldron.spec_exploded()
    &&& !p.cauldron.spec_full()
    &&& p.bag@.len() > 0
}

/// Moving one chip from the bag into the cauldron conserves every count.
proof fn lemma_move_bag_to_cauldron(o: Player, mid: Player, n: Player, k: int)
    requires
        0 <= k < o.bag@.len(),
        mid.bag@ == o.bag@.remove(k),
        mid.cauldron == o.cauldron,
        n.bag@ == mid.bag@,
        n.cauldron.spec_chips() == mid.cauldron.spec_chips().push(o.bag@[k]),
    ensures
        forall|c: Chip|
            #![trigger crate::player::chip_count(n, c)]
            crate::player::chip_count(n, c) == crate::player::chip_count(o, c),
{
    broadcast use vstd::seq_lib::group_to_multiset_ensures, vstd::multiset::group_multiset_axioms;

}

/// Moving the most recent cauldron chip back into the bag conserves every
/// count.
proof fn lemma_move_cauldron_to_bag(o: Player, n: Player)
    requires
        o.cauldron.spec_chips().len() > 0,
        n.cauldron.spec_chips() == o.cauldron.spec_chips().drop_last(),
        n.bag@ == o.bag@.push(o.cauldron.spec_chips().last()),
    ensures
        forall|c: Chip|
            #![trigger crate::player::chip_count(n, c)]
            crate::player::chip_count(n, c) == crate::player::chip_count(o, c),
{
    broadcast use vstd::seq_lib::group_to_multiset_ensures, vstd::multiset::group_multiset_axioms;

    assert(o.cauldron.spec_chips() =~= n.cauldron.spec_chips().push(o.cauldron.spec_chips().last()));
}

/// Every cauldron drained and reset, with counter headroom: how the arena
/// stands at the start of a round.
pub open spec fn fresh_cauldrons(ps: Seq<Player>) -> bool {
    forall|i: int|
        0 <= i < ps.len() ==> {
            let p = (#[trigger] ps[i]);
            &&& p.cauldron.wf()
            &&& p.cauldron.spec_chips().len() == 0
            &&& p.cauldron.spec_position() == 0
            &&& p.drop <= crate::player::COUNTER_ROOM
            &&& p.score <= crate::player::COUNTER_ROOM
        }
}

/// Pushing one chip into the bag raises exactly that chip's count.
proof fn lemma_push_chip_counts(o: Player, n: Player, c0: Chip)
    requires
        n.bag@ == o.bag@.push(c0),
        n.cauldron == o.cauldron,
    ensures
        forall|c: Chip|
            #![trigger crate::player::chip_count(n, c)]
            crate::player::chip_count(n, c) == crate::player::chip_count(o, c) + (if c == c0 {
                1int
            } else {
                0int
            }),
{
    broadcast use vstd::seq_lib::group_to_multiset_ensures, vstd::multiset::group_multiset_axioms;

}

/// One bonus-die reward conserves every chip count, except that the orange
/// grant adds exactly one orange chip.
proof fn lemma_bonus_counts(o: Player, n: Player)
    requires
        bonus_applied(o, n),
    ensures
        forall|c: Chip|
            #![trigger crate::player::chip_count(n, c)]
            crate::player::chip_count(o, c) <= crate::player::chip_count(n, c)
                <= crate::player::chip_count(o, c) + (if c == Chip::Orange1 {
                1int
            } else {
                0int
            }),
{
    broadcast use vstd::seq_lib::group_to_multiset_ensures, vstd::multiset::group_multiset_axioms;

    if n.bag@ == o.bag@.push(Chip::Orange1) {
        lemma_push_chip_counts(o, n, Chip::Orange1);
    }
}

/// Draining the cauldron into the bag conserves every chip count.
proof fn lemma_drain_counts(o: Player, n: Player)
    requires
        n.bag@ == o.bag@ + o.cauldron.spec_chips(),
        n.cauldron.spec_chips().len() == 0,
    ensures
        forall|c: Chip|
            #![trigger crate::player::chip_count(n, c)]
            crate::player::chip_count(n, c) == crate::player::chip_count(o, c),
{
    broadcast use vstd::seq_lib::group_to_multiset_ensures, vstd::multiset::group_multiset_axioms;

    vstd::seq_lib::lemma_multiset_commutative(o.bag@, o.cauldron.spec_chips());
    assert(n.cauldron.spec_chips() =~= Seq::<Chip>::empty());
    assert(n.cauldron.spec_chips().to_multiset() =~= vstd::multiset::Multiset::<Chip>::empty());
}

/// A bought combination is made of at most two non-white chips, so buying
/// never touches white counts and raises no count by more than two.
proof fn lemma_bought_counts(o: Player, n: Player, rules: Seq<crate::rules::Rule>, turn: u8, coins: u8)
    requires
        n.cauldron == o.cauldron,
        bag_bought(o.bag@, n.bag@, rules, turn, coins),
    ensures
        forall|c: Chip|
            #![trigger crate::player::chip_count(n, c)]
            crate::player::chip_count(o, c) <= crate::player::chip_count(n, c)
                <= crate::player::chip_count(o, c) + 2,
        forall|c: Chip|
            #![trigger crate::player::chip_count(n, c)]
            c.spec_color() == Color::White ==> crate::player::chip_count(n, c)
                == crate::player::chip_count(o, c),
{
    broadcast use vstd::seq_lib::group_to_multiset_ensures, vstd::multiset::group_multiset_axioms;

    let opts = crate::purchase::ruleset_options(rules, turn);
    crate::purchase::lemma_ruleset_options_valid(rules, turn);
    if n.bag@ != o.bag@ {
        let ch = choose|ch: Seq<Chip>|
            n.bag@ == o.bag@ + ch && #[trigger] crate::purchase::valid_choice(
                opts,
                coins as int,
                ch,
            );
        vstd::seq_lib::lemma_multiset_commutative(o.bag@, ch);
        assert forall|c: Chip| ch.to_multiset().count(c) <= 2 && (c.spec_color() == Color::White
            ==> ch.to_multiset().count(c) == 0) by {
            if ch.len() == 1 {
                assert(ch =~= Seq::<Chip>::empty().push(ch[0]));
                let i0 = choose|i: int| 0 <= i < opts.len() && (#[trigger] opts[i]).0 == ch[0];
                assert(ch[0].spec_color() != Color::White);
            } else {
                assert(ch =~= Seq::<Chip>::empty().push(ch[0]).push(ch[1]));
                let i0 = choose|i: int| 0 <= i < opts.len() && (#[trigger] opts[i]).0 == ch[0];
                let i1 = choose|i: int| 0 <= i < opts.len() && (#[trigger] opts[i]).0 == ch[1];
                assert(ch[0].spec_color() != Color::White);
                assert(ch[1].spec_color() != Color::White);
            }
        }
    }
}

/// The one-round White1 grant: one extra white chip on turn 6, none
/// otherwise.
pub open spec fn white_grant(turn: u8, c: Chip) -> int {
    if turn == 6 && c == Chip::White1 {
        1
    } else {
        0
    }
}

/// The conservation ledger of a round, relative to the arena at the round's
/// start: white chips never appear beyond the one turn-6 grant, and without
/// a yellow rule in play they never vanish either; chips of other colors
/// are never destroyed and grow by at most `slack` copies each (the bonus
/// die's orange grant and the purchase of a bundle).
pub open spec fn round_counts(
    o: Player,
    p: Player,
    turn: u8,
    rules: Seq<crate::rules::Rule>,
    slack: int,
) -> bool {
    &&& forall|c: Chip|
        #![trigger crate::player::chip_count(p, c)]
        c.spec_color() == Color::White ==> crate::player::chip_count(p, c)
            <= crate::player::chip_count(o, c) + white_grant(turn, c)
    &&& (!rules.contains(crate::rules::Rule::Yellow) ==> forall|c: Chip|
        #![trigger crate::player::chip_count(p, c)]
        c.spec_color() == Color::White ==> crate::player::chip_count(p, c)
            == crate::player::chip_count(o, c) + white_grant(turn, c))
    &&& forall|c: Chip|
        #![trigger crate::player::chip_count(p, c)]
        c.spec_color() != Color::White ==> crate::player::chip_count(o, c)
            <= crate::player::chip_count(p, c) <= crate::player::chip_count(o, c) + slack
}

/// One more conserving step extends the ledger: whites may only shrink (and
/// stay put without a yellow rule), other colors may grow by `d` more.
proof fn lemma_round_counts_extend(
    o: Player,
    a: Player,
    b: Player,
    turn: u8,
    rules: Seq<crate::rules::Rule>,
    s1: int,
    d: int,
)
    requires
        round_counts(o, a, turn, rules, s1),
        forall|c: Chip|
            #![trigger crate::player::chip_count(b, c)]
            c.spec_color() == Color::White ==> crate::player::chip_count(b, c)
                <= crate::player::chip_count(a, c),
        !rules.contains(crate::rules::Rule::Yellow) ==> forall|c: Chip|
            #![trigger crate::player::chip_count(b, c)]
            c.spec_color() == Color::White ==> crate::player::chip_count(b, c)
                == crate::player::chip_count(a, c),
        forall|c: Chip|
            #![trigger crate::player::chip_count(b, c)]
            c.spec_color() != Color::White ==> crate::player::chip_count(a, c)
                <= crate::player::chip_count(b, c) <= crate::player::chip_count(a, c) + d,
        d >= 0,
    ensures
        round_counts(o, b, turn, rules, s1 + d),
{
    assert forall|c: Chip|
        #![trigger crate::player::chip_count(b, c)]
        c.spec_color() == Color::White implies crate::player::chip_count(b, c)
        <= crate::player::chip_count(o, c) + white_grant(turn, c) by {
        assert(crate::player::chip_count(a, c) <= crate::player::chip_count(o, c) + white_grant(
            turn,
            c,
        ));
    }
    if !rules.contains(crate::rules::Rule::Yellow) {
        assert forall|c: Chip|
            #![trigger crate::player::chip_count(b, c)]
            c.spec_color() == Color::White implies crate::player::chip_count(b, c)
            == crate::player::chip_count(o, c) + white_grant(turn, c) by {
            assert(crate::player::chip_count(a, c) == crate::player::chip_count(o, c)
                + white_grant(turn, c));
        }
    }
    assert forall|c: Chip|
        #![trigger crate::player::chip_count(b, c)]
        c.spec_color() != Color::White implies crate::player::chip_count(o, c)
        <= crate::player::chip_count(b, c) <= crate::player::chip_count(o, c) + (s1 + d) by {
        assert(crate::player::chip_count(o, c) <= crate::player::chip_count(a, c)
            <= crate::player::chip_count(o, c) + s1);
    }
}

/// A step that moves no chips at all keeps the ledger as it is.
proof fn lemma_counts_preserved_step(
    o: Player,
    a: Player,
    b: Player,
    turn: u8,
    rules: Seq<crate::rules::Rule>,
    s1: int,
)
    requires
        round_counts(o, a, turn, rules, s1),
        forall|c: Chip|
            #![trigger crate::player::chip_count(b, c)]
            crate::player::chip_count(b, c) == crate::player::chip_count(a, c),
        s1 >= 0,
    ensures
        round_counts(o, b, turn, rules, s1),
{
    lemma_round_counts_extend(o, a, b, turn, rules, s1, 0);
}

/// The fill phase left its mark on this player: a chip placed this round is
/// still in the cauldron, or the flask was spent retracting one.
pub open spec fn placed_a_chip(o: Player, p: Player) -> bool {
    p.cauldron.spec_chips().len() >= 1 || (o.flask && !p.flask)
}

/// What the fill phase may do to one player: the identity and the durable
/// counters stay, the flask is only ever consumed, the cauldron stays well
/// formed with its limit, no chip is ever created, and chips other than
/// white are conserved exactly between bag and cauldron.
pub open spec fn player_frame(o: Player, p: Player) -> bool {
    &&& p.name == o.name
    &&& p.strategy == o.strategy
    &&& p.score == o.score
    &&& p.rubies == o.rubies
    &&& p.drop == o.drop
    &&& (p.flask ==> o.flask)
    &&& p.cauldron.wf()
    &&& p.cauldron.spec_limit() == o.cauldron.spec_limit()
    &&& forall|c: Chip|
        #![trigger crate::player::chip_count(p, c)]
        crate::player::chip_count(p, c) <= crate::player::chip_count(o, c)
    &&& forall|c: Chip|
        #![trigger crate::player::chip_count(p, c)]
        c.spec_color() != Color::White ==> crate::player::chip_count(p, c)
            == crate::player::chip_count(o, c)
}

/// The frame with every chip conserved exactly: what holds when no yellow
/// rule can dissolve a white chip.
pub open spec fn player_frame_exact(o: Player, p: Player) -> bool {
    &&& player_frame(o, p)
    &&& forall|c: Chip|
        #![trigger crate::player::chip_count(p, c)]
        crate::player::chip_count(p, c) == crate::player::chip_count(o, c)
}

/// The fill phase's frame over the whole arena.
pub open spec fn fill_phase_frame(
    before: Seq<Player>,
    after: Seq<Player>,
    rules: Seq<crate::rules::Rule>,
) -> bool {
    &&& after.len() == before.len()
    &&& forall|j: int| 0 <= j < after.len() ==> player_frame(#[trigger] before[j], after[j])
    &&& (!rules.contains(crate::rules::Rule::Yellow) ==> forall|j: int|
        0 <= j < after.len() ==> player_frame_exact(#[trigger] before[j], after[j]))
}

/// The per-player frame composes.
proof fn lemma_player_frame_trans(a: Player, b: Player, c: Player)
    requires
        player_frame(a, b),
        player_frame(b, c),
    ensures
        player_frame(a, c),
{
    assert forall|ch: Chip|
        #![trigger crate::player::chip_count(c, ch)]
        crate::player::chip_count(c, ch) <= crate::player::chip_count(a, ch) && (ch.spec_color()
            != Color::White ==> crate::player::chip_count(c, ch) == crate::player::chip_count(
            a,
            ch,
        )) by {
        assert(crate::player::chip_count(b, ch) <= crate::player::chip_count(a, ch));
        assert(crate::player::chip_count(c, ch) <= crate::player::chip_count(b, ch));
    }
}

/// The exact per-player frame composes.
proof fn lemma_player_frame_exact_trans(a: Player, b: Player, c: Player)
    requires
        player_frame_exact(a, b),
        player_frame_exact(b, c),
    ensures
        player_frame_exact(a, c),
{
    lemma_player_frame_trans(a, b, c);
    assert forall|ch: Chip|
        #![trigger crate::player::chip_count(c, ch)]
        crate::player::chip_count(c, ch) == crate::player::chip_count(a, ch) by {
        assert(crate::player::chip_count(b, ch) == crate::player::chip_count(a, ch));
        assert(crate::player::chip_count(c, ch) == crate::player::chip_count(b, ch));
    }
}

/// One player changed under the per-player frame keeps the arena frame.
proof fn lemma_frame_update(
    orig: Seq<Player>,
    a: Seq<Player>,
    b: Seq<Player>,
    i: int,
    rules: Seq<crate::rules::Rule>,
)
    requires
        fill_phase_frame(orig, a, rules),
        b.len() == a.len(),
        0 <= i < a.len(),
        forall|j: int| 0 <= j < a.len() && j != i ==> b[j] == a[j],
        player_frame(a[i], b[i]),
        !rules.contains(crate::rules::Rule::Yellow) ==> player_frame_exact(a[i], b[i]),
    ensures
        fill_phase_frame(orig, b, rules),
{
    assert forall|j: int| 0 <= j < b.len() implies player_frame(#[trigger] orig[j], b[j]) by {
        if j == i {
            lemma_player_frame_trans(orig[i], a[i], b[i]);
        } else {
            assert(b[j] == a[j]);
        }
    }
    if !rules.contains(crate::rules::Rule::Yellow) {
        assert forall|j: int| 0 <= j < b.len() implies player_frame_exact(
            #[trigger] orig[j],
            b[j],
        ) by {
            if j == i {
                lemma_player_frame_exact_trans(orig[i], a[i], b[i]);
            } else {
                assert(b[j] == a[j]);
            }
        }
    }
}

/// Conservation across a fill-and-drain cycle: take one player as the fill
/// phase found them (`o`), as it left them (`p`), and after the cleanup
/// drained the cauldron back into the bag (`q`). No chip was created, every
/// chip of a color other than white survived the cycle exactly, and without
/// a yellow rule in play the bag holds exactly the chips it started with,
/// so `bag.size() + cauldron.size()` is invariant.
pub proof fn lemma_fill_drain_conservation(o: Player, p: Player, q: Player, exact: bool)
    requires
        player_frame(o, p),
        exact ==> player_frame_exact(o, p),
        q.bag@ == p.bag@ + p.cauldron.spec_chips(),
        q.cauldron.spec_chips().len() == 0,
    ensures
        forall|c: Chip|
            #![trigger crate::player::chip_count(q, c)]
            crate::player::chip_count(q, c) <= crate::player::chip_count(o, c),
        forall|c: Chip|
            #![trigger crate::player::chip_count(q, c)]
            c.spec_color() != Color::White ==> crate::player::chip_count(q, c)
                == crate::player::chip_count(o, c),
        exact ==> q.bag@.to_multiset() == o.bag@.to_multiset().add(
            o.cauldron.spec_chips().to_multiset(),
        ),
        exact ==> crate::player::pool_size(q) == crate::player::pool_size(o),
{
    broadcast use vstd::seq_lib::group_to_multiset_ensures, vstd::multiset::group_multiset_axioms;

    vstd::seq_lib::lemma_multiset_commutative(p.bag@, p.cauldron.spec_chips());
    assert(q.cauldron.spec_chips() =~= Seq::<Chip>::empty());
    assert(q.cauldron.spec_chips().to_multiset() =~= vstd::multiset::Multiset::<Chip>::empty());
    assert forall|c: Chip|
        #![trigger crate::player::chip_count(q, c)]
        crate::player::chip_count(q, c) == crate::player::chip_count(p, c) by {
        assert(q.bag@.to_multiset().count(c) == p.bag@.to_multiset().count(c)
            + p.cauldron.spec_chips().to_multiset().count(c));
    }
    if exact {
        assert(q.bag@.to_multiset() =~= o.bag@.to_multiset().add(
            o.cauldron.spec_chips().to_multiset(),
        )) by {
            assert forall|c: Chip|
                q.bag@.to_multiset().count(c) == o.bag@.to_multiset().count(c)
                    + o.cauldron.spec_chips().to_multiset().count(c) by {
                assert(crate::player::chip_count(p, c) == crate::player::chip_count(o, c));
            }
        }
        assert(q.bag@.to_multiset().len() == o.bag@.to_multiset().add(
            o.cauldron.spec_chips().to_multiset(),
        ).len());
        assert(crate::player::pool_size(q) == crate::player::pool_size(o));
    }
}

/// The fill-cauldron phase: every player starts the round's cauldron at the
/// drop-track offset plus the rat-tail catch-up, then all still-active
/// players draw in lock-step ticks (registration order within a tick),
/// firing the chip hooks after every placement and offering the flask on a
/// fresh white chip, until everyone has exploded, filled up, run out of
/// chips, or chosen to stop.
pub fn fill_cauldron_phase(
    players: &mut Vec<Player>,
    rules: &RuleSet,
    turn: u8,
    rng: &mut rand::rngs::SmallRng,
)
    requires
        fresh_cauldrons(old(players)@),
    ensures
        fill_phase_frame(old(players)@, final(players)@, rules.rules@),
        forall|i: int|
            0 <= i < old(players)@.len() ==> (#[trigger] final(players)@[i]).cauldron.spec_position()
                >= old(players)@[i].drop + rat_tails_between(
                old(players)@[i].score as int,
                max_points(old(players)@),
            ),
        forall|i: int|
            0 <= i < old(players)@.len() && old(players)@[i].drop + rat_tails_between(
                old(players)@[i].score as int,
                max_points(old(players)@),
            ) < LAST_FIELD && old(players)@[i].bag@.len() > 0 ==> placed_a_chip(
                old(players)@[i],
                (#[trigger] final(players)@[i]),
            ),
{
    let ghost orig = old(players)@;
    let n = players.len();
    // Compute every player's starting offset before touching anyone.
    let mut offsets: Vec<u64> = Vec::new();
    let mut i: usize = 0;
    while i < n
        invariant
            i <= n,
            n == players@.len(),
            players@ == orig,
            offsets@.len() == i,
            fresh_cauldrons(orig),
            forall|j: int|
                0 <= j < i ==> (#[trigger] offsets@[j]) == orig[j].drop + rat_tails_between(
                    orig[j].score as int,
                    max_points(orig),
                ),
        decreases n - i,
    {
        proof {
            lemma_max_points_le(players@, crate::player::COUNTER_ROOM as int);
        }
        let d = players[i].drop_position();
        let r = calculate_rat_tails(players, i);
        offsets.push(d + r);
        i = i + 1;
    }
    // Apply the offsets.
    let mut i: usize = 0;
    while i < n
        invariant
            i <= n,
            n == players@.len() == orig.len(),
            offsets@.len() == n,
            fresh_cauldrons(orig),
            fill_phase_frame(orig, players@, rules.rules@),
            forall|j: int|
                i <= j < orig.len() ==> (#[trigger] players@[j]) == orig[j],
            forall|j: int|
                0 <= j < i ==> (#[trigger] players@[j]).cauldron.spec_free() == offsets@[j],
            forall|j: int|
                0 <= j < i ==> {
                    let p = (#[trigger] players@[j]);
                    &&& p.cauldron.spec_chips() == orig[j].cauldron.spec_chips()
                    &&& p.cauldron.spec_position() == offsets@[j]
                    &&& p.bag@ == orig[j].bag@
                    &&& p.flask == orig[j].flask
                },
        decreases n - i,
    {
        let ghost before = players@;
        let off = offsets[i];
        let p = &mut players[i];
        proof {
            assert(before[i as int].cauldron.spec_position() == 0);
        }
        p.cauldron.increase_position(off);
        proof {
            lemma_frame_update(orig, before, players@, i as int, rules.rules@);
        }
        i = i + 1;
    }
    // All players able to draw start active, in registration order.
    let mut active: Vec<usize> = Vec::new();
    let mut i: usize = 0;
    while i < n
        invariant
            i <= n,
            n == players@.len() == orig.len(),
            offsets@.len() == n,
            fresh_cauldrons(orig),
            fill_phase_frame(orig, players@, rules.rules@),
            forall|j: int|
                0 <= j < n ==> {
                    let p = (#[trigger] players@[j]);
                    &&& p.cauldron.spec_chips() == orig[j].cauldron.spec_chips()
                    &&& p.cauldron.spec_position() == offsets@[j]
                    &&& p.bag@ == orig[j].bag@
                    &&& p.flask == orig[j].flask
                },
            forall|q: int| 0 <= q < active@.len() ==> (#[trigger] active@[q]) < i,
            forall|q1: int, q2: int|
                0 <= q1 < q2 < active@.len() ==> (#[trigger] active@[q1]) < (
                #[trigger] active@[q2]),
            forall|q: int|
                0 <= q < active@.len() ==> draw_ready(players@[(#[trigger] active@[q]) as int]),
            forall|j: int|
                0 <= j < i && offsets@[j] < LAST_FIELD && (#[trigger] orig[j]).bag@.len() > 0
                    ==> exists|q: int|
                    #![trigger active@[q]]
                    0 <= q < active@.len() && active@[q] as int == j,
        decreases n - i,
    {
        proof {
            assert(player_frame(orig[i as int], players@[i as int]));
        }
        let exploded = players[i].cauldron.is_exploded();
        let full = players[i].cauldron.is_full();
        if !exploded && !full && players[i].bag.len() > 0 {
            assert(draw_ready(players@[i as int]));
            let ghost pre = active@;
            active.push(i);
            proof {
                assert forall|j: int|
                    0 <= j < i + 1 && offsets@[j] < LAST_FIELD && (#[trigger] orig[j]).bag@.len()
                        > 0 implies exists|q: int|
                    #![trigger active@[q]]
                    0 <= q < active@.len() && active@[q] as int == j by {
                    if j == i {
                        assert(active@[active@.len() - 1] as int == j);
                    } else {
                        let q = choose|q: int|
                            #![trigger pre[q]]
                            0 <= q < pre.len() && pre[q] as int == j;
                        assert(active@[q] as int == j);
                    }
                }
            }
        } else {
            proof {
                // A skipped player is either already full from the offset or
                // out of chips: a drained cauldron cannot have exploded.
                assert(players@[i as int].cauldron.spec_chips().len() == 0);
                assert(!players@[i as int].cauldron.spec_exploded());
                assert(offsets@[i as int] >= LAST_FIELD || orig[i as int].bag@.len() == 0);
            }
        }
        i = i + 1;
    }
    // Lock-step draw ticks until nobody is active.
    while active.len() > 0
        invariant
            n == players@.len() == orig.len(),
            offsets@.len() == n,
            fill_phase_frame(orig, players@, rules.rules@),
            forall|j: int|
                0 <= j < n ==> (#[trigger] players@[j]).cauldron.spec_free() >= offsets@[j],
            forall|j: int|
                0 <= j < n && offsets@[j] < LAST_FIELD && (#[trigger] orig[j]).bag@.len() > 0
                    ==> placed_a_chip(orig[j], players@[j]) || exists|q: int|
                    #![trigger active@[q]]
                    0 <= q < active@.len() && active@[q] as int == j,
            forall|q: int| 0 <= q < active@.len() ==> (#[trigger] active@[q]) < n,
            forall|q1: int, q2: int|
                0 <= q1 < q2 < active@.len() ==> (#[trigger] active@[q1]) < (
                #[trigger] active@[q2]),
            forall|q: int|
                0 <= q < active@.len() ==> draw_ready(players@[(#[trigger] active@[q]) as int]),
        decreases total_measure(players@),
    {
        let ghost tick_start = players@;
        let mut a: usize = 0;
        while a < active.len()
            invariant
                a <= active@.len(),
                n == players@.len() == orig.len(),
                tick_start.len() == n,
                offsets@.len() == n,
                fill_phase_frame(orig, players@, rules.rules@),
                forall|j: int|
                    0 <= j < n ==> (#[trigger] players@[j]).cauldron.spec_free() >= offsets@[j],
                forall|j: int|
                    0 <= j < n && offsets@[j] < LAST_FIELD && (#[trigger] orig[j]).bag@.len() > 0
                        ==> placed_a_chip(orig[j], players@[j]) || exists|q: int|
                        #![trigger active@[q]]
                        a <= q < active@.len() && active@[q] as int == j,
                forall|q: int| 0 <= q < active@.len() ==> (#[trigger] active@[q]) < n,
                forall|q1: int, q2: int|
                    0 <= q1 < q2 < active@.len() ==> (#[trigger] active@[q1]) < (
                    #[trigger] active@[q2]),
                forall|q: int|
                    a <= q < active@.len() ==> players@[(#[trigger] active@[q]) as int]
                        == tick_start[active@[q] as int],
                forall|q: int|
                    a <= q < active@.len() ==> draw_ready(
                        players@[(#[trigger] active@[q]) as int],
                    ),
                total_measure(players@) <= total_measure(tick_start) - a,
            decreases active@.len() - a,
        {
            let idx = active[a];
            let ghost before = players@;
            let p = &mut players[idx];
            let ghost bag_before = p.bag@;
            let chip = p.draw(rng);
            let ghost mid = *p;
            p.add_chip_to_cauldron(chip);
            proof {
                let k = choose|k: int|
                    0 <= k < bag_before.len() && chip == bag_before[k] && mid.bag@
                        == bag_before.remove(k);
                lemma_move_bag_to_cauldron(before[idx as int], mid, *p, k);
                crate::cauldron::lemma_sums_push(
                    before[idx as int].cauldron.spec_chips(),
                    chip,
                    Color::White,
                );
                assert(player_frame(before[idx as int], *p));
                assert(player_frame_exact(before[idx as int], *p));
                assert(p.cauldron.spec_free() == before[idx as int].cauldron.spec_free());
            }
            proof {
                lemma_frame_update(orig, before, players@, idx as int, rules.rules@);
                lemma_total_measure_update(before, players@, idx as int);
            }
            let ghost pre_hooks = players@;
            rules.apply_chip_drawn_rules(&mut players[idx], turn, rng);
            proof {
                assert(player_frame(pre_hooks[idx as int], players@[idx as int]));
                lemma_frame_update(orig, pre_hooks, players@, idx as int, rules.rules@);
                lemma_total_measure_update(pre_hooks, players@, idx as int);
            }
            let exploded = players[idx].cauldron.is_exploded();
            if !exploded {
                if players[idx].can_use_flask() {
                    if players[idx].wants_to_use_flask(rng) {
                        let ghost pre_flask = players@;
                        let p = &mut players[idx];
                        let ghost fc = p.cauldron.spec_chips();
                        proof {
                            assert(fc =~= fc.drop_last().push(fc.last()));
                            crate::cauldron::lemma_sums_push(fc.drop_last(), fc.last(),
                                Color::White);
                        }
                        let flask_chip = p.cauldron.remove_last().unwrap();
                        p.bag.push(flask_chip);
                        p.use_flask();
                        proof {
                            lemma_move_cauldron_to_bag(pre_flask[idx as int], *p);
                            assert(p.cauldron.spec_free() == pre_flask[idx as int].cauldron.spec_free());
                            assert(player_frame(pre_flask[idx as int], *p));
                            assert(player_frame_exact(pre_flask[idx as int], *p));
                            lemma_frame_update(orig, pre_flask, players@, idx as int, rules.rules@);
                            lemma_total_measure_update(pre_flask, players@, idx as int);
                            assert(orig[idx as int].flask);
                            assert(!p.flask);
                        }
                    }
                }
            }
            proof {
                assert(placed_a_chip(orig[idx as int], players@[idx as int]));
                assert forall|j: int|
                    0 <= j < n && offsets@[j] < LAST_FIELD && (#[trigger] orig[j]).bag@.len() > 0
                        implies placed_a_chip(orig[j], players@[j]) || exists|q: int|
                    #![trigger active@[q]]
                    a + 1 <= q < active@.len() && active@[q] as int == j by {
                    if j != idx && !placed_a_chip(orig[j], players@[j]) {
                        let q = choose|q: int|
                            #![trigger active@[q]]
                            a <= q < active@.len() && active@[q] as int == j;
                        assert(active@[q] as int == j && j != idx as int);
                        assert(q != a);
                    }
                }
            }
            a = a + 1;
        }
        // Keep, in order, everyone who may and wants to keep drawing.
        let mut next_active: Vec<usize> = Vec::new();
        let mut a: usize = 0;
        while a < active.len()
            invariant
                a <= active@.len(),
                n == players@.len(),
                forall|q: int| 0 <= q < active@.len() ==> (#[trigger] active@[q]) < n,
                forall|q1: int, q2: int|
                    0 <= q1 < q2 < active@.len() ==> (#[trigger] active@[q1]) < (
                    #[trigger] active@[q2]),
                n == orig.len(),
                fill_phase_frame(orig, players@, rules.rules@),
                forall|q: int|
                    0 <= q < next_active@.len() ==> (#[trigger] next_active@[q]) < n && a > 0
                        && next_active@[q] <= active@[a - 1],
                forall|q1: int, q2: int|
                    0 <= q1 < q2 < next_active@.len() ==> (#[trigger] next_active@[q1]) < (
                    #[trigger] next_active@[q2]),
                forall|q: int|
                    0 <= q < next_active@.len() ==> draw_ready(
                        players@[(#[trigger] next_active@[q]) as int],
                    ),
            decreases active@.len() - a,
        {
            let idx = active[a];
            proof {
                assert(player_frame(orig[idx as int], players@[idx as int]));
            }
            let exploded = players[idx].cauldron.is_exploded();
            let full = players[idx].cauldron.is_full();
            if !exploded && !full {
                let cont = players[idx].wants_to_continue_drawing(turn, rng);
                if cont && players[idx].bag.len() > 0 {
                    assert(draw_ready(players@[idx as int]));
                    next_active.push(idx);
                }
            }
            a = a + 1;
        }
        proof {
            lemma_total_measure_nonneg(players@);
        }
        active = next_active;
    }
    proof {
        assert forall|i: int| 0 <= i < orig.len() implies (#[trigger] players@[i]).cauldron.spec_position()
            >= orig[i].drop + rat_tails_between(orig[i].score as int, max_points(orig)) by {
            crate::cauldron::lemma_sum_relations(players@[i].cauldron.spec_chips(), Color::White);
            assert(players@[i].cauldron.spec_free() >= offsets@[i]);
        }
        assert forall|i: int|
            0 <= i < orig.len() && offsets@[i] < LAST_FIELD && (#[trigger] orig[i]).bag@.len() > 0
                implies placed_a_chip(orig[i], players@[i]) by {
            assert(active@.len() == 0);
        }
    }
    // The cauldron-finished hooks fire for every player as the phase ends;
    // every rule in the catalog leaves a finished cauldron untouched.
    let mut i: usize = 0;
    while i < n
        invariant
            i <= n,
            n == players@.len(),
        decreases n - i,
    {
        rules.apply_cauldron_finished_rules(&players[i]);
        i = i + 1;
    }
}

/// The scoring step for one player, read off the finished cauldron's score:
/// a ruby space pays one ruby; a safe cauldron buys with its coins and then
/// banks its points; an exploded one chooses through the strategy between
/// buying with the coins and banking the points.
pub fn scoring_phase(players: &mut Vec<Player>, idx: usize, rules: &RuleSet, turn: u8)
    requires
        idx < old(players)@.len(),
        old(players)@[idx as int].cauldron.wf(),
        old(players)@[idx as int].rubies + 1 <= u64::MAX,
        old(players)@[idx as int].score + 255 <= u64::MAX,
    ensures
        final(players)@.len() == old(players)@.len(),
        forall|j: int|
            0 <= j < old(players)@.len() && j != idx ==> final(players)@[j] == old(players)@[j],
        ({
            let o = old(players)@[idx as int];
            let p = final(players)@[idx as int];
            let s = o.cauldron.spec_score();
            &&& p.name == o.name
            &&& p.strategy == o.strategy
            &&& p.flask == o.flask
            &&& p.drop == o.drop
            &&& p.cauldron == o.cauldron
            &&& p.rubies == o.rubies + crate::cauldron::ruby_val(s.ruby)
            &&& (!o.cauldron.spec_exploded() ==> p.score == o.score + s.points && bag_bought(
                o.bag@,
                p.bag@,
                rules.rules@,
                turn,
                s.coins,
            ))
            &&& (o.cauldron.spec_exploded() ==> (p.score == o.score + s.points && p.bag@ == o.bag@)
                || (p.score == o.score && bag_bought(o.bag@, p.bag@, rules.rules@, turn, s.coins)))
        }),
{
    let sc = players[idx].cauldron.score();
    if sc.ruby {
        let p = &mut players[idx];
        p.add_rubies(1);
    }
    let exploded = players[idx].cauldron.is_exploded();
    if !exploded {
        buy_chips_phase(players, idx, rules, turn, sc.coins);
        let p = &mut players[idx];
        p.add_victory_points(sc.points as u64);
    } else {
        if players[idx].wants_to_buy_instead_of_points() {
            buy_chips_phase(players, idx, rules, turn, sc.coins);
        } else {
            let p = &mut players[idx];
            p.add_victory_points(sc.points as u64);
        }
    }
}

/// The ruby-spending phase for one player: once, the chance to refill an
/// empty flask at the flask price; then, repeatedly, the chance to advance
/// the drop track at the drop price while the rubies last and the strategy
/// keeps agreeing. Every ruby spent is accounted for by the refill or by
/// the advances.
pub fn spend_rubies_phase(
    p: &mut Player,
    fill_price: u8,
    drop_price: u8,
    rng: &mut rand::rngs::SmallRng,
)
    requires
        drop_price >= 1,
        old(p).drop + old(p).rubies <= u64::MAX,
    ensures
        final(p).name == old(p).name,
        final(p).strategy == old(p).strategy,
        final(p).score == old(p).score,
        final(p).same_holdings(*old(p)),
        old(p).flask ==> final(p).flask,
        final(p).drop >= old(p).drop,
        final(p).rubies <= old(p).rubies,
        old(p).rubies - final(p).rubies == (if final(p).flask && !old(p).flask {
            fill_price as int
        } else {
            0int
        }) + (final(p).drop - old(p).drop) * (drop_price as int),
        final(p).drop <= old(p).drop + old(p).rubies,
{
    if !p.flask() && p.rubies() >= fill_price as u64 {
        if p.wants_to_pay_rubies_to_fill_flask(rng) {
            p.subtract_rubies(fill_price as u64);
            p.fill_flask();
        }
    }
    let ghost did_fill: bool = p.flask && !old(p).flask;
    let ghost fill_cost: int = if did_fill {
        fill_price as int
    } else {
        0int
    };
    let ghost start_rubies = p.rubies;
    let ghost start_drop = p.drop;
    loop
        invariant
            p.name == old(p).name,
            p.strategy == old(p).strategy,
            p.score == old(p).score,
            p.same_holdings(*old(p)),
            p.flask == (old(p).flask || did_fill),
            start_drop == old(p).drop,
            p.drop >= start_drop,
            p.rubies <= start_rubies,
            old(p).rubies - start_rubies == fill_cost,
            0 <= fill_cost,
            start_rubies - p.rubies == (p.drop - start_drop) * (drop_price as int),
            p.drop - start_drop <= start_rubies - p.rubies,
            old(p).drop + old(p).rubies <= u64::MAX,
            drop_price >= 1,
        ensures
            p.name == old(p).name,
            p.strategy == old(p).strategy,
            p.score == old(p).score,
            p.same_holdings(*old(p)),
            p.flask == (old(p).flask || did_fill),
            start_drop == old(p).drop,
            p.drop >= start_drop,
            p.rubies <= start_rubies,
            old(p).rubies - start_rubies == fill_cost,
            start_rubies - p.rubies == (p.drop - start_drop) * (drop_price as int),
            p.drop - start_drop <= start_rubies - p.rubies,
        decreases p.rubies,
    {
        if p.rubies() < drop_price as u64 {
            break;
        }
        if p.wants_to_pay_rubies_to_move_drop(drop_price, rng) {
            let ghost d = p.drop - start_drop;
            proof {
                assert(d * (drop_price as int) >= d) by (nonlinear_arith)
                    requires
                        d >= 0,
                        drop_price >= 1,
                ;
            }
            p.subtract_rubies(drop_price as u64);
            proof {
                assert(start_rubies <= old(p).rubies);
                assert(p.drop - start_drop == d);
                assert(start_rubies - p.rubies == d * (drop_price as int) + drop_price);
                assert(p.drop <= start_drop + d * (drop_price as int));
                assert(p.drop < u64::MAX);
            }
            p.move_drop();
            proof {
                assert((d + 1) * (drop_price as int) == d * (drop_price as int) + (
                drop_price as int)) by (nonlinear_arith);
            }
        } else {
            break;
        }
    }
    proof {
        let moved = p.drop - start_drop;
        assert(moved >= 0);
        assert(moved * (drop_price as int) >= 0) by (nonlinear_arith)
            requires
                moved >= 0,
                drop_price >= 1,
        ;
    }
}

/// One full round, at the game's current turn: the turn-6 white chip, the
/// fill phase, the bonus die, the black/green/purple resolutions, scoring
/// and purchases, ruby spending, and the cleanup that drains every cauldron
/// back into its bag. The players, rules, prices and turn survive; each
/// player's counters grow by at most a bounded amount, and the conservation
/// ledger accounts for every chip.
///
/// Two features are deliberately absent from this engine: no fortune-teller
/// card is drawn at the start of a round, and the ninth round scores like
/// any other round, with no conversion of leftover coins or rubies into
/// victory points.
pub fn round(game: &mut Game, rng: &mut rand::rngs::SmallRng)
    requires
        old(game).rubies_to_move_drop >= 1,
        old(game).rules.rules@.len() <= crate::player::COUNTER_ROOM,
        fresh_cauldrons(old(game).players@),
        forall|i: int|
            0 <= i < old(game).players@.len() ==> (#[trigger] old(game).players@[i]).rubies
                <= crate::player::COUNTER_ROOM,
    ensures
        final(game).players@.len() == old(game).players@.len(),
        final(game).turn == old(game).turn,
        final(game).rules.rules@ == old(game).rules.rules@,
        final(game).rubies_to_fill_flask == old(game).rubies_to_fill_flask,
        final(game).rubies_to_move_drop == old(game).rubies_to_move_drop,
        forall|i: int|
            0 <= i < old(game).players@.len() ==> {
                let o = (#[trigger] old(game).players@[i]);
                let p = final(game).players@[i];
                let l = old(game).rules.rules@.len() as int;
                &&& p.name == o.name
                &&& p.strategy == o.strategy
                &&& p.cauldron.wf()
                &&& p.cauldron.spec_chips().len() == 0
                &&& p.cauldron.spec_position() == 0
                &&& p.score <= o.score + 300 + 2 * l
                &&& p.rubies <= o.rubies + 10 + 4 * l
                &&& p.drop <= o.drop + o.rubies + 20 + 6 * l
                &&& round_counts(o, p, old(game).turn, old(game).rules.rules@, 3)
            },
{
    let ghost orig = old(game).players@;
    let ghost rl = old(game).rules.rules@;
    let ghost t0 = old(game).turn;
    let ghost l = old(game).rules.rules@.len() as int;
    let n = game.players.len();
    // Turn 6 raises the stakes: an extra white chip into every bag.
    if game.turn == 6 {
        let mut i: usize = 0;
        while i < n
            invariant
                i <= n,
                n == game.players@.len() == orig.len(),
                game.turn == old(game).turn,
                game.rules.rules@ == old(game).rules.rules@,
                game.rubies_to_fill_flask == old(game).rubies_to_fill_flask,
                game.rubies_to_move_drop == old(game).rubies_to_move_drop,
                forall|j: int| i <= j < n ==> (#[trigger] game.players@[j]) == orig[j],
                forall|j: int|
                    0 <= j < i ==> (#[trigger] game.players@[j]).same_meta(orig[j])
                        && game.players@[j].cauldron == orig[j].cauldron
                        && game.players@[j].bag@ == orig[j].bag@.push(Chip::White1),
            decreases n - i,
        {
            let p = &mut game.players[i];
            p.add_chip_to_bag(Chip::White1);
            i = i + 1;
        }
    }
    proof {
        assert(fresh_cauldrons(game.players@));
        assert(forall|j: int|
            0 <= j < n ==> (#[trigger] game.players@[j]).same_meta(orig[j]) && game.players@[j].cauldron
                == orig[j].cauldron);
        assert forall|j: int| 0 <= j < n implies round_counts(
            orig[j],
            #[trigger] game.players@[j],
            t0,
            rl,
            0,
        ) by {
            if t0 == 6 {
                lemma_push_chip_counts(orig[j], game.players@[j], Chip::White1);
            }
        }
    }
    // Everyone fills their cauldron in lock-step.
    let ghost snap_fill = game.players@;
    fill_cauldron_phase(&mut game.players, &game.rules, game.turn, rng);
    proof {
        assert forall|j: int| 0 <= j < n implies {
            let p = (#[trigger] game.players@[j]);
            &&& p.name == orig[j].name
            &&& p.strategy == orig[j].strategy
            &&& p.score == orig[j].score
            &&& p.rubies == orig[j].rubies
            &&& p.drop == orig[j].drop
            &&& p.cauldron.wf()
        } by {
            assert(player_frame(snap_fill[j], game.players@[j]));
            assert(snap_fill[j].same_meta(orig[j]));
        }
        assert forall|j: int| 0 <= j < n implies round_counts(
            orig[j],
            #[trigger] game.players@[j],
            t0,
            rl,
            0,
        ) by {
            assert(player_frame(snap_fill[j], game.players@[j]));
            if !rl.contains(crate::rules::Rule::Yellow) {
                assert(player_frame_exact(snap_fill[j], game.players@[j]));
            }
            lemma_round_counts_extend(orig[j], snap_fill[j], game.players@[j], t0, rl, 0, 0);
        }
    }
    // The round's top scorers roll the bonus die.
    let ghost snap3 = game.players@;
    bonus_die_phase(&mut game.players, &game.rules, rng);
    proof {
        assert forall|j: int| 0 <= j < n implies {
            let p = (#[trigger] game.players@[j]);
            &&& p.name == orig[j].name
            &&& p.strategy == orig[j].strategy
            &&& p.score <= orig[j].score + 2
            &&& p.rubies <= orig[j].rubies + 1
            &&& p.drop <= orig[j].drop + 1
            &&& p.cauldron.wf()
        } by {
            if is_top_scorer(snap3, j) {
                assert(bonus_applied(snap3[j], game.players@[j]));
            } else {
                assert(game.players@[j] == snap3[j]);
            }
        }
        assert forall|j: int| 0 <= j < n implies round_counts(
            orig[j],
            #[trigger] game.players@[j],
            t0,
            rl,
            1,
        ) by {
            if is_top_scorer(snap3, j) {
                lemma_bonus_counts(snap3[j], game.players@[j]);
                lemma_round_counts_extend(orig[j], snap3[j], game.players@[j], t0, rl, 0, 1);
            } else {
                assert(game.players@[j] == snap3[j]);
                lemma_round_counts_extend(orig[j], snap3[j], game.players@[j], t0, rl, 0, 1);
            }
        }
    }
    // Black, green and purple chips resolve once per player.
    let ghost snap4 = game.players@;
    let mut i: usize = 0;
    while i < n
        invariant
            i <= n,
            n == game.players@.len() == snap4.len(),
            game.turn == old(game).turn,
            game.rubies_to_fill_flask == old(game).rubies_to_fill_flask,
            game.rubies_to_move_drop == old(game).rubies_to_move_drop,
            game.rules.rules@ == old(game).rules.rules@,
            l == game.rules.rules@.len() as int,
            0 <= l <= crate::player::COUNTER_ROOM,
            forall|j: int| i <= j < n ==> (#[trigger] game.players@[j]) == snap4[j],
            forall|j: int|
                0 <= j < i ==> {
                    let p = (#[trigger] game.players@[j]);
                    &&& p.name == snap4[j].name
                    &&& p.strategy == snap4[j].strategy
                    &&& p.flask == snap4[j].flask
                    &&& p.bag@ == snap4[j].bag@
                    &&& p.cauldron == snap4[j].cauldron
                    &&& p.score <= snap4[j].score + 2 * l
                    &&& p.rubies <= snap4[j].rubies + 4 * l
                    &&& p.drop <= snap4[j].drop + 2 * l
                },
            forall|j: int| 0 <= j < n ==> (#[trigger] game.players@[j]).cauldron.wf(),
            forall|j: int|
                0 <= j < n ==> (#[trigger] snap4[j]).score <= crate::player::COUNTER_ROOM + 2
                    && snap4[j].rubies <= crate::player::COUNTER_ROOM + 1 && snap4[j].drop
                    <= crate::player::COUNTER_ROOM + 1,
        decreases n - i,
    {
        let ghost pre_black = game.players@;
        proof {
            crate::rules::lemma_rule_count_bounds(game.rules.rules@, crate::rules::Rule::Black);
            let k = crate::rules::rule_count(game.rules.rules@, crate::rules::Rule::Black);
            let dg = crate::rules::black_drop_gain(pre_black, i as int);
            let rg = crate::rules::black_ruby_gain(pre_black, i as int);
            assert(0 <= k * dg <= k && 0 <= k * rg <= k) by (nonlinear_arith)
                requires
                    0 <= k,
                    0 <= dg <= 1,
                    0 <= rg <= 1,
            ;
        }
        game.rules.apply_black_chip_rules(&mut game.players, i);
        let ghost pre_green = game.players@;
        proof {
            crate::rules::lemma_rule_count_bounds(game.rules.rules@, crate::rules::Rule::Green);
            crate::rules::lemma_green_in_last_two_bounds(
                pre_green[i as int].cauldron.spec_chips(),
            );
            let k = crate::rules::rule_count(game.rules.rules@, crate::rules::Rule::Green);
            let g = crate::rules::green_in_last_two(pre_green[i as int].cauldron.spec_chips());
            assert(0 <= k * g <= 2 * k) by (nonlinear_arith)
                requires
                    0 <= k,
                    0 <= g <= 2,
            ;
        }
        game.rules.apply_green_chip_rules(&mut game.players[i]);
        let ghost pre_purple = game.players@;
        proof {
            crate::rules::lemma_rule_count_bounds(game.rules.rules@, crate::rules::Rule::Purple);
            let k = crate::rules::rule_count(game.rules.rules@, crate::rules::Rule::Purple);
            let cnt = crate::cauldron::color_count(
                pre_purple[i as int].cauldron.spec_chips(),
                Color::Purple,
            );
            assert({
                &&& 0 <= k * crate::rules::purple_points(cnt) <= 2 * k
                &&& 0 <= k * crate::rules::purple_rubies(cnt) <= k
                &&& 0 <= k * crate::rules::purple_drops(cnt) <= k
            }) by (nonlinear_arith)
                requires
                    0 <= k,
                    0 <= crate::rules::purple_points(cnt) <= 2,
                    0 <= crate::rules::purple_rubies(cnt) <= 1,
                    0 <= crate::rules::purple_drops(cnt) <= 1,
            ;
        }
        game.rules.apply_purple_chip_rules(&mut game.players[i]);
        i = i + 1;
    }
    proof {
        assert forall|j: int| 0 <= j < n implies {
            let p = (#[trigger] game.players@[j]);
            &&& p.name == orig[j].name
            &&& p.strategy == orig[j].strategy
            &&& p.score <= orig[j].score + 2 + 2 * l
            &&& p.rubies <= orig[j].rubies + 1 + 4 * l
            &&& p.drop <= orig[j].drop + 1 + 2 * l
            &&& p.cauldron.wf()
        } by {
            assert(snap4[j].name == orig[j].name);
        }
        assert forall|j: int| 0 <= j < n implies round_counts(
            orig[j],
            #[trigger] game.players@[j],
            t0,
            rl,
            1,
        ) by {
            assert(game.players@[j].bag@ == snap4[j].bag@);
            assert(game.players@[j].cauldron == snap4[j].cauldron);
            assert forall|c: Chip|
                #![trigger crate::player::chip_count(game.players@[j], c)]
                crate::player::chip_count(game.players@[j], c) == crate::player::chip_count(
                snap4[j],
                c,
            ) by {}
            lemma_counts_preserved_step(orig[j], snap4[j], game.players@[j], t0, rl, 1);
        }
    }
    // Scoring: the ruby space, then coins to spend or points to keep.
    let ghost snap5 = game.players@;
    let mut i: usize = 0;
    while i < n
        invariant
            i <= n,
            n == game.players@.len() == snap5.len(),
            game.rules.rules@ == old(game).rules.rules@,
            game.turn == old(game).turn,
            game.rubies_to_fill_flask == old(game).rubies_to_fill_flask,
            game.rubies_to_move_drop == old(game).rubies_to_move_drop,
            forall|j: int| i <= j < n ==> (#[trigger] game.players@[j]) == snap5[j],
            forall|j: int|
                0 <= j < i ==> {
                    let p = (#[trigger] game.players@[j]);
                    &&& p.name == snap5[j].name
                    &&& p.strategy == snap5[j].strategy
                    &&& p.flask == snap5[j].flask
                    &&& p.cauldron == snap5[j].cauldron
                    &&& p.drop == snap5[j].drop
                    &&& p.score <= snap5[j].score + 255
                    &&& p.rubies <= snap5[j].rubies + 1
                    &&& forall|c: Chip|
                        #![trigger crate::player::chip_count(p, c)]
                        c.spec_color() == Color::White ==> crate::player::chip_count(p, c)
                            == crate::player::chip_count(snap5[j], c)
                    &&& forall|c: Chip|
                        #![trigger crate::player::chip_count(p, c)]
                        c.spec_color() != Color::White ==> crate::player::chip_count(snap5[j], c)
                            <= crate::player::chip_count(p, c) <= crate::player::chip_count(
                            snap5[j],
                            c,
                        ) + 2
                },
            forall|j: int| 0 <= j < n ==> (#[trigger] game.players@[j]).cauldron.wf(),
            forall|j: int|
                0 <= j < n ==> (#[trigger] snap5[j]).score <= crate::player::COUNTER_ROOM + 2
                    + 2 * crate::player::COUNTER_ROOM && snap5[j].rubies
                    <= crate::player::COUNTER_ROOM + 1 + 4 * crate::player::COUNTER_ROOM,
        decreases n - i,
    {
        let ghost pre = game.players@;
        scoring_phase(&mut game.players, i, &game.rules, game.turn);
        proof {
            let o = pre[i as int];
            let p = game.players@[i as int];
            let s = o.cauldron.spec_score();
            if !o.cauldron.spec_exploded() {
                lemma_bought_counts(o, p, game.rules.rules@, game.turn, s.coins);
            } else if p.bag@ != o.bag@ {
                lemma_bought_counts(o, p, game.rules.rules@, game.turn, s.coins);
            } else {
                assert(forall|c: Chip|
                    #![trigger crate::player::chip_count(p, c)]
                    crate::player::chip_count(p, c) == crate::player::chip_count(o, c));
            }
        }
        i = i + 1;
    }
    proof {
        assert forall|j: int| 0 <= j < n implies round_counts(
            orig[j],
            #[trigger] game.players@[j],
            t0,
            rl,
            3,
        ) by {
            lemma_round_counts_extend(orig[j], snap5[j], game.players@[j], t0, rl, 1, 2);
        }
    }
    // Rubies may buy a flask refill and drop advances.
    let ghost snap6 = game.players@;
    let mut i: usize = 0;
    while i < n
        invariant
            i <= n,
            n == game.players@.len() == snap6.len(),
            game.turn == old(game).turn,
            game.rules.rules@ == old(game).rules.rules@,
            game.rubies_to_move_drop == old(game).rubies_to_move_drop,
            game.rubies_to_fill_flask == old(game).rubies_to_fill_flask,
            old(game).rubies_to_move_drop >= 1,
            forall|j: int| i <= j < n ==> (#[trigger] game.players@[j]) == snap6[j],
            forall|j: int|
                0 <= j < i ==> {
                    let p = (#[trigger] game.players@[j]);
                    &&& p.name == snap6[j].name
                    &&& p.strategy == snap6[j].strategy
                    &&& p.cauldron == snap6[j].cauldron
                    &&& p.bag@ == snap6[j].bag@
                    &&& p.score == snap6[j].score
                    &&& p.rubies <= snap6[j].rubies
                    &&& p.drop <= snap6[j].drop + snap6[j].rubies
                },
            forall|j: int| 0 <= j < n ==> (#[trigger] game.players@[j]).cauldron.wf(),
            forall|j: int|
                0 <= j < n ==> (#[trigger] snap6[j]).drop + snap6[j].rubies <= u64::MAX,
        decreases n - i,
    {
        let fill_price = game.rubies_to_fill_flask;
        let drop_price = game.rubies_to_move_drop;
        spend_rubies_phase(&mut game.players[i], fill_price, drop_price, rng);
        i = i + 1;
    }
    proof {
        assert forall|j: int| 0 <= j < n implies round_counts(
            orig[j],
            #[trigger] game.players@[j],
            t0,
            rl,
            3,
        ) by {
            assert(game.players@[j].bag@ == snap6[j].bag@);
            assert(game.players@[j].cauldron == snap6[j].cauldron);
            assert forall|c: Chip|
                #![trigger crate::player::chip_count(game.players@[j], c)]
                crate::player::chip_count(game.players@[j], c) == crate::player::chip_count(
                snap6[j],
                c,
            ) by {}
            lemma_counts_preserved_step(orig[j], snap6[j], game.players@[j], t0, rl, 3);
        }
    }
    // Cleanup: every cauldron drains back into its bag.
    let ghost snap7 = game.players@;
    let mut i: usize = 0;
    while i < n
        invariant
            i <= n,
            n == game.players@.len() == snap7.len(),
            game.turn == old(game).turn,
            game.rules.rules@ == old(game).rules.rules@,
            game.rubies_to_fill_flask == old(game).rubies_to_fill_flask,
            game.rubies_to_move_drop == old(game).rubies_to_move_drop,
            forall|j: int| i <= j < n ==> (#[trigger] game.players@[j]) == snap7[j],
            forall|j: int|
                0 <= j < i ==> {
                    let p = (#[trigger] game.players@[j]);
                    &&& p.same_meta(snap7[j])
                    &&& p.cauldron.wf()
                    &&& p.cauldron.spec_chips().len() == 0
                    &&& p.cauldron.spec_position() == 0
                    &&& forall|c: Chip|
                        #![trigger crate::player::chip_count(p, c)]
                        crate::player::chip_count(p, c) == crate::player::chip_count(snap7[j], c)
                },
        decreases n - i,
    {
        let p = &mut game.players[i];
        p.empty_cauldron();
        proof {
            lemma_drain_counts(snap7[i as int], *p);
        }
        i = i + 1;
    }
    proof {
        assert forall|j: int| 0 <= j < n implies {
            let o = orig[j];
            let p = (#[trigger] game.players@[j]);
            &&& p.name == o.name
            &&& p.strategy == o.strategy
            &&& p.cauldron.wf()
            &&& p.cauldron.spec_chips().len() == 0
            &&& p.cauldron.spec_position() == 0
            &&& p.score <= o.score + 300 + 2 * l
            &&& p.rubies <= o.rubies + 10 + 4 * l
            &&& p.drop <= o.drop + o.rubies + 20 + 6 * l
        } by {
            assert(game.players@[j].same_meta(snap7[j]));
            assert(snap7[j].score <= snap6[j].score);
            assert(snap6[j].score <= snap5[j].score + 255);
            assert(snap5[j].score <= orig[j].score + 2 + 2 * l);
        }
        assert forall|j: int| 0 <= j < n implies round_counts(
            orig[j],
            #[trigger] game.players@[j],
            t0,
            rl,
            3,
        ) by {
            lemma_counts_preserved_step(orig[j], snap7[j], game.players@[j], t0, rl, 3);
        }
    }
}

/// Runs one full match: nine rounds, the turn counter stepping from 1 to 9.
/// The roster survives with every cauldron drained; the final victory
/// points are read off the players by the caller, and so is any tie-break.
pub fn run(game: &mut Game, rng: &mut rand::rngs::SmallRng)
    requires
        old(game).rubies_to_move_drop >= 1,
        old(game).rules.rules@.len() <= 1000,
        fresh_cauldrons(old(game).players@),
        forall|i: int|
            0 <= i < old(game).players@.len() ==> (#[trigger] old(game).players@[i]).score
                <= 0x10_0000 && old(game).players@[i].rubies <= 0x10_0000 && old(
            game,
        ).players@[i].drop <= 0x10_0000,
    ensures
        final(game).players@.len() == old(game).players@.len(),
        final(game).turn == 9,
        forall|i: int|
            0 <= i < old(game).players@.len() ==> {
                let p = (#[trigger] final(game).players@[i]);
                &&& p.name == old(game).players@[i].name
                &&& p.strategy == old(game).players@[i].strategy
                &&& p.cauldron.spec_chips().len() == 0
                &&& p.cauldron.spec_position() == 0
                &&& p.cauldron.wf()
            },
        forall|i: int, c: Chip|
            #![trigger crate::player::chip_count(final(game).players@[i], c)]
            0 <= i < old(game).players@.len() && c.spec_color() == Color::White
                ==> crate::player::chip_count(final(game).players@[i], c)
                <= crate::player::chip_count(old(game).players@[i], c) + (if c == Chip::White1 {
                1int
            } else {
                0int
            }),
        !old(game).rules.rules@.contains(crate::rules::Rule::Yellow) ==> forall|i: int, c: Chip|
            #![trigger crate::player::chip_count(final(game).players@[i], c)]
            0 <= i < old(game).players@.len() && c.spec_color() == Color::White
                ==> crate::player::chip_count(final(game).players@[i], c)
                == crate::player::chip_count(old(game).players@[i], c) + (if c == Chip::White1 {
                1int
            } else {
                0int
            }),
        forall|i: int, c: Chip|
            #![trigger crate::player::chip_count(final(game).players@[i], c)]
            0 <= i < old(game).players@.len() && c.spec_color() != Color::White
                ==> crate::player::chip_count(old(game).players@[i], c)
                <= crate::player::chip_count(final(game).players@[i], c)
                <= crate::player::chip_count(old(game).players@[i], c) + 27,
{
    let ghost orig = old(game).players@;
    let mut turn: u8 = 1;
    while turn <= 9
        invariant
            1 <= turn <= 10,
            turn >= 2 ==> game.turn == turn - 1,
            game.players@.len() == orig.len(),
            game.rules.rules@ == old(game).rules.rules@,
            game.rules.rules@.len() <= 1000,
            game.rubies_to_move_drop == old(game).rubies_to_move_drop,
            game.rubies_to_move_drop >= 1,
            forall|i: int|
                0 <= i < orig.len() ==> {
                    let p = (#[trigger] game.players@[i]);
                    &&& p.name == orig[i].name
                    &&& p.strategy == orig[i].strategy
                    &&& p.cauldron.wf()
                    &&& p.cauldron.spec_chips().len() == 0
                    &&& p.cauldron.spec_position() == 0
                    &&& p.score <= 0x10_0000 + turn * 6000
                    &&& p.rubies <= 0x10_0000 + turn * 5000
                    &&& p.drop <= 0x10_0000 + turn * 0x20_0000
                },
            forall|i: int, c: Chip|
                #![trigger crate::player::chip_count(game.players@[i], c)]
                0 <= i < orig.len() && c.spec_color() == Color::White
                    ==> crate::player::chip_count(game.players@[i], c)
                    <= crate::player::chip_count(orig[i], c) + (if turn >= 7 && c == Chip::White1 {
                    1int
                } else {
                    0int
                }),
            !old(game).rules.rules@.contains(crate::rules::Rule::Yellow) ==> forall|
                i: int,
                c: Chip,
            |
                #![trigger crate::player::chip_count(game.players@[i], c)]
                0 <= i < orig.len() && c.spec_color() == Color::White
                    ==> crate::player::chip_count(game.players@[i], c)
                    == crate::player::chip_count(orig[i], c) + (if turn >= 7 && c == Chip::White1 {
                    1int
                } else {
                    0int
                }),
            forall|i: int, c: Chip|
                #![trigger crate::player::chip_count(game.players@[i], c)]
                0 <= i < orig.len() && c.spec_color() != Color::White
                    ==> crate::player::chip_count(orig[i], c) <= crate::player::chip_count(
                    game.players@[i],
                    c,
                ) <= crate::player::chip_count(orig[i], c) + 3 * (turn - 1),
        decreases 10 - turn,
    {
        game.turn = turn;
        let ghost pre_round = game.players@;
        round(game, rng);
        proof {
            assert forall|i: int| 0 <= i < orig.len() implies {
                let p = (#[trigger] game.players@[i]);
                &&& p.name == orig[i].name
                &&& p.strategy == orig[i].strategy
                &&& p.cauldron.wf()
                &&& p.cauldron.spec_chips().len() == 0
                &&& p.cauldron.spec_position() == 0
                &&& p.score <= 0x10_0000 + (turn + 1) * 6000
                &&& p.rubies <= 0x10_0000 + (turn + 1) * 5000
                &&& p.drop <= 0x10_0000 + (turn + 1) * 0x20_0000
            } by {
                assert(pre_round[i].name == orig[i].name);
                assert(pre_round[i].strategy == orig[i].strategy);
                assert(pre_round[i].score <= 0x10_0000 + turn * 6000);
                assert(pre_round[i].rubies <= 0x10_0000 + turn * 5000);
                assert(pre_round[i].drop <= 0x10_0000 + turn * 0x20_0000);
            }
            assert forall|i: int, c: Chip|
                #![trigger crate::player::chip_count(game.players@[i], c)]
                0 <= i < orig.len() && c.spec_color() == Color::White
                    implies crate::player::chip_count(game.players@[i], c)
                <= crate::player::chip_count(orig[i], c) + (if turn + 1 >= 7 && c == Chip::White1 {
                1int
            } else {
                0int
            }) by {
                assert(round_counts(pre_round[i], game.players@[i], turn, old(game).rules.rules@, 3));
                assert(crate::player::chip_count(pre_round[i], c) <= crate::player::chip_count(
                    orig[i],
                    c,
                ) + (if turn >= 7 && c == Chip::White1 {
                    1int
                } else {
                    0int
                }));
            }
            if !old(game).rules.rules@.contains(crate::rules::Rule::Yellow) {
                assert forall|i: int, c: Chip|
                    #![trigger crate::player::chip_count(game.players@[i], c)]
                    0 <= i < orig.len() && c.spec_color() == Color::White
                        implies crate::player::chip_count(game.players@[i], c)
                    == crate::player::chip_count(orig[i], c) + (if turn + 1 >= 7 && c
                    == Chip::White1 {
                    1int
                } else {
                    0int
                }) by {
                    assert(round_counts(
                        pre_round[i],
                        game.players@[i],
                        turn,
                        old(game).rules.rules@,
                        3,
                    ));
                    assert(crate::player::chip_count(pre_round[i], c)
                        == crate::player::chip_count(orig[i], c) + (if turn >= 7 && c
                        == Chip::White1 {
                        1int
                    } else {
                        0int
                    }));
                }
            }
            assert forall|i: int, c: Chip|
                #![trigger crate::player::chip_count(game.players@[i], c)]
                0 <= i < orig.len() && c.spec_color() != Color::White
                    implies crate::player::chip_count(orig[i], c) <= crate::player::chip_count(
                game.players@[i],
                c,
            ) <= crate::player::chip_count(orig[i], c) + 3 * (turn + 1 - 1) by {
                assert(round_counts(pre_round[i], game.players@[i], turn, old(game).rules.rules@, 3));
                assert(crate::player::chip_count(orig[i], c) <= crate::player::chip_count(
                    pre_round[i],
                    c,
                ) <= crate::player::chip_count(orig[i], c) + 3 * (turn - 1));
            }
        }
        turn = turn + 1;
    }
}

} // verus!

