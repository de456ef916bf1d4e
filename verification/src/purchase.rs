//! The purchase-option combination algorithm: the rules contribute priced
//! chips for the current turn; pairs of differently colored chips and
//! leftover singles strictly below the coin budget are combined,
//! de-duplicated, and presented in descending price order.

use vstd::prelude::*;

use crate::chip::{Chip, Color};
use crate::rules::{Rule, RuleSet};

verus! {

/// A fixed order on chips (their declaration order), used to put the two
/// chips of a pair into canonical form for de-duplication.
pub open spec fn spec_chip_rank(c: Chip) -> int {
    match c {
        Chip::White1 => 0,
        Chip::White2 => 1,
        Chip::White3 => 2,
        Chip::Orange1 => 3,
        Chip::Green1 => 4,
        Chip::Green2 => 5,
        Chip::Green4 => 6,
        Chip::Blue1 => 7,
        Chip::Blue2 => 8,
        Chip::Blue4 => 9,
        Chip::Red1 => 10,
        Chip::Red2 => 11,
        Chip::Red4 => 12,
        Chip::Yellow1 => 13,
        Chip::Yellow2 => 14,
        Chip::Yellow4 => 15,
        Chip::Purple1 => 16,
        Chip::Black1 => 17,
    }
}

/// The rank as an executable value.
pub fn chip_rank(c: Chip) -> (r: u8)
    ensures
        r == spec_chip_rank(c),
{
    match c {
        Chip::White1 => 0,
        Chip::White2 => 1,
        Chip::White3 => 2,
        Chip::Orange1 => 3,
        Chip::Green1 => 4,
        Chip::Green2 => 5,
        Chip::Green4 => 6,
        Chip::Blue1 => 7,
        Chip::Blue2 => 8,
        Chip::Blue4 => 9,
        Chip::Red1 => 10,
        Chip::Red2 => 11,
        Chip::Red4 => 12,
        Chip::Yellow1 => 13,
        Chip::Yellow2 => 14,
        Chip::Yellow4 => 15,
        Chip::Purple1 => 16,
        Chip::Black1 => 17,
    }
}

/// Every purchasable chip has one fixed price across the whole rule
/// catalog; white chips are never for sale.
pub open spec fn chip_price(c: Chip) -> int {
    match c {
        Chip::White1 => 0,
        Chip::White2 => 0,
        Chip::White3 => 0,
        Chip::Orange1 => 3,
        Chip::Green1 => 4,
        Chip::Green2 => 8,
        Chip::Green4 => 14,
        Chip::Blue1 => 5,
        Chip::Blue2 => 10,
        Chip::Blue4 => 19,
        Chip::Red1 => 6,
        Chip::Red2 => 10,
        Chip::Red4 => 16,
        Chip::Yellow1 => 8,
        Chip::Yellow2 => 12,
        Chip::Yellow4 => 18,
        Chip::Purple1 => 9,
        Chip::Black1 => 10,
    }
}

/// The priced chips one rule contributes for the given turn: yellow chips
/// unlock from turn 2, the purple chip from turn 3.
pub open spec fn rule_options(r: Rule, turn: u8) -> Seq<(Chip, u8)> {
    match r {
        Rule::Orange => seq![(Chip::Orange1, 3u8)],
        Rule::Black => seq![(Chip::Black1, 10u8)],
        Rule::Green => seq![(Chip::Green1, 4u8), (Chip::Green2, 8u8), (Chip::Green4, 14u8)],
        Rule::Red => seq![(Chip::Red1, 6u8), (Chip::Red2, 10u8), (Chip::Red4, 16u8)],
        Rule::Blue => seq![(Chip::Blue1, 5u8), (Chip::Blue2, 10u8), (Chip::Blue4, 19u8)],
        Rule::Yellow => if turn < 2 {
            Seq::empty()
        } else {
            seq![(Chip::Yellow1, 8u8), (Chip::Yellow2, 12u8), (Chip::Yellow4, 18u8)]
        },
        Rule::Purple => if turn < 3 {
            Seq::empty()
        } else {
            seq![(Chip::Purple1, 9u8)]
        },
    }
}

/// The contributions of a whole registry, in registration order.
pub open spec fn ruleset_options(rules: Seq<Rule>, turn: u8) -> Seq<(Chip, u8)>
    decreases rules.len(),
{
    if rules.len() == 0 {
        Seq::empty()
    } else {
        ruleset_options(rules.drop_last(), turn) + rule_options(rules.last(), turn)
    }
}

/// Every option of one rule carries its chip's catalog price, and no rule
/// sells white chips.
pub proof fn lemma_rule_options_valid(r: Rule, turn: u8)
    ensures
        forall|i: int|
            0 <= i < rule_options(r, turn).len() ==> (#[trigger] rule_options(r, turn)[i]).1
                == chip_price(rule_options(r, turn)[i].0) && rule_options(r, turn)[i].0.spec_color()
                != Color::White,
{
}

/// Every option of a whole registry carries its chip's catalog price, and
/// none of them is white.
pub proof fn lemma_ruleset_options_valid(rules: Seq<Rule>, turn: u8)
    ensures
        forall|i: int|
            0 <= i < ruleset_options(rules, turn).len() ==> (#[trigger] ruleset_options(
                rules,
                turn,
            )[i]).1 == chip_price(ruleset_options(rules, turn)[i].0) && ruleset_options(
                rules,
                turn,
            )[i].0.spec_color() != Color::White,
    decreases rules.len(),
{
    if rules.len() > 0 {
        lemma_ruleset_options_valid(rules.drop_last(), turn);
        lemma_rule_options_valid(rules.last(), turn);
    }
}

/// The priced chips one rule contributes, as a vector.
pub fn purchase_options_of(r: Rule, turn: u8) -> (v: Vec<(Chip, u8)>)
    ensures
        v@ == rule_options(r, turn),
{
    let mut v: Vec<(Chip, u8)> = Vec::new();
    match r {
        Rule::Orange => {
            v.push((Chip::Orange1, 3));
        },
        Rule::Black => {
            v.push((Chip::Black1, 10));
        },
        Rule::Green => {
            v.push((Chip::Green1, 4));
            v.push((Chip::Green2, 8));
            v.push((Chip::Green4, 14));
        },
        Rule::Red => {
            v.push((Chip::Red1, 6));
            v.push((Chip::Red2, 10));
            v.push((Chip::Red4, 16));
        },
        Rule::Blue => {
            v.push((Chip::Blue1, 5));
            v.push((Chip::Blue2, 10));
            v.push((Chip::Blue4, 19));
        },
        Rule::Yellow => {
            if turn >= 2 {
                v.push((Chip::Yellow1, 8));
                v.push((Chip::Yellow2, 12));
                v.push((Chip::Yellow4, 18));
            }
        },
        Rule::Purple => {
            if turn >= 3 {
                v.push((Chip::Purple1, 9));
            }
        },
    }
    proof {
        assert(v@ =~= rule_options(r, turn));
    }
    v
}

/// Whether some option offers this chip.
pub open spec fn offered(opts: Seq<(Chip, u8)>, c: Chip) -> bool {
    exists|i: int| 0 <= i < opts.len() && (#[trigger] opts[i]).0 == c
}

/// The total catalog price of a combination.
pub open spec fn choice_price(s: Seq<Chip>) -> int
    decreases s.len(),
{
    if s.len() == 0 {
        0
    } else {
        choice_price(s.drop_last()) + chip_price(s.last())
    }
}

/// The two chips of a pair in rank order.
pub open spec fn canonical_pair(a: Chip, b: Chip) -> Seq<Chip> {
    if spec_chip_rank(a) <= spec_chip_rank(b) {
        seq![a, b]
    } else {
        seq![b, a]
    }
}

/// A well-formed combination for an offer list and budget: one offered chip
/// strictly below the budget, or a rank-ordered pair of differently colored
/// offered chips whose prices together stay strictly below it.
pub open spec fn valid_choice(opts: Seq<(Chip, u8)>, coins: int, ch: Seq<Chip>) -> bool {
    if ch.len() == 1 {
        offered(opts, ch[0]) && chip_price(ch[0]) < coins
    } else if ch.len() == 2 {
        &&& offered(opts, ch[0])
        &&& offered(opts, ch[1])
        &&& ch[0].spec_color() != ch[1].spec_color()
        &&& spec_chip_rank(ch[0]) <= spec_chip_rank(ch[1])
        &&& chip_price(ch[0]) + chip_price(ch[1]) < coins
    } else {
        false
    }
}

/// Distinct chips have distinct ranks.
pub proof fn lemma_rank_injective(a: Chip, b: Chip)
    ensures
        spec_chip_rank(a) == spec_chip_rank(b) ==> a == b,
{
}

/// A canonical pair holds exactly its two chips, in either order, and costs
/// the sum of their prices.
pub proof fn lemma_canonical_pair(a: Chip, b: Chip)
    ensures
        canonical_pair(a, b).len() == 2,
        choice_price(canonical_pair(a, b)) == chip_price(a) + chip_price(b),
        canonical_pair(a, b) == canonical_pair(b, a),
        (canonical_pair(a, b)[0] == a && canonical_pair(a, b)[1] == b) || (canonical_pair(a, b)[0]
            == b && canonical_pair(a, b)[1] == a),
        spec_chip_rank(canonical_pair(a, b)[0]) <= spec_chip_rank(canonical_pair(a, b)[1]),
{
    lemma_rank_injective(a, b);
    if spec_chip_rank(a) == spec_chip_rank(b) {
        assert(a == b);
    }
    let p = canonical_pair(a, b);
    let q = canonical_pair(b, a);
    assert(p =~= q);
    assert(p.drop_last() =~= seq![p[0]]);
    lemma_single_price(p[0]);
    assert(p.last() == p[1]);
    assert(choice_price(p) == chip_price(p[0]) + chip_price(p[1]));
}

/// The price of a one-chip combination is its chip's price.
pub proof fn lemma_single_price(a: Chip)
    ensures
        choice_price(seq![a]) == chip_price(a),
{
    let s = seq![a];
    assert(s.len() == 1);
    assert(s.last() == a);
    assert(s.drop_last() =~= Seq::<Chip>::empty());
    assert(choice_price(s.drop_last()) == 0);
    assert(choice_price(s) == choice_price(s.drop_last()) + chip_price(s.last()));
}

/// Builds the canonical pair of two chips.
fn make_canonical_pair(a: Chip, b: Chip) -> (v: Vec<Chip>)
    ensures
        v@ == canonical_pair(a, b),
{
    let mut v: Vec<Chip> = Vec::new();
    if chip_rank(a) <= chip_rank(b) {
        v.push(a);
        v.push(b);
    } else {
        v.push(b);
        v.push(a);
    }
    proof {
        assert(v@ =~= canonical_pair(a, b));
    }
    v
}

/// Whether two chip vectors hold the same sequence.
fn chips_eq(a: &Vec<Chip>, b: &Vec<Chip>) -> (r: bool)
    ensures
        r == (a@ == b@),
{
    if a.len() != b.len() {
        return false;
    }
    let mut i: usize = 0;
    while i < a.len()
        invariant
            i <= a@.len(),
            a@.len() == b@.len(),
            forall|q: int| 0 <= q < i ==> a@[q] == b@[q],
        decreases a@.len() - i,
    {
        if a[i] != b[i] {
            return false;
        }
        i = i + 1;
    }
    proof {
        assert(a@ =~= b@);
    }
    true
}

/// Whether any already-collected combination contains the chip.
fn choices_contain_chip(choices: &Vec<(Vec<Chip>, u8)>, chip: Chip) -> (r: bool)
    ensures
        r == exists|k: int, m: int|
            #![trigger choices@[k].0@[m]]
            0 <= k < choices@.len() && 0 <= m < choices@[k].0@.len() && choices@[k].0@[m] == chip,
{
    let mut k: usize = 0;
    while k < choices.len()
        invariant
            k <= choices@.len(),
            forall|q: int, m: int|
                #![trigger choices@[q].0@[m]]
                0 <= q < k && 0 <= m < choices@[q].0@.len() ==> choices@[q].0@[m] != chip,
        decreases choices@.len() - k,
    {
        let bundle = &choices[k].0;
        let mut m: usize = 0;
        while m < bundle.len()
            invariant
                m <= bundle@.len(),
                k < choices@.len(),
                bundle@ == choices@[k as int].0@,
                forall|q: int| 0 <= q < m ==> bundle@[q] != chip,
            decreases bundle@.len() - m,
        {
            if bundle[m] == chip {
                return true;
            }
            m = m + 1;
        }
        k = k + 1;
    }
    false
}

/// Whether the collection already holds this exact combination.
fn contains_choice(choices: &Vec<(Vec<Chip>, u8)>, chips: &Vec<Chip>) -> (r: bool)
    ensures
        r == exists|k: int| 0 <= k < choices@.len() && (#[trigger] choices@[k]).0@ == chips@,
{
    let mut k: usize = 0;
    while k < choices.len()
        invariant
            k <= choices@.len(),
            forall|q: int| 0 <= q < k ==> (#[trigger] choices@[q]).0@ != chips@,
        decreases choices@.len() - k,
    {
        if chips_eq(&choices[k].0, chips) {
            return true;
        }
        k = k + 1;
    }
    false
}

/// The ascending key used to put combinations into a deterministic order:
/// price first, then lexicographic by rank.
pub open spec fn lex_le(a: Seq<Chip>, b: Seq<Chip>) -> bool
    decreases a.len(),
{
    if a.len() == 0 {
        true
    } else if b.len() == 0 {
        false
    } else if spec_chip_rank(a[0]) != spec_chip_rank(b[0]) {
        spec_chip_rank(a[0]) < spec_chip_rank(b[0])
    } else {
        lex_le(a.drop_first(), b.drop_first())
    }
}

/// The ascending entry order: price first, lexicographic among equals.
pub open spec fn entry_le(a: (Seq<Chip>, int), b: (Seq<Chip>, int)) -> bool {
    a.1 < b.1 || (a.1 == b.1 && lex_le(a.0, b.0))
}

/// Compares two chip sequences in rank-lexicographic order.
fn lex_le_exec(a: &Vec<Chip>, b: &Vec<Chip>) -> (r: bool)
    ensures
        r == lex_le(a@, b@),
{
    proof {
        assert(a@.skip(0) =~= a@);
        assert(b@.skip(0) =~= b@);
    }
    let mut i: usize = 0;
    while i < a.len() && i < b.len()
        invariant
            i <= a@.len(),
            i <= b@.len(),
            lex_le(a@, b@) == lex_le(a@.skip(i as int), b@.skip(i as int)),
            forall|q: int| 0 <= q < i ==> a@[q] == b@[q],
        decreases a@.len() - i,
    {
        let ra = chip_rank(a[i]);
        let rb = chip_rank(b[i]);
        proof {
            assert(a@.skip(i as int).drop_first() =~= a@.skip(i + 1));
            assert(b@.skip(i as int).drop_first() =~= b@.skip(i + 1));
            assert(a@.skip(i as int)[0] == a@[i as int]);
            assert(b@.skip(i as int)[0] == b@[i as int]);
        }
        if ra != rb {
            return ra < rb;
        }
        i = i + 1;
    }
    proof {
        if i >= a@.len() {
            assert(a@.skip(i as int).len() == 0);
        } else {
            assert(b@.skip(i as int).len() == 0);
            assert(a@.skip(i as int).len() > 0);
        }
    }
    i >= a.len()
}

/// Compares two priced combinations in the ascending order.
fn entry_le_exec(a_chips: &Vec<Chip>, a_price: u8, b_chips: &Vec<Chip>, b_price: u8) -> (r: bool)
    ensures
        r == entry_le((a_chips@, a_price as int), (b_chips@, b_price as int)),
{
    if a_price != b_price {
        a_price < b_price
    } else {
        lex_le_exec(a_chips, b_chips)
    }
}

/// Appending an entry keeps every combination already collected.
proof fn lemma_push_keeps_choice(
    pre: Seq<(Vec<Chip>, u8)>,
    post: Seq<(Vec<Chip>, u8)>,
    target: Seq<Chip>,
)
    requires
        post.len() == pre.len() + 1,
        forall|k: int| 0 <= k < pre.len() ==> post[k] == pre[k],
        exists|k: int| 0 <= k < pre.len() && (#[trigger] pre[k]).0@ == target,
    ensures
        exists|k: int| 0 <= k < post.len() && (#[trigger] post[k]).0@ == target,
{
    let k0 = choose|k: int| 0 <= k < pre.len() && (#[trigger] pre[k]).0@ == target;
    assert(post[k0].0@ == target);
}

/// Appending an entry keeps every chip already contained in some
/// combination.
proof fn lemma_push_keeps_chip(
    pre: Seq<(Vec<Chip>, u8)>,
    post: Seq<(Vec<Chip>, u8)>,
    chip: Chip,
)
    requires
        post.len() == pre.len() + 1,
        forall|k: int| 0 <= k < pre.len() ==> post[k] == pre[k],
        exists|k: int, m: int|
            #![trigger pre[k].0@[m]]
            0 <= k < pre.len() && 0 <= m < pre[k].0@.len() && pre[k].0@[m] == chip,
    ensures
        exists|k: int, m: int|
            #![trigger post[k].0@[m]]
            0 <= k < post.len() && 0 <= m < post[k].0@.len() && post[k].0@[m] == chip,
{
    let (k0, m0) = choose|k: int, m: int|
        #![trigger pre[k].0@[m]]
        0 <= k < pre.len() && 0 <= m < pre[k].0@.len() && pre[k].0@[m] == chip;
    assert(post[k0].0@[m0] == chip);
}

/// Inserting an entry anywhere keeps every combination already collected.
proof fn lemma_insert_keeps_choice(
    pre: Seq<(Vec<Chip>, u8)>,
    post: Seq<(Vec<Chip>, u8)>,
    pos: int,
    target: Seq<Chip>,
)
    requires
        0 <= pos <= pre.len(),
        post.len() == pre.len() + 1,
        forall|k: int| 0 <= k < pos ==> post[k] == pre[k],
        forall|k: int| pos <= k < pre.len() ==> post[k + 1] == pre[k],
        exists|k: int| 0 <= k < pre.len() && (#[trigger] pre[k]).0@ == target,
    ensures
        exists|k: int| 0 <= k < post.len() && (#[trigger] post[k]).0@ == target,
{
    let k0 = choose|k: int| 0 <= k < pre.len() && (#[trigger] pre[k]).0@ == target;
    if k0 < pos {
        assert(post[k0].0@ == target);
    } else {
        assert(post[k0 + 1].0@ == target);
    }
}

impl RuleSet {
    /// Combines the rules' contributions for the current turn into the list
    /// of purchase choices offered to a player holding `coins` coins:
    /// every rank-ordered pair of differently colored offered chips whose
    /// prices together stay strictly below the budget; a single offered
    /// chip strictly below the budget when no collected combination already
    /// contains it; no combination repeated; most expensive first.
    #[verifier::rlimit(100)]
    pub fn purchase_options(&self, turn: u8, coins: u8) -> (r: Vec<Vec<Chip>>)
        ensures
            ({
                let opts = ruleset_options(self.rules@, turn);
                &&& forall|k: int|
                    0 <= k < r@.len() ==> valid_choice(opts, coins as int, (#[trigger] r@[k])@)
                &&& forall|k1: int, k2: int|
                    0 <= k1 < k2 < r@.len() ==> (#[trigger] r@[k1])@ != (#[trigger] r@[k2])@
                &&& forall|k1: int, k2: int|
                    0 <= k1 <= k2 < r@.len() ==> choice_price((#[trigger] r@[k1])@) >= choice_price(
                        (#[trigger] r@[k2])@,
                    )
                &&& forall|i: int, j: int|
                    0 <= i < opts.len() && 0 <= j < opts.len() && i != j && (#[trigger] opts[i]).0.spec_color()
                        != (#[trigger] opts[j]).0.spec_color() && opts[i].1 + opts[j].1 < coins
                        ==> exists|k: int|
                        0 <= k < r@.len() && (#[trigger] r@[k])@ == canonical_pair(
                            opts[i].0,
                            opts[j].0,
                        )
                &&& forall|i: int|
                    0 <= i < opts.len() && (#[trigger] opts[i]).1 < coins ==> exists|k: int, m: int|
                        #![trigger r@[k]@[m]]
                        0 <= k < r@.len() && 0 <= m < r@[k]@.len() && r@[k]@[m] == opts[i].0
            }),
    {
        let ghost opts_spec = ruleset_options(self.rules@, turn);
        proof {
            lemma_ruleset_options_valid(self.rules@, turn);
        }
        // Collect what every rule offers this turn, in registration order.
        let mut opts: Vec<(Chip, u8)> = Vec::new();
        let mut ri: usize = 0;
        while ri < self.rules.len()
            invariant
                ri <= self.rules@.len(),
                opts@ == ruleset_options(self.rules@.take(ri as int), turn),
            decreases self.rules@.len() - ri,
        {
            proof {
                assert(self.rules@.take(ri + 1).drop_last() =~= self.rules@.take(ri as int));
                assert(self.rules@.take(ri + 1).last() == self.rules@[ri as int]);
            }
            let mut v = purchase_options_of(self.rules[ri], turn);
            opts.append(&mut v);
            ri = ri + 1;
        }
        proof {
            assert(self.rules@.take(self.rules@.len() as int) =~= self.rules@);
            assert(opts@ == opts_spec);
        }
        // Build all affordable pairs, and the affordable singles not yet
        // contained in any collected combination.
        let mut choices: Vec<(Vec<Chip>, u8)> = Vec::new();
        let mut idx: usize = 0;
        while idx < opts.len()
            invariant
                idx <= opts@.len(),
                opts@ == opts_spec,
                forall|i: int|
                    0 <= i < opts_spec.len() ==> (#[trigger] opts_spec[i]).1 == chip_price(
                        opts_spec[i].0,
                    ) && opts_spec[i].0.spec_color() != Color::White,
                forall|k: int|
                    0 <= k < choices@.len() ==> valid_choice(
                        opts_spec,
                        coins as int,
                        (#[trigger] choices@[k]).0@,
                    ) && choices@[k].1 == choice_price(choices@[k].0@),
                forall|i1: int, j1: int|
                    0 <= i1 < idx && i1 < j1 < opts_spec.len() && (#[trigger] opts_spec[i1]).0.spec_color()
                        != (#[trigger] opts_spec[j1]).0.spec_color() && opts_spec[i1].1
                        + opts_spec[j1].1 < coins ==> exists|k: int|
                        0 <= k < choices@.len() && (#[trigger] choices@[k]).0@ == canonical_pair(
                            opts_spec[i1].0,
                            opts_spec[j1].0,
                        ),
                forall|i1: int|
                    0 <= i1 < idx && (#[trigger] opts_spec[i1]).1 < coins ==> exists|k: int, m: int|
                        #![trigger choices@[k].0@[m]]
                        0 <= k < choices@.len() && 0 <= m < choices@[k].0@.len()
                            && choices@[k].0@[m] == opts_spec[i1].0,
            decreases opts@.len() - idx,
        {
            let (chip, price) = opts[idx];
            let mut j: usize = idx + 1;
            while j < opts.len()
                invariant
                    idx < j <= opts@.len(),
                    opts@ == opts_spec,
                    idx < opts_spec.len(),
                    chip == opts_spec[idx as int].0,
                    price == opts_spec[idx as int].1,
                    forall|i: int|
                        0 <= i < opts_spec.len() ==> (#[trigger] opts_spec[i]).1 == chip_price(
                            opts_spec[i].0,
                        ) && opts_spec[i].0.spec_color() != Color::White,
                    forall|k: int|
                        0 <= k < choices@.len() ==> valid_choice(
                            opts_spec,
                            coins as int,
                            (#[trigger] choices@[k]).0@,
                        ) && choices@[k].1 == choice_price(choices@[k].0@),
                    forall|i1: int, j1: int|
                        0 <= i1 < idx && i1 < j1 < opts_spec.len() && (#[trigger] opts_spec[i1]).0.spec_color()
                            != (#[trigger] opts_spec[j1]).0.spec_color() && opts_spec[i1].1
                            + opts_spec[j1].1 < coins ==> exists|k: int|
                            0 <= k < choices@.len() && (#[trigger] choices@[k]).0@
                                == canonical_pair(opts_spec[i1].0, opts_spec[j1].0),
                    forall|j1: int|
                        idx < j1 < j && opts_spec[idx as int].0.spec_color() != (
                        #[trigger] opts_spec[j1]).0.spec_color() && opts_spec[idx as int].1
                            + opts_spec[j1].1 < coins ==> exists|k: int|
                            0 <= k < choices@.len() && (#[trigger] choices@[k]).0@
                                == canonical_pair(opts_spec[idx as int].0, opts_spec[j1].0),
                    forall|i1: int|
                        0 <= i1 < idx && (#[trigger] opts_spec[i1]).1 < coins ==> exists|k: int, m: int|
                            #![trigger choices@[k].0@[m]]
                            0 <= k < choices@.len() && 0 <= m < choices@[k].0@.len()
                                && choices@[k].0@[m] == opts_spec[i1].0,
                decreases opts@.len() - j,
            {
                let (other, oprice) = opts[j];
                if other.color() != chip.color() && (price as u16) + (oprice as u16) < (
                coins as u16) {
                    let pair = make_canonical_pair(chip, other);
                    proof {
                        lemma_canonical_pair(chip, other);
                    }
                    let ghost pre = choices@;
                    choices.push((pair, price + oprice));
                    proof {
                        let k = choices@.len() - 1;
                        assert(choices@[k].0@ == canonical_pair(
                            opts_spec[idx as int].0,
                            opts_spec[j as int].0,
                        ));
                        assert(offered(opts_spec, chip)) by {
                            assert(opts_spec[idx as int].0 == chip);
                        }
                        assert(offered(opts_spec, other)) by {
                            assert(opts_spec[j as int].0 == other);
                        }
                        assert(valid_choice(opts_spec, coins as int, choices@[k].0@));
                        assert(choices@[k].1 == choice_price(choices@[k].0@));
                        assert forall|i1: int, j1: int|
                            0 <= i1 < idx && i1 < j1 < opts_spec.len() && (
                            #[trigger] opts_spec[i1]).0.spec_color() != (
                            #[trigger] opts_spec[j1]).0.spec_color() && opts_spec[i1].1
                                + opts_spec[j1].1 < coins implies exists|k2: int|
                            0 <= k2 < choices@.len() && (#[trigger] choices@[k2]).0@
                                == canonical_pair(opts_spec[i1].0, opts_spec[j1].0) by {
                            lemma_push_keeps_choice(
                                pre,
                                choices@,
                                canonical_pair(opts_spec[i1].0, opts_spec[j1].0),
                            );
                        }
                        assert forall|j1: int|
                            idx < j1 < j + 1 && opts_spec[idx as int].0.spec_color() != (
                            #[trigger] opts_spec[j1]).0.spec_color() && opts_spec[idx as int].1
                                + opts_spec[j1].1 < coins implies exists|k2: int|
                            0 <= k2 < choices@.len() && (#[trigger] choices@[k2]).0@
                                == canonical_pair(opts_spec[idx as int].0, opts_spec[j1].0) by {
                            if j1 < j {
                                lemma_push_keeps_choice(
                                    pre,
                                    choices@,
                                    canonical_pair(opts_spec[idx as int].0, opts_spec[j1].0),
                                );
                            } else {
                                assert(choices@[k].0@ == canonical_pair(
                                    opts_spec[idx as int].0,
                                    opts_spec[j1].0,
                                ));
                            }
                        }
                        assert forall|i1: int|
                            0 <= i1 < idx && (#[trigger] opts_spec[i1]).1 < coins implies exists|
                            k2: int,
                            m2: int,
                        |
                            #![trigger choices@[k2].0@[m2]]
                            0 <= k2 < choices@.len() && 0 <= m2 < choices@[k2].0@.len()
                                && choices@[k2].0@[m2] == opts_spec[i1].0 by {
                            lemma_push_keeps_chip(pre, choices@, opts_spec[i1].0);
                        }
                    }
                }
                j = j + 1;
            }
            let exists_already = choices_contain_chip(&choices, chip);
            if !exists_already && price < coins {
                let mut single: Vec<Chip> = Vec::new();
                single.push(chip);
                proof {
                    lemma_single_price(chip);
                    assert(single@ =~= seq![chip]);
                    assert(offered(opts_spec, chip)) by {
                        assert(opts_spec[idx as int].0 == chip);
                    }
                }
                let ghost pre = choices@;
                choices.push((single, price));
                proof {
                    let k = choices@.len() - 1;
                    assert(choices@[k].0@[0] == chip);
                    assert(valid_choice(opts_spec, coins as int, choices@[k].0@));
                    assert(choices@[k].1 == choice_price(choices@[k].0@));
                    assert forall|i1: int, j1: int|
                        0 <= i1 < idx + 1 && i1 < j1 < opts_spec.len() && (
                        #[trigger] opts_spec[i1]).0.spec_color() != (
                        #[trigger] opts_spec[j1]).0.spec_color() && opts_spec[i1].1
                            + opts_spec[j1].1 < coins implies exists|k2: int|
                        0 <= k2 < choices@.len() && (#[trigger] choices@[k2]).0@ == canonical_pair(
                            opts_spec[i1].0,
                            opts_spec[j1].0,
                        ) by {
                        lemma_push_keeps_choice(
                            pre,
                            choices@,
                            canonical_pair(opts_spec[i1].0, opts_spec[j1].0),
                        );
                    }
                    assert forall|i1: int|
                        0 <= i1 < idx && (#[trigger] opts_spec[i1]).1 < coins implies exists|
                        k2: int,
                        m2: int,
                    |
                        #![trigger choices@[k2].0@[m2]]
                        0 <= k2 < choices@.len() && 0 <= m2 < choices@[k2].0@.len()
                            && choices@[k2].0@[m2] == opts_spec[i1].0 by {
                        lemma_push_keeps_chip(pre, choices@, opts_spec[i1].0);
                    }
                }
            } else {
                proof {
                    if price < coins {
                        assert(exists|k: int, m: int|
                            #![trigger choices@[k].0@[m]]
                            0 <= k < choices@.len() && 0 <= m < choices@[k].0@.len()
                                && choices@[k].0@[m] == chip);
                    }
                }
            }
            idx = idx + 1;
        }
        // De-duplicate into an ascending (price, rank-lexicographic) order.
        let mut sorted: Vec<(Vec<Chip>, u8)> = Vec::new();
        let mut ci: usize = 0;
        while ci < choices.len()
            invariant
                ci <= choices@.len(),
                forall|k: int|
                    0 <= k < choices@.len() ==> valid_choice(
                        opts_spec,
                        coins as int,
                        (#[trigger] choices@[k]).0@,
                    ) && choices@[k].1 == choice_price(choices@[k].0@),
                forall|k: int|
                    0 <= k < sorted@.len() ==> valid_choice(
                        opts_spec,
                        coins as int,
                        (#[trigger] sorted@[k]).0@,
                    ) && sorted@[k].1 == choice_price(sorted@[k].0@),
                forall|k1: int, k2: int|
                    0 <= k1 < k2 < sorted@.len() ==> (#[trigger] sorted@[k1]).0@ != (
                    #[trigger] sorted@[k2]).0@,
                forall|k1: int, k2: int|
                    0 <= k1 <= k2 < sorted@.len() ==> (#[trigger] sorted@[k1]).1 <= (
                    #[trigger] sorted@[k2]).1,
                forall|q: int|
                    0 <= q < ci ==> exists|k: int|
                        0 <= k < sorted@.len() && (#[trigger] sorted@[k]).0@ == (
                        #[trigger] choices@[q]).0@,
            decreases choices@.len() - ci,
        {
            let entry_chips = &choices[ci].0;
            let present = contains_choice(&sorted, entry_chips);
            if !present {
                let mut copy: Vec<Chip> = Vec::new();
                let mut m: usize = 0;
                while m < entry_chips.len()
                    invariant
                        m <= entry_chips@.len(),
                        ci < choices@.len(),
                        entry_chips@ == choices@[ci as int].0@,
                        copy@ == entry_chips@.take(m as int),
                    decreases entry_chips@.len() - m,
                {
                    proof {
                        assert(entry_chips@.take(m + 1) =~= entry_chips@.take(m as int).push(
                            entry_chips@[m as int],
                        ));
                    }
                    copy.push(entry_chips[m]);
                    m = m + 1;
                }
                proof {
                    assert(copy@ =~= choices@[ci as int].0@);
                }
                let price = choices[ci].1;
                let mut pos: usize = 0;
                while pos < sorted.len() && entry_le_exec(&sorted[pos].0, sorted[pos].1, &copy,
                price)
                    invariant
                        pos <= sorted@.len(),
                        forall|q: int| 0 <= q < pos ==> (#[trigger] sorted@[q]).1 <= price,
                    decreases sorted@.len() - pos,
                {
                    pos = pos + 1;
                }
                proof {
                    if pos < sorted@.len() {
                        assert(sorted@[pos as int].1 >= price);
                    }
                }
                let ghost pre = sorted@;
                let ghost e = (copy, price);
                sorted.insert(pos, (copy, price));
                proof {
                    assert(sorted@ == pre.insert(pos as int, e));
                    pre.insert_ensures(pos as int, e);
                    assert(sorted@[pos as int] == e);
                    assert(e.0@ == choices@[ci as int].0@);
                    assert(forall|q: int|
                        pos <= q < pre.len() ==> (#[trigger] pre[q]).1 >= price) by {
                        if pos < pre.len() {
                            assert(pre[pos as int].1 >= price);
                        }
                    }
                    assert forall|k1: int, k2: int| 0 <= k1 < k2 < sorted@.len() implies (
                    #[trigger] sorted@[k1]).0@ != (#[trigger] sorted@[k2]).0@ by {
                        if k1 < pos && k2 == pos {
                            assert(sorted@[k1] == pre[k1]);
                        } else if k1 == pos && k2 > pos {
                            assert(sorted@[k2] == pre[k2 - 1]);
                        } else if k1 < pos && k2 > pos {
                            assert(sorted@[k1] == pre[k1]);
                            assert(sorted@[k2] == pre[k2 - 1]);
                        } else if k1 < pos && k2 < pos {
                            assert(sorted@[k1] == pre[k1]);
                            assert(sorted@[k2] == pre[k2]);
                        } else if k1 > pos && k2 > pos {
                            assert(sorted@[k1] == pre[k1 - 1]);
                            assert(sorted@[k2] == pre[k2 - 1]);
                        }
                    }
                    assert forall|k1: int, k2: int| 0 <= k1 <= k2 < sorted@.len() implies (
                    #[trigger] sorted@[k1]).1 <= (#[trigger] sorted@[k2]).1 by {
                        if k1 < pos {
                            assert(sorted@[k1] == pre[k1]);
                        } else if k1 > pos {
                            assert(sorted@[k1] == pre[k1 - 1]);
                        }
                        if k2 < pos {
                            assert(sorted@[k2] == pre[k2]);
                        } else if k2 > pos {
                            assert(sorted@[k2] == pre[k2 - 1]);
                        }
                    }
                    assert forall|q: int| 0 <= q < ci + 1 implies exists|k: int|
                        0 <= k < sorted@.len() && (#[trigger] sorted@[k]).0@ == (
                        #[trigger] choices@[q]).0@ by {
                        if q < ci {
                            lemma_insert_keeps_choice(pre, sorted@, pos as int, choices@[q].0@);
                        } else {
                            assert(sorted@[pos as int].0@ == choices@[q].0@);
                        }
                    }
                }
            }
            ci = ci + 1;
        }
        // Hand the combinations out most expensive first.
        let mut result: Vec<Vec<Chip>> = Vec::new();
        let ghost sorted_full = sorted@;
        proof {
            assert(forall|k: int|
                0 <= k < sorted_full.len() ==> valid_choice(
                    opts_spec,
                    coins as int,
                    (#[trigger] sorted_full[k]).0@,
                ) && sorted_full[k].1 == choice_price(sorted_full[k].0@));
            assert(forall|k1: int, k2: int|
                0 <= k1 < k2 < sorted_full.len() ==> (#[trigger] sorted_full[k1]).0@ != (
                #[trigger] sorted_full[k2]).0@);
            assert(forall|k1: int, k2: int|
                0 <= k1 <= k2 < sorted_full.len() ==> (#[trigger] sorted_full[k1]).1 <= (
                #[trigger] sorted_full[k2]).1);
            assert forall|q: int| 0 <= q < choices@.len() implies exists|k: int|
                0 <= k < sorted_full.len() && (#[trigger] sorted_full[k]).0@ == (
                #[trigger] choices@[q]).0@ by {
                let k0 = choose|k: int|
                    0 <= k < sorted@.len() && (#[trigger] sorted@[k]).0@ == choices@[q].0@;
                assert(sorted_full[k0].0@ == choices@[q].0@);
            }
        }
        while sorted.len() > 0
            invariant
                sorted@.len() + result@.len() == sorted_full.len(),
                sorted@ == sorted_full.take(sorted@.len() as int),
                forall|k: int|
                    0 <= k < result@.len() ==> (#[trigger] result@[k])@ == sorted_full[sorted_full.len()
                        - 1 - k].0@,
            decreases sorted@.len(),
        {
            proof {
                assert(sorted@ == sorted_full.take(sorted@.len() as int));
                assert(sorted@.drop_last() =~= sorted_full.take(sorted@.len() - 1));
            }
            let e = sorted.pop().unwrap();
            result.push(e.0);
        }
        proof {
            let n = sorted_full.len() as int;
            assert(result@.len() == n);
            assert(forall|k: int|
                0 <= k < n ==> (#[trigger] result@[k])@ == sorted_full[n - 1 - k].0@);
            assert forall|k: int| 0 <= k < result@.len() implies valid_choice(
                opts_spec,
                coins as int,
                (#[trigger] result@[k])@,
            ) by {
                assert(result@[k]@ == sorted_full[n - 1 - k].0@);
            }
            assert forall|k1: int, k2: int| 0 <= k1 < k2 < result@.len() implies (
            #[trigger] result@[k1])@ != (#[trigger] result@[k2])@ by {
                assert(result@[k1]@ == sorted_full[n - 1 - k1].0@);
                assert(result@[k2]@ == sorted_full[n - 1 - k2].0@);
                assert(sorted_full[n - 1 - k2].0@ != sorted_full[n - 1 - k1].0@);
            }
            assert forall|k1: int, k2: int| 0 <= k1 <= k2 < result@.len() implies choice_price(
                (#[trigger] result@[k1])@,
            ) >= choice_price((#[trigger] result@[k2])@) by {
                assert(result@[k1]@ == sorted_full[n - 1 - k1].0@);
                assert(result@[k2]@ == sorted_full[n - 1 - k2].0@);
                assert(sorted_full[n - 1 - k2].1 <= sorted_full[n - 1 - k1].1);
            }
            assert forall|i: int, j: int|
                0 <= i < opts_spec.len() && 0 <= j < opts_spec.len() && i != j && (
                #[trigger] opts_spec[i]).0.spec_color() != (#[trigger] opts_spec[j]).0.spec_color()
                    && opts_spec[i].1 + opts_spec[j].1 < coins implies exists|k: int|
                0 <= k < result@.len() && (#[trigger] result@[k])@ == canonical_pair(
                    opts_spec[i].0,
                    opts_spec[j].0,
                ) by {
                lemma_canonical_pair(opts_spec[i].0, opts_spec[j].0);
                let lo = if i < j {
                    i
                } else {
                    j
                };
                let hi = if i < j {
                    j
                } else {
                    i
                };
                let target = canonical_pair(opts_spec[lo].0, opts_spec[hi].0);
                assert(target == canonical_pair(opts_spec[i].0, opts_spec[j].0));
                assert(exists|q: int|
                    0 <= q < choices@.len() && (#[trigger] choices@[q]).0@ == target);
                let q = choose|q: int|
                    0 <= q < choices@.len() && (#[trigger] choices@[q]).0@ == target;
                let k0 = choose|k: int|
                    0 <= k < sorted_full.len() && (#[trigger] sorted_full[k]).0@ == choices@[q].0@;
                assert(result@[n - 1 - k0]@ == target);
            }
            assert forall|i: int|
                0 <= i < opts_spec.len() && (#[trigger] opts_spec[i]).1 < coins implies exists|
                k: int,
                m: int,
            |
                #![trigger result@[k]@[m]]
                0 <= k < result@.len() && 0 <= m < result@[k]@.len() && result@[k]@[m]
                    == opts_spec[i].0 by {
                let (k0, m0) = choose|k: int, m: int|
                    #![trigger choices@[k].0@[m]]
                    0 <= k < choices@.len() && 0 <= m < choices@[k].0@.len() && choices@[k].0@[m]
                        == opts_spec[i].0;
                let k1 = choose|k: int|
                    0 <= k < sorted_full.len() && (#[trigger] sorted_full[k]).0@
                        == choices@[k0].0@;
                assert(result@[n - 1 - k1]@ == sorted_full[k1].0@);
                assert(result@[n - 1 - k1]@[m0] == opts_spec[i].0);
            }
        }
        result
    }
}

} // verus!
