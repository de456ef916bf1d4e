use quacks::chip::{Chip, Color};
use quacks::player::Player;
use quacks::rng::seed_rng;
use quacks::rules::{black_chip, green_chip, purple_chip, red_chip_drawn, yellow_chip_drawn, Rule,
    RuleSet};
use quacks::strategy::Strategy;

fn full_rule_set() -> RuleSet {
    RuleSet::new(vec![
        Rule::Black,
        Rule::Orange,
        Rule::Blue,
        Rule::Green,
        Rule::Red,
        Rule::Yellow,
        Rule::Purple,
    ])
}

fn chip_price(c: Chip) -> u32 {
    match c {
        Chip::Orange1 => 3,
        Chip::Black1 => 10,
        Chip::Green1 => 4,
        Chip::Green2 => 8,
        Chip::Green4 => 14,
        Chip::Red1 => 6,
        Chip::Red2 => 10,
        Chip::Red4 => 16,
        Chip::Blue1 => 5,
        Chip::Blue2 => 10,
        Chip::Blue4 => 19,
        Chip::Yellow1 => 8,
        Chip::Yellow2 => 12,
        Chip::Yellow4 => 18,
        _ => 0,
    }
}

#[test]
fn scenario_black_two_players() {
    // Player A holds 2 black chips, player B holds 1: the black hook grants
    // A a drop advance and a ruby, B neither.
    let mut a = Player::new("a", Strategy::Simple);
    a.cauldron.add_chip(Chip::Black1);
    a.cauldron.add_chip(Chip::Black1);
    let mut b = Player::new("b", Strategy::Simple);
    b.cauldron.add_chip(Chip::Black1);
    let mut players = vec![a, b];
    black_chip(&mut players, 0);
    black_chip(&mut players, 1);
    assert_eq!(players[0].drop, 1);
    assert_eq!(players[0].rubies, 1);
    assert_eq!(players[1].drop, 0);
    assert_eq!(players[1].rubies, 0);
}

#[test]
fn black_tie_grants_drop_but_no_ruby() {
    let mut a = Player::new("a", Strategy::Simple);
    a.cauldron.add_chip(Chip::Black1);
    let mut b = Player::new("b", Strategy::Simple);
    b.cauldron.add_chip(Chip::Black1);
    let mut players = vec![a, b];
    black_chip(&mut players, 0);
    black_chip(&mut players, 1);
    assert_eq!(players[0].drop, 1);
    assert_eq!(players[0].rubies, 0);
    assert_eq!(players[1].drop, 1);
    assert_eq!(players[1].rubies, 0);
}

#[test]
fn black_with_three_players_compares_neighbors() {
    let mut a = Player::new("a", Strategy::Simple);
    a.cauldron.add_chip(Chip::Black1);
    a.cauldron.add_chip(Chip::Black1);
    let b = Player::new("b", Strategy::Simple);
    let mut c = Player::new("c", Strategy::Simple);
    c.cauldron.add_chip(Chip::Black1);
    let mut players = vec![a, b, c];
    // A beats both neighbors (C on the left, B on the right).
    black_chip(&mut players, 0);
    assert_eq!(players[0].drop, 1);
    assert_eq!(players[0].rubies, 1);
    // B beats neither neighbor.
    black_chip(&mut players, 1);
    assert_eq!(players[1].drop, 0);
    assert_eq!(players[1].rubies, 0);
    // C beats B but not A: the drop advance without the ruby.
    black_chip(&mut players, 2);
    assert_eq!(players[2].drop, 1);
    assert_eq!(players[2].rubies, 0);
}

#[test]
fn scenario_purple_three_chips() {
    // Three purple chips yield +2 victory points and one drop advance.
    let mut p = Player::new("p", Strategy::Simple);
    p.cauldron.add_chip(Chip::Purple1);
    p.cauldron.add_chip(Chip::Purple1);
    p.cauldron.add_chip(Chip::Purple1);
    purple_chip(&mut p);
    assert_eq!(p.score, 2);
    assert_eq!(p.drop, 1);
    assert_eq!(p.rubies, 0);
}

#[test]
fn purple_escalation_below_three() {
    let mut p = Player::new("p", Strategy::Simple);
    p.cauldron.add_chip(Chip::Purple1);
    purple_chip(&mut p);
    assert_eq!((p.score, p.rubies, p.drop), (1, 0, 0));
    let mut p = Player::new("p", Strategy::Simple);
    p.cauldron.add_chip(Chip::Purple1);
    p.cauldron.add_chip(Chip::Purple1);
    purple_chip(&mut p);
    assert_eq!((p.score, p.rubies, p.drop), (1, 1, 0));
    let mut p = Player::new("p", Strategy::Simple);
    purple_chip(&mut p);
    assert_eq!((p.score, p.rubies, p.drop), (0, 0, 0));
}

#[test]
fn green_rewards_last_two_chips() {
    let mut p = Player::new("p", Strategy::Simple);
    p.cauldron.add_chip(Chip::Green1);
    p.cauldron.add_chip(Chip::Green2);
    green_chip(&mut p);
    assert_eq!(p.rubies, 2);
    let mut p = Player::new("p", Strategy::Simple);
    p.cauldron.add_chip(Chip::Green1);
    p.cauldron.add_chip(Chip::White1);
    green_chip(&mut p);
    assert_eq!(p.rubies, 1);
    let mut p = Player::new("p", Strategy::Simple);
    p.cauldron.add_chip(Chip::Green1);
    p.cauldron.add_chip(Chip::White1);
    p.cauldron.add_chip(Chip::White2);
    green_chip(&mut p);
    assert_eq!(p.rubies, 0);
}

#[test]
fn red_bonus_depends_on_orange_count() {
    let mut p = Player::new("p", Strategy::Simple);
    p.cauldron.add_chip(Chip::Orange1);
    p.cauldron.add_chip(Chip::Red1);
    red_chip_drawn(&mut p);
    // Orange1 (1) + Red1 (1) + bonus 1 = position 3.
    assert_eq!(p.cauldron.score().coins, 3);
    let mut p = Player::new("p", Strategy::Simple);
    p.cauldron.add_chip(Chip::Orange1);
    p.cauldron.add_chip(Chip::Orange1);
    p.cauldron.add_chip(Chip::Orange1);
    p.cauldron.add_chip(Chip::Red1);
    red_chip_drawn(&mut p);
    // 3 + 1 + bonus 2 = position 6.
    assert_eq!(p.cauldron.score().coins, 6);
    let mut p = Player::new("p", Strategy::Simple);
    p.cauldron.add_chip(Chip::Red1);
    red_chip_drawn(&mut p);
    assert_eq!(p.cauldron.score().coins, 1);
}

#[test]
fn yellow_dissolves_a_white_chip_underneath() {
    let mut p = Player::new("p", Strategy::Simple);
    p.cauldron.add_chip(Chip::White2);
    p.cauldron.add_chip(Chip::Yellow2);
    yellow_chip_drawn(&mut p);
    // The white chip leaves the sequence but its value stays as position.
    assert_eq!(p.cauldron.chips(), &vec![Chip::Yellow2]);
    assert_eq!(p.cauldron.score().coins, 4);
    assert_eq!(p.cauldron.total_value_of(Color::White), 0);
}

#[test]
fn yellow_leaves_other_chips_in_place() {
    let mut p = Player::new("p", Strategy::Simple);
    p.cauldron.add_chip(Chip::Green1);
    p.cauldron.add_chip(Chip::Yellow1);
    yellow_chip_drawn(&mut p);
    assert_eq!(p.cauldron.chips(), &vec![Chip::Green1, Chip::Yellow1]);
    assert_eq!(p.cauldron.score().coins, 2);
    let mut p = Player::new("p", Strategy::Simple);
    p.cauldron.add_chip(Chip::Yellow1);
    yellow_chip_drawn(&mut p);
    assert_eq!(p.cauldron.chips(), &vec![Chip::Yellow1]);
}

#[test]
fn scenario_blue_chip_draws_two() {
    // A Blue2 drawn: exactly two chips leave the bag, the strategy keeps
    // one non-white in the cauldron, and the rest return untouched.
    let mut p = Player::new("p", Strategy::PreferBlue);
    p.bag = vec![Chip::Green1, Chip::Red1];
    p.cauldron.add_chip(Chip::Blue2);
    let rules = full_rule_set();
    let mut rng = seed_rng(11);
    rules.blue_chip_drawn(&mut p, 2, 1, &mut rng);
    assert_eq!(p.bag.len(), 1);
    assert_eq!(p.cauldron.chips().len(), 2);
    let kept = p.cauldron.chips()[1];
    let returned = p.bag[0];
    let mut pool = vec![kept, returned];
    pool.sort();
    assert_eq!(pool, vec![Chip::Green1, Chip::Red1]);
}

#[test]
fn blue_chip_declines_all_white_candidates() {
    let mut p = Player::new("p", Strategy::PreferBlue);
    p.bag = vec![Chip::White1, Chip::White2];
    p.cauldron.add_chip(Chip::Blue2);
    let rules = full_rule_set();
    let mut rng = seed_rng(11);
    rules.blue_chip_drawn(&mut p, 2, 1, &mut rng);
    // Nothing kept: both candidates return to the bag.
    assert_eq!(p.bag.len(), 2);
    assert_eq!(p.cauldron.chips(), &vec![Chip::Blue2]);
}

#[test]
fn purchase_options_respect_budget_and_dedup() {
    let rules = full_rule_set();
    let options = rules.purchase_options(1, 12);
    assert!(!options.is_empty());
    for combo in options.iter() {
        let total: u32 = combo.iter().map(|c| chip_price(*c)).sum();
        assert!(total < 12);
        assert!(combo.len() == 1 || combo.len() == 2);
        if combo.len() == 2 {
            assert_ne!(combo[0].color(), combo[1].color());
        }
    }
    for i in 0..options.len() {
        for j in 0..options.len() {
            if i != j {
                assert_ne!(options[i], options[j]);
            }
        }
    }
    // Descending by total price.
    let prices: Vec<u32> =
        options.iter().map(|combo| combo.iter().map(|c| chip_price(*c)).sum()).collect();
    for w in prices.windows(2) {
        assert!(w[0] >= w[1]);
    }
    // The affordable pair and the pairless affordable single both appear.
    assert!(options.contains(&vec![Chip::Orange1, Chip::Green1]));
    assert!(options.contains(&vec![Chip::Black1]));
}

#[test]
fn purchase_options_unlock_by_turn() {
    let rules = full_rule_set();
    let has_color = |options: &Vec<Vec<Chip>>, color: Color| {
        options.iter().any(|combo| combo.iter().any(|c| c.color() == color))
    };
    let turn1 = rules.purchase_options(1, 60);
    assert!(!has_color(&turn1, Color::Yellow));
    assert!(!has_color(&turn1, Color::Purple));
    let turn2 = rules.purchase_options(2, 60);
    assert!(has_color(&turn2, Color::Yellow));
    assert!(!has_color(&turn2, Color::Purple));
    let turn3 = rules.purchase_options(3, 60);
    assert!(has_color(&turn3, Color::Yellow));
    assert!(has_color(&turn3, Color::Purple));
}

#[test]
fn purchase_options_empty_budget() {
    let rules = full_rule_set();
    let options = rules.purchase_options(1, 0);
    assert!(options.is_empty());
    let options = rules.purchase_options(1, 3);
    assert!(options.is_empty());
    let options = rules.purchase_options(1, 4);
    assert_eq!(options, vec![vec![Chip::Orange1]]);
}
