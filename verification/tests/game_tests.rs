use quacks::bonus_die::{die_outcome, roll_bonus_die, BonusDieResult};
use quacks::chip::{Chip, Color};
use quacks::game::{calculate_rat_tails, round, run, scoring_phase, spend_rubies_phase, Game};
use quacks::player::Player;
use quacks::rng::{rng_index, seed_rng};
use quacks::rules::{Rule, RuleSet};
use quacks::strategy::Strategy;

fn full_rule_set() -> RuleSet {
    RuleSet::new(vec![
        Rule::Black,
        Rule::Orange,
        Rule::Blue,
        Rule::Green,
        Rule::Red,
        Rule::Yellow,
        Rule::Purple,
    ])
}

fn standard_match() -> Game {
    let players = vec![
        Player::new("Player 1", Strategy::Simple),
        Player::new("Player 2", Strategy::PreferColor(Color::Black)),
        Player::new("Player 3", Strategy::PreferBlue),
        Player::new("Player 4", Strategy::PreferColor(Color::Yellow)),
    ];
    Game::new(players, full_rule_set())
}

fn play(seed: u64) -> Vec<u64> {
    let mut rng = seed_rng(seed);
    let mut game = standard_match();
    run(&mut game, &mut rng);
    game.players().iter().map(|p| p.victory_points()).collect()
}

#[test]
fn fresh_player_state() {
    let p = Player::new("witch", Strategy::Simple);
    assert_eq!(p.victory_points(), 0);
    assert_eq!(p.rubies(), 0);
    assert_eq!(p.drop_position(), 0);
    assert!(p.flask());
    assert_eq!(p.bag().len(), 9);
    assert_eq!(
        p.bag(),
        &vec![
            Chip::White1,
            Chip::White1,
            Chip::White1,
            Chip::White1,
            Chip::White2,
            Chip::White2,
            Chip::White3,
            Chip::Orange1,
            Chip::Green1,
        ],
    );
    assert_eq!(p.cauldron().chips().len(), 0);
}

#[test]
fn drawing_empties_the_bag_without_losing_chips() {
    let mut rng = seed_rng(3);
    let mut p = Player::new("witch", Strategy::Simple);
    let mut drawn: Vec<Chip> = Vec::new();
    for _ in 0..9 {
        drawn.push(p.draw(&mut rng));
    }
    assert_eq!(p.bag().len(), 0);
    drawn.sort();
    let mut expected = vec![
        Chip::White1,
        Chip::White1,
        Chip::White1,
        Chip::White1,
        Chip::White2,
        Chip::White2,
        Chip::White3,
        Chip::Orange1,
        Chip::Green1,
    ];
    expected.sort();
    assert_eq!(drawn, expected);
}

#[test]
fn draw_index_is_roughly_uniform() {
    // The draw picks its index uniformly in [0, len): over many samples
    // each of 9 slots should come up near 1/9 of the time.
    let mut rng = seed_rng(99);
    let mut counts = [0usize; 9];
    let samples = 9000;
    for _ in 0..samples {
        let i = rng_index(&mut rng, 9);
        counts[i] += 1;
    }
    for &c in counts.iter() {
        assert!(c > 700 && c < 1300, "draw index distribution is skewed: {counts:?}");
    }
}

#[test]
fn bonus_die_face_mapping() {
    assert_eq!(die_outcome(1), BonusDieResult::OrangeChip);
    assert_eq!(die_outcome(2), BonusDieResult::Ruby);
    assert_eq!(die_outcome(3), BonusDieResult::VictoryPoint(1));
    assert_eq!(die_outcome(4), BonusDieResult::VictoryPoint(1));
    assert_eq!(die_outcome(5), BonusDieResult::VictoryPoint(2));
    assert_eq!(die_outcome(6), BonusDieResult::Drop);
}

#[test]
fn bonus_die_rolls_every_reward_eventually() {
    let mut rng = seed_rng(5);
    let mut seen_orange = false;
    let mut seen_ruby = false;
    let mut seen_point = false;
    let mut seen_drop = false;
    for _ in 0..200 {
        match roll_bonus_die(&mut rng) {
            BonusDieResult::OrangeChip => seen_orange = true,
            BonusDieResult::Ruby => seen_ruby = true,
            BonusDieResult::VictoryPoint(p) => {
                assert!(p == 1 || p == 2);
                seen_point = true;
            },
            BonusDieResult::Drop => seen_drop = true,
        }
    }
    assert!(seen_orange && seen_ruby && seen_point && seen_drop);
}

#[test]
fn rat_tails_count_markers_behind_the_leader() {
    let mut a = Player::new("a", Strategy::Simple);
    a.score = 0;
    let mut b = Player::new("b", Strategy::Simple);
    b.score = 10;
    let players = vec![a, b];
    // Markers at 2, 5 and 8 lie in (0, 10]; the leader gets none.
    assert_eq!(calculate_rat_tails(&players, 0), 3);
    assert_eq!(calculate_rat_tails(&players, 1), 0);
}

#[test]
fn rat_tails_wrap_around_the_track() {
    let mut a = Player::new("a", Strategy::Simple);
    a.score = 49;
    let mut b = Player::new("b", Strategy::Simple);
    b.score = 53;
    let players = vec![a, b];
    // Positions 50..=53 reduce to 0..=3 modulo 50: only 2 is a marker.
    assert_eq!(calculate_rat_tails(&players, 0), 1);
}

#[test]
fn spend_rubies_accounts_for_every_ruby() {
    let mut rng = seed_rng(17);
    for seed_extra in 0..20u64 {
        let mut p = Player::new("p", Strategy::PreferBlue);
        p.rubies = 9 + seed_extra % 5;
        p.flask = false;
        let before_rubies = p.rubies;
        spend_rubies_phase(&mut p, 2, 2, &mut rng);
        let fill_cost = if p.flask { 2 } else { 0 };
        let moves = p.drop;
        assert_eq!(before_rubies - p.rubies, fill_cost + 2 * moves);
    }
}

#[test]
fn spend_rubies_never_moves_without_funds() {
    let mut rng = seed_rng(23);
    let mut p = Player::new("p", Strategy::Simple);
    p.rubies = 1;
    spend_rubies_phase(&mut p, 2, 2, &mut rng);
    assert_eq!(p.rubies, 1);
    assert_eq!(p.drop, 0);
}

#[test]
fn strategies_stop_at_certain_explosion() {
    let mut rng = seed_rng(31);
    let mut p = Player::new("p", Strategy::Simple);
    p.cauldron.add_chip(Chip::White3);
    p.cauldron.add_chip(Chip::White3);
    p.cauldron.add_chip(Chip::White1);
    p.bag = vec![Chip::White3, Chip::White2];
    for turn in 1..=9u8 {
        assert!(!p.wants_to_continue_drawing(turn, &mut rng));
    }
    p.strategy = Strategy::PreferBlue;
    for turn in 1..=9u8 {
        assert!(!p.wants_to_continue_drawing(turn, &mut rng));
    }
}

#[test]
fn strategies_continue_without_risk() {
    let mut rng = seed_rng(37);
    let mut p = Player::new("p", Strategy::Simple);
    p.bag = vec![Chip::Green1, Chip::Orange1];
    for turn in 1..=9u8 {
        assert!(p.wants_to_continue_drawing(turn, &mut rng));
    }
    p.strategy = Strategy::PreferColor(Color::Green);
    for turn in 1..=9u8 {
        assert!(p.wants_to_continue_drawing(turn, &mut rng));
    }
}

#[test]
fn flask_is_spent_only_on_real_risk() {
    let mut rng = seed_rng(41);
    let p = Player::new("p", Strategy::Simple);
    // The fresh cauldron is empty: no draw could explode it.
    for _ in 0..50 {
        assert!(!p.wants_to_use_flask(&mut rng));
    }
}

#[test]
fn can_use_flask_needs_flask_and_white_top() {
    let mut p = Player::new("p", Strategy::Simple);
    assert!(!p.can_use_flask());
    p.cauldron.add_chip(Chip::White2);
    assert!(p.can_use_flask());
    p.cauldron.add_chip(Chip::Green1);
    assert!(!p.can_use_flask());
    let mut q = Player::new("q", Strategy::Simple);
    q.cauldron.add_chip(Chip::White2);
    q.use_flask();
    assert!(!q.can_use_flask());
}

#[test]
fn round_drains_every_cauldron() {
    let mut rng = seed_rng(47);
    let mut game = standard_match();
    round(&mut game, &mut rng);
    assert_eq!(game.players().len(), 4);
    for p in game.players().iter() {
        assert_eq!(p.cauldron().chips().len(), 0);
        assert!(p.bag().len() >= 8);
    }
}

#[test]
fn scenario_identical_seeds_reproduce_a_match() {
    let first = play(20260101);
    let second = play(20260101);
    assert_eq!(first, second);
    assert_eq!(first.len(), 4);
}

#[test]
fn full_match_runs_nine_turns() {
    let mut rng = seed_rng(53);
    let mut game = standard_match();
    run(&mut game, &mut rng);
    assert_eq!(game.turn, 9);
    assert_eq!(game.players().len(), 4);
    for p in game.players().iter() {
        assert_eq!(p.cauldron().chips().len(), 0);
    }
}

#[test]
fn scoring_phase_pays_ruby_and_points() {
    let mut p = Player::new("p", Strategy::Simple);
    // Position 5 is a ruby space worth 5 coins and no points.
    p.cauldron.increase_position(5);
    let mut players = vec![p];
    scoring_phase(&mut players, 0, &full_rule_set(), 1);
    assert_eq!(players[0].rubies, 1);
    assert_eq!(players[0].score, 0);
    // Five coins afford the orange chip: the bag must have grown.
    assert!(players[0].bag.len() > 9);

    let mut q = Player::new("q", Strategy::Simple);
    q.cauldron.increase_position(6);
    let mut players = vec![q];
    scoring_phase(&mut players, 0, &full_rule_set(), 1);
    assert_eq!(players[0].rubies, 0);
    assert_eq!(players[0].score, 1);
}
