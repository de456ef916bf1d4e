use quacks::cauldron::{Cauldron, Score};
use quacks::chip::{Chip, Color};

#[test]
fn chip_values_and_colors() {
    assert_eq!(Chip::White1.value(), 1);
    assert_eq!(Chip::White2.value(), 2);
    assert_eq!(Chip::White3.value(), 3);
    assert_eq!(Chip::Green4.value(), 4);
    assert_eq!(Chip::Purple1.value(), 1);
    assert_eq!(Chip::Black1.color(), Color::Black);
    assert_eq!(Chip::Yellow2.color(), Color::Yellow);
    assert_eq!(Chip::Orange1.color(), Color::Orange);
}

#[test]
fn scenario_basic_draw() {
    // bag = [White1 x4, White2 x2, White3, Orange1, Green1], limit = 7:
    // White1, White1, White2 leave the white total at 4; another White2
    // makes 6; White3 pushes to 9 > 7, so the cauldron explodes.
    let mut c = Cauldron::new();
    c.add_chip(Chip::White1);
    c.add_chip(Chip::White1);
    c.add_chip(Chip::White2);
    assert_eq!(c.total_value_of(Color::White), 4);
    assert!(!c.is_exploded());
    c.add_chip(Chip::White2);
    assert_eq!(c.total_value_of(Color::White), 6);
    assert!(!c.is_exploded());
    c.add_chip(Chip::White3);
    assert_eq!(c.total_value_of(Color::White), 9);
    assert!(c.is_exploded());
}

#[test]
fn non_white_chips_never_explode() {
    let mut c = Cauldron::new();
    c.add_chip(Chip::White3);
    c.add_chip(Chip::White3);
    c.add_chip(Chip::White1);
    assert_eq!(c.total_value_of(Color::White), 7);
    assert!(!c.is_exploded());
    c.add_chip(Chip::Green4);
    assert!(!c.is_exploded());
    c.add_chip(Chip::Black1);
    assert!(!c.is_exploded());
    c.add_chip(Chip::Orange1);
    assert!(!c.is_exploded());
    c.add_chip(Chip::White1);
    assert!(c.is_exploded());
}

#[test]
fn remove_last_undoes_a_placement() {
    let mut c = Cauldron::new();
    c.add_chip(Chip::White2);
    c.add_chip(Chip::Blue4);
    assert_eq!(c.last_chip(), Some(Chip::Blue4));
    let removed = c.remove_last();
    assert_eq!(removed, Some(Chip::Blue4));
    assert_eq!(c.last_chip(), Some(Chip::White2));
    assert_eq!(c.score().coins, 2);
    let removed = c.remove_last();
    assert_eq!(removed, Some(Chip::White2));
    assert_eq!(c.remove_last(), None);
}

#[test]
fn remove_all_drains_and_resets() {
    let mut c = Cauldron::new();
    c.add_chip(Chip::White1);
    c.add_chip(Chip::Red2);
    c.add_chip(Chip::Green1);
    let drained = c.remove_all();
    assert_eq!(drained, vec![Chip::White1, Chip::Red2, Chip::Green1]);
    assert_eq!(c.chips().len(), 0);
    assert_eq!(c.score(), Score { coins: 0, points: 0, ruby: false });
}

#[test]
fn counting_queries() {
    let mut c = Cauldron::new();
    c.add_chip(Chip::Green1);
    c.add_chip(Chip::Green2);
    c.add_chip(Chip::White3);
    c.add_chip(Chip::Black1);
    assert_eq!(c.number_of(Color::Green), 2);
    assert_eq!(c.total_value_of(Color::Green), 3);
    assert_eq!(c.number_of(Color::Black), 1);
    assert_eq!(c.number_of(Color::Red), 0);
    assert_eq!(c.total_value_of(Color::Red), 0);
}

#[test]
fn score_table_exact_entries() {
    let c = Cauldron::new();
    assert_eq!(c.score(), Score { coins: 0, points: 0, ruby: false });
    let mut c = Cauldron::new();
    c.increase_position(5);
    assert_eq!(c.score(), Score { coins: 5, points: 0, ruby: true });
    let mut c = Cauldron::new();
    c.increase_position(33);
    assert_eq!(c.score(), Score { coins: 24, points: 8, ruby: true });
    let mut c = Cauldron::new();
    c.increase_position(51);
    assert_eq!(c.score(), Score { coins: 35, points: 15, ruby: false });
}

#[test]
fn score_clamps_past_the_table() {
    let mut at_end = Cauldron::new();
    at_end.increase_position(51);
    let mut beyond = Cauldron::new();
    beyond.increase_position(60);
    assert_eq!(at_end.score(), beyond.score());
    assert!(beyond.is_full());
}

#[test]
fn score_is_monotonic_in_position() {
    let mut previous: Option<Score> = None;
    for pos in 0..=51u64 {
        let mut c = Cauldron::new();
        c.increase_position(pos);
        let s = c.score();
        if let Some(p) = previous {
            assert!(p.le(&s), "table must ascend at position {pos}");
        }
        previous = Some(s);
    }
}

#[test]
fn full_cauldron_stops_accepting() {
    let mut c = Cauldron::new();
    assert!(!c.is_full());
    c.increase_position(50);
    assert!(!c.is_full());
    c.increase_position(1);
    assert!(c.is_full());
}

#[test]
fn explosive_chips_counts_dangerous_whites() {
    let mut c = Cauldron::new();
    c.add_chip(Chip::White3);
    c.add_chip(Chip::White3);
    // white total 6 with limit 7: White2 and White3 would explode, White1
    // and non-white chips would not.
    let bag = vec![Chip::White1, Chip::White2, Chip::White3, Chip::Green4, Chip::Orange1];
    assert_eq!(c.explosive_chips(&bag), 2);
    let empty: Vec<Chip> = Vec::new();
    assert_eq!(c.explosive_chips(&empty), 0);
}
