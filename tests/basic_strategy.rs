use blackjack::basic_strategy::{csv_actions_parse, int_to_rank_str, to_letters, BasicStrategyChart, BasicStrategyChartKey, BasicStrategyHand, ChartError};
use blackjack::hand::Hand;
use blackjack::rules::{rules_1d_h17_ndas_d10, rules_6d_h17_das_dany};
use blackjack::strategy_comparison::{ChartValue, ComparisonBSChart};
use blackjack::types::{Action, A, T};

fn hand(cards: &[u32]) -> Hand {
    Hand { cards: cards.to_vec() }
}

fn chart() -> BasicStrategyChart {
    BasicStrategyChart::builtin(&rules_6d_h17_das_dany()).expect("Couldn't generate strategy chart")
}

#[test]
fn test_context_basic_plays() {
    let chart = chart();

    assert_eq!(chart.context_basic_play(&hand(&[8, 5]), 4, 1), Some(Action::Stand));
    assert_eq!(chart.context_basic_play(&hand(&[8, 5]), 8, 1), Some(Action::Hit));
    assert_eq!(chart.context_basic_play(&hand(&[5, 3, 2]), 8, 1), Some(Action::Hit));
    assert_eq!(chart.context_basic_play(&hand(&[4, 4, 3, T]), T, 1), Some(Action::Stand));

    assert_eq!(chart.context_basic_play(&hand(&[A, 6]), 2, 1), Some(Action::Hit));
    assert_eq!(chart.context_basic_play(&hand(&[A, 7]), 3, 1), Some(Action::Double));
    assert_eq!(chart.context_basic_play(&hand(&[A, 3, 4]), 3, 1), Some(Action::Stand));
    assert_eq!(chart.context_basic_play(&hand(&[A, 7]), 7, 1), Some(Action::Stand));
    assert_eq!(chart.context_basic_play(&hand(&[A, 7]), A, 1), Some(Action::Hit));
    assert_eq!(chart.context_basic_play(&hand(&[A, T]), A, 1), Some(Action::Stand));

    assert_eq!(chart.context_basic_play(&hand(&[A, A]), A, 1), Some(Action::Split));
    assert_eq!(chart.context_basic_play(&hand(&[T, T]), 6, 1), Some(Action::Stand));
    assert_eq!(chart.context_basic_play(&hand(&[2, 2]), 2, 3), Some(Action::Split));
    assert_eq!(chart.context_basic_play(&hand(&[2, 2]), 2, 4), Some(Action::Hit));
    assert_eq!(chart.context_basic_play(&hand(&[2, 2]), 0, 1), Some(Action::Hit));
    assert_eq!(chart.context_basic_play(&hand(&[5, 5]), 8, 1), Some(Action::Double));
}

#[test]
fn test_basic_play_lists() {
    let chart = chart();

    assert_eq!(chart.basic_plays(&hand(&[8, 5]), 4).unwrap(), [Action::Stand]);
    assert_eq!(chart.basic_plays(&hand(&[8, 5]), 8).unwrap(), [Action::Hit]);
    assert_eq!(chart.basic_plays(&hand(&[5, 3, 2]), 8).unwrap(), [Action::Double, Action::Hit]);
    assert_eq!(chart.basic_plays(&hand(&[4, 4, 3, T]), T).unwrap(), [Action::Stand]);

    assert_eq!(chart.basic_plays(&hand(&[A, 6]), 2).unwrap(), [Action::Hit]);
    assert_eq!(chart.basic_plays(&hand(&[A, 7]), 3).unwrap(), [Action::Double, Action::Stand]);
    assert_eq!(chart.basic_plays(&hand(&[A, 3, 4]), 3).unwrap(), [Action::Double, Action::Stand]);
    assert_eq!(chart.basic_plays(&hand(&[A, 7]), 7).unwrap(), [Action::Stand]);
    assert_eq!(chart.basic_plays(&hand(&[A, 7]), A).unwrap(), [Action::Hit]);
    assert_eq!(chart.basic_plays(&hand(&[A, T]), A).unwrap(), [Action::Stand]);

    assert_eq!(chart.basic_plays(&hand(&[A, A]), A).unwrap(), [Action::Split, Action::Hit]);
    assert_eq!(chart.basic_plays(&hand(&[T, T]), 6).unwrap(), [Action::Stand]);
    assert_eq!(chart.basic_plays(&hand(&[2, 2]), 2).unwrap(), [Action::Split, Action::Hit]);
    assert_eq!(chart.basic_plays(&hand(&[2, 2]), 0).unwrap(), [Action::Hit]);
    assert_eq!(chart.basic_plays(&hand(&[5, 5]), 8).unwrap(), [Action::Double, Action::Hit]);
}

#[test]
fn test_actions_to_letters() {
    assert_eq!(to_letters(&vec![Action::Hit]), "H");
    assert_eq!(to_letters(&vec![Action::Stand]), "S");
    assert_eq!(to_letters(&vec![Action::Double]), "D");
    assert_eq!(to_letters(&vec![Action::Split]), "P");

    assert_eq!(to_letters(&vec![Action::Double, Action::Hit]), "Dh");
    assert_eq!(to_letters(&vec![Action::Split, Action::Double, Action::Hit]), "Pdh");
}

#[test]
fn test_actions_parse() {
    assert_eq!(csv_actions_parse("H").unwrap(), [Action::Hit]);
    assert_eq!(csv_actions_parse("S").unwrap(), [Action::Stand]);
    assert_eq!(csv_actions_parse("D").unwrap(), [Action::Double]);
    assert_eq!(csv_actions_parse("P").unwrap(), [Action::Split]);

    assert_eq!(csv_actions_parse("Dh").unwrap(), [Action::Double, Action::Hit]);
    assert_eq!(csv_actions_parse("Pdh").unwrap(), [Action::Split, Action::Double, Action::Hit]);
}

#[test]
#[should_panic]
fn test_actions_parse_invalid() {
    csv_actions_parse("E").unwrap();
}

#[test]
fn actions_parse_errors() {
    assert_eq!(csv_actions_parse("E"), Err(ChartError::InvalidAction));
    assert_eq!(csv_actions_parse(""), Err(ChartError::InvalidAction));
    assert_eq!(csv_actions_parse("Hx"), Err(ChartError::InvalidAction));
    assert_eq!(csv_actions_parse("ds").unwrap(), [Action::Double, Action::Stand]);
}

#[test]
fn scenario_hard_thirteen_vs_four() {
    let chart = chart();
    assert_eq!(chart.context_basic_play(&hand(&[8, 5]), 4, 1), Some(Action::Stand));
    assert_eq!(chart.basic_plays(&hand(&[8, 5]), 4).unwrap(), [Action::Stand]);
}

#[test]
fn scenario_soft_eighteen_vs_three() {
    let chart = chart();
    assert_eq!(chart.context_basic_play(&hand(&[A, 7]), 3, 1), Some(Action::Double));
    assert_eq!(chart.basic_plays(&hand(&[A, 7]), 3).unwrap(), [Action::Double, Action::Stand]);
}

#[test]
fn scenario_three_card_ten_vs_eight() {
    let chart = chart();
    assert_eq!(chart.context_basic_play(&hand(&[5, 3, 2]), 8, 1), Some(Action::Hit));
    assert_eq!(chart.basic_plays(&hand(&[5, 3, 2]), 8).unwrap(), [Action::Double, Action::Hit]);
}

#[test]
fn scenario_aces_vs_ace() {
    let chart = chart();
    assert_eq!(chart.context_basic_play(&hand(&[A, A]), A, 1), Some(Action::Split));
    assert_eq!(chart.basic_plays(&hand(&[A, A]), A).unwrap(), [Action::Split, Action::Hit]);
}

#[test]
fn scenario_twos_split_cap() {
    let chart = chart();
    assert_eq!(chart.context_basic_play(&hand(&[2, 2]), 2, 3), Some(Action::Split));
    assert_eq!(chart.context_basic_play(&hand(&[2, 2]), 2, 4), Some(Action::Hit));
}

#[test]
fn scenario_never_split_tens() {
    let chart = chart();
    assert_eq!(chart.context_basic_play(&hand(&[T, T]), 6, 1), Some(Action::Stand));
}

#[test]
fn one_deck_chart_loads_and_limits_doubles() {
    let chart = BasicStrategyChart::builtin(&rules_1d_h17_ndas_d10()).unwrap();
    // Doubling 9 is preferred but only 10 and 11 may double under these rules.
    assert_eq!(chart.basic_plays(&hand(&[5, 4]), 5).unwrap(), [Action::Double, Action::Hit]);
    assert_eq!(chart.context_basic_play(&hand(&[5, 4]), 5, 1), Some(Action::Hit));
    assert_eq!(chart.context_basic_play(&hand(&[6, 4]), 5, 1), Some(Action::Double));
    // No double after a split.
    assert_eq!(chart.context_basic_play(&hand(&[6, 5]), 5, 2), Some(Action::Hit));
}

#[test]
fn builtin_without_matching_chart() {
    let mut rules = rules_6d_h17_das_dany();
    rules.decks = 2;
    assert!(matches!(BasicStrategyChart::builtin(&rules), Err(ChartError::NoChart)));
}

#[test]
fn chart_from_bytes_reads_cells() {
    let rules = rules_6d_h17_das_dany();
    let text = "Hard,2,10\n12,H,S\nPair,2,10\n6,Ph,H\n";
    let chart = BasicStrategyChart::from_bytes(&rules, text.as_bytes()).unwrap();
    assert_eq!(chart.basic_plays(&hand(&[7, 5]), 2).unwrap(), [Action::Hit]);
    assert_eq!(chart.basic_plays(&hand(&[7, 5]), T).unwrap(), [Action::Stand]);
    assert_eq!(chart.basic_plays(&hand(&[6, 6]), 2).unwrap(), [Action::Split, Action::Hit, Action::Hit]);
    assert_eq!(chart.basic_plays(&hand(&[6, 6]), T).unwrap(), [Action::Hit]);
    assert!(chart.basic_plays(&hand(&[7, 6]), 2).is_none());
    assert_eq!(chart.context_basic_play(&hand(&[6, 6]), 2, 4), Some(Action::Hit));
}

#[test]
fn chart_from_bytes_errors() {
    let rules = rules_6d_h17_das_dany();
    let parse = |t: &str| BasicStrategyChart::from_bytes(&rules, t.as_bytes()).err();
    assert_eq!(parse("Hard,2,10\n12,H\n"), Some(ChartError::MalformedCsv));
    assert_eq!(parse("Hard,2,11\n12,H,S\n"), Some(ChartError::InvalidUpcard));
    assert_eq!(parse("Hard,2,10\nx,H,S\n"), Some(ChartError::InvalidHand));
    assert_eq!(parse("Pair,2,10\n12,H,S\n"), Some(ChartError::InvalidHand));
    assert_eq!(parse("Hard,2,10\n12,H,E\n"), Some(ChartError::InvalidAction));
    assert_eq!(parse("12,H,S\n"), Some(ChartError::MissingUpcard));
}

#[test]
fn rank_labels() {
    assert_eq!(int_to_rank_str(T), "10");
    assert_eq!(int_to_rank_str(A), "A");
    assert_eq!(int_to_rank_str(7), "7");
    assert_eq!(int_to_rank_str(12), "?");
}

#[test]
fn hand_classes() {
    assert!(BasicStrategyHand::from(&hand(&[8, 8])) == BasicStrategyHand::Pair(8));
    assert!(BasicStrategyHand::from_unsplittable(&hand(&[8, 8])) == BasicStrategyHand::Hard(16));
    assert!(BasicStrategyHand::from(&hand(&[A, 8])) == BasicStrategyHand::Soft(19));
}

#[test]
fn comparison_chart_counts() {
    let rules = rules_6d_h17_das_dany();
    let mut c = ComparisonBSChart::new();
    let pair_key = BasicStrategyChartKey { hand: BasicStrategyHand::Pair(8), upcard: T };
    let hard_key = BasicStrategyChartKey { hand: BasicStrategyHand::Hard(16), upcard: T };
    assert_eq!(c.get(pair_key), ChartValue { times_seen: 0, times_deviated: 0 });
    c.see(&rules, &hand(&[8, 8]), T, 1, true);
    c.see(&rules, &hand(&[8, 8]), T, 2, false);
    assert_eq!(c.get(pair_key), ChartValue { times_seen: 2, times_deviated: 1 });
    // With the split limit reached the pair counts under its total.
    c.see(&rules, &hand(&[8, 8]), T, 4, true);
    assert_eq!(c.get(hard_key), ChartValue { times_seen: 1, times_deviated: 1 });
    assert_eq!(c.get(pair_key), ChartValue { times_seen: 2, times_deviated: 1 });
}
