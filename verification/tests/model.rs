use riftbound_events::model::{
    get_table_number, legend_or, DeckDefiningCard, MatchResult, MatchResultCompleted,
};

fn a_win() -> MatchResultCompleted {
    MatchResultCompleted::Win {
        games_drawn: 0,
        games_won_by_winner: 2,
        games_won_by_loser: 1,
        winning_player: 5,
    }
}

#[test]
fn a_bye_is_complete_whatever_else_is_reported() {
    for outcome in [None, Some(a_win())] {
        assert!(matches!(
            MatchResult::from_report(true, outcome),
            MatchResult::Complete(MatchResultCompleted::Bye)
        ));
    }
}

#[test]
fn a_match_without_outcome_is_in_progress() {
    assert!(matches!(
        MatchResult::from_report(false, None),
        MatchResult::InProgress
    ));
}

#[test]
fn a_match_with_outcome_is_complete() {
    assert!(matches!(
        MatchResult::from_report(false, Some(a_win())),
        MatchResult::Complete(MatchResultCompleted::Win { winning_player: 5, .. })
    ));
}

#[test]
fn a_table_that_is_no_number_is_no_table() {
    assert_eq!(get_table_number("12".parse()), Some(12));
    assert_eq!(get_table_number("stream".parse()), None);
}

#[test]
fn a_deck_is_named_after_its_legend() {
    let card = DeckDefiningCard {
        id: "c1".to_string(),
        name: "Jinx".to_string(),
        image_url: String::new(),
    };
    assert_eq!(legend_or(&Some(card), "-"), "Jinx");
    assert_eq!(legend_or(&None, "-"), "-");
}
