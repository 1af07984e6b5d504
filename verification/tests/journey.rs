use riftbound_events::journey::{
    find_complete_rounds, journey_row, knows_opponent, write_record, JourneyRun,
};
use riftbound_events::model::{
    DeckDefiningCard, Event, GenerationStatus, Match, MatchResult, MatchResultCompleted,
    MatchStatus, PaginationResult, PhaseRound, PhaseRoundType, Player, PlayerMatchRelationship,
    RoundRoundType, RoundStatus, TournamentPhase, User, UserEventStatus,
};
use riftbound_events::urls::matches_url;

fn round(id: u32, status: RoundStatus) -> PhaseRound {
    PhaseRound {
        final_round_in_event: false,
        id,
        pairings_status: GenerationStatus::Generated,
        standings_status: GenerationStatus::NotGenerated,
        round_number: id,
        round_type: RoundRoundType::PlayVsOpponent,
        status,
    }
}

fn event() -> Event {
    let phase = |rounds| TournamentPhase {
        id: 1,
        phase_name: "Phase".to_string(),
        round_type: PhaseRoundType::Swiss,
        status: RoundStatus::Upcoming,
        rounds,
    };
    Event {
        name: "Event".to_string(),
        tournament_phases: vec![
            phase(vec![
                round(31, RoundStatus::Complete),
                round(32, RoundStatus::InProgress),
                round(33, RoundStatus::Complete),
            ]),
            phase(vec![]),
            phase(vec![round(30, RoundStatus::Complete), round(34, RoundStatus::Upcoming)]),
        ],
        starting_player_count: 16,
    }
}

fn seat(user: u32, name: &str, legend: Option<&str>) -> PlayerMatchRelationship {
    PlayerMatchRelationship {
        id: 1,
        player: Player { id: 900 + user, best_identifier: "not shown".to_string() },
        user_event_status: UserEventStatus {
            id: 1,
            matches_won: 0,
            matches_drawn: 0,
            matches_lost: 0,
            total_match_points: 0,
            best_identifier: name.to_string(),
            user: User { id: user, pronouns: None, country_code: None },
            deck_defining_card: legend.map(|name| DeckDefiningCard {
                id: "c".to_string(),
                name: name.to_string(),
                image_url: String::new(),
            }),
        },
    }
}

fn a_match(seats: Vec<PlayerMatchRelationship>, results: MatchResult) -> Match {
    Match {
        id: 1,
        status: MatchStatus::Complete,
        table_number: Some(3),
        player_match_relationships: seats,
        results,
    }
}

fn won_by(winning_player: u32) -> MatchResult {
    MatchResult::Complete(MatchResultCompleted::Win {
        games_drawn: 0,
        games_won_by_winner: 2,
        games_won_by_loser: 1,
        winning_player,
    })
}

fn tie() -> MatchResult {
    MatchResult::Complete(MatchResultCompleted::Tie {
        games_drawn: 1,
        games_won_by_winner: 1,
        games_won_by_loser: 1,
        match_is_intentional_draw: true,
        match_is_unintentional_draw: false,
    })
}

fn bye() -> MatchResult {
    MatchResult::Complete(MatchResultCompleted::Bye)
}

fn page(results: Vec<Match>) -> PaginationResult<Match> {
    PaginationResult { next_page_number: None, results }
}

#[test]
fn complete_rounds_are_listed_in_order() {
    assert_eq!(find_complete_rounds(&event()), vec![31, 33, 30]);
}

#[test]
fn a_record_puts_the_own_games_first() {
    assert_eq!(write_record(&won_by(7), 7), "1:2 (L)");
    assert_eq!(write_record(&won_by(7), 8), "2:1 (W)");
    assert_eq!(write_record(&tie(), 7), "TIE");
    assert_eq!(write_record(&MatchResult::InProgress, 7), "?");
}

#[test]
fn both_players_see_the_match_from_their_side() {
    let result = a_match(vec![seat(1, "Ann", None), seat(2, "Bo", Some("Vi"))], won_by(1));
    assert_eq!(
        journey_row(0, &result, &"Ann".to_string()),
        vec!["1", "2:1 (W)", "Bo", "Vi"]
    );
    assert_eq!(
        journey_row(4, &result, &"Bo".to_string()),
        vec!["5", "1:2 (L)", "Ann", "-"]
    );
}

#[test]
fn a_bye_has_no_opponent() {
    let result = a_match(vec![seat(1, "Ann", None)], bye());
    assert!(knows_opponent(&result, &"Ann".to_string()));
    assert_eq!(
        journey_row(1, &result, &"Ann".to_string()),
        vec!["2", "BYE", "-", "-"]
    );
}

#[test]
fn opponents_need_a_seat() {
    let ann = "Ann".to_string();
    assert!(!knows_opponent(&a_match(vec![], tie()), &ann));
    assert!(!knows_opponent(&a_match(vec![seat(1, "Ann", None)], tie()), &ann));
    assert!(knows_opponent(&a_match(vec![seat(2, "Bo", None)], tie()), &ann));
    assert!(knows_opponent(&a_match(vec![], bye()), &ann));
}

#[test]
fn a_journey_asks_about_each_complete_round() {
    let mut run = JourneyRun::begin(&event(), "Ann");
    for id in [31, 33, 30] {
        assert_eq!(run.next_url(), Some(matches_url(id, 1, 1, Some("Ann"))));
        run = run.accept(page(vec![]));
    }
    assert_eq!(run.next_url(), None);
    assert_eq!(
        run.reply(),
        format!(
            "# Ann's Journey\n```\nRound  Record  Opponent  Legend\n{}\n\n```",
            "─".repeat(31)
        )
    );
}

#[test]
fn a_journey_shows_the_matches_that_were_found() {
    let run = JourneyRun::begin(&event(), "Ann");
    let run = run.accept(page(vec![
        a_match(vec![seat(2, "Bo", Some("Vi")), seat(1, "Ann", None)], won_by(2)),
        a_match(vec![], bye()),
    ]));
    let run = run.accept(page(vec![]));
    let run = run.accept(page(vec![a_match(vec![], bye())]));
    assert_eq!(run.next_url(), None);
    assert!(run.knows_opponents());
    assert_eq!(
        run.reply(),
        format!(
            "# Ann's Journey\n```\n\
             Round  Record   Opponent  Legend\n\
             {}\n\
             1      1:2 (L)  Bo        Vi\n\
             2      BYE      -         -\n\
             \n```",
            "─".repeat(32)
        )
    );
}

#[test]
fn a_journey_may_lack_an_opponent() {
    let run = JourneyRun::begin(&event(), "Ann");
    let run = run.accept(page(vec![a_match(vec![], tie())]));
    assert!(!run.knows_opponents());
}
