use riftbound_events::channels::CommandError;
use riftbound_events::model::{
    DeckDefiningCard, Event, GenerationStatus, PaginationResult, PhaseRound, PhaseRoundType,
    Player, RoundRoundType, RoundStatus, StandingsResult, TournamentPhase, User, UserEventStatus,
};
use riftbound_events::pagination::Standings;
use riftbound_events::standings::{find_standings_round, write_standings, StandingsRun};
use riftbound_events::urls::standings_url;

fn round(id: u32, round_number: u32, status: RoundStatus) -> PhaseRound {
    PhaseRound {
        final_round_in_event: false,
        id,
        pairings_status: GenerationStatus::Generated,
        standings_status: GenerationStatus::Generated,
        round_number,
        round_type: RoundRoundType::PlayVsOpponent,
        status,
    }
}

fn phase(status: RoundStatus, rounds: Vec<PhaseRound>) -> TournamentPhase {
    TournamentPhase {
        id: 1,
        phase_name: "Phase".to_string(),
        round_type: PhaseRoundType::Swiss,
        status,
        rounds,
    }
}

fn event(tournament_phases: Vec<TournamentPhase>) -> Event {
    Event {
        name: "Summoner Skirmish".to_string(),
        tournament_phases,
        starting_player_count: 8,
    }
}

fn played() -> Event {
    event(vec![
        phase(
            RoundStatus::Complete,
            vec![round(100, 1, RoundStatus::Complete), round(101, 2, RoundStatus::Complete)],
        ),
        phase(
            RoundStatus::InProgress,
            vec![
                round(102, 3, RoundStatus::Complete),
                round(103, 4, RoundStatus::Complete),
                round(104, 5, RoundStatus::InProgress),
            ],
        ),
        phase(RoundStatus::Upcoming, vec![round(105, 6, RoundStatus::Upcoming)]),
    ])
}

fn standing(rank: usize, name: &str, record: &str, legend: Option<&str>) -> StandingsResult {
    StandingsResult {
        round_number: 4,
        id: 1,
        rank,
        record: record.to_string(),
        match_record: "other".to_string(),
        match_points: 9,
        points: 9,
        player: Player { id: 1, best_identifier: "not shown".to_string() },
        user_event_status: UserEventStatus {
            id: 1,
            matches_won: 3,
            matches_drawn: 0,
            matches_lost: 0,
            total_match_points: 9,
            best_identifier: name.to_string(),
            user: User { id: 1, pronouns: None, country_code: None },
            deck_defining_card: legend.map(|name| DeckDefiningCard {
                id: "c".to_string(),
                name: name.to_string(),
                image_url: String::new(),
            }),
        },
    }
}

fn page(results: Vec<StandingsResult>, next: Option<u32>) -> PaginationResult<StandingsResult> {
    PaginationResult { next_page_number: next, results }
}

#[test]
fn the_latest_complete_round_is_found() {
    let event = played();
    let found = find_standings_round(&event).unwrap();
    assert_eq!((found.id, found.round_number), (103, 4));
}

#[test]
fn phases_that_have_not_begun_are_passed_over() {
    let event = event(vec![
        phase(RoundStatus::Complete, vec![round(1, 1, RoundStatus::Complete)]),
        phase(RoundStatus::InProgress, vec![round(2, 2, RoundStatus::InProgress)]),
        phase(RoundStatus::Upcoming, vec![round(3, 3, RoundStatus::Complete)]),
        phase(
            RoundStatus::Unknown("PAUSED".to_string()),
            vec![round(4, 4, RoundStatus::Complete)],
        ),
    ]);
    assert_eq!(find_standings_round(&event).unwrap().id, 1);
}

#[test]
fn an_event_without_complete_round_has_no_standings() {
    for unplayed in [
        event(vec![]),
        event(vec![phase(RoundStatus::Complete, vec![])]),
        event(vec![phase(
            RoundStatus::InProgress,
            vec![round(1, 1, RoundStatus::InProgress)],
        )]),
    ] {
        assert_eq!(find_standings_round(&unplayed).err(), Some(CommandError::NoPhase));
        assert_eq!(
            StandingsRun::begin(&unplayed, None, None).err(),
            Some(CommandError::NoPhase)
        );
    }
    assert_eq!(CommandError::NoPhase.message(), "No candidate phase found");
    assert_eq!(CommandError::NoRound.message(), "No complete round found");
}

#[test]
fn twenty_players_are_shown_by_default() {
    let run = StandingsRun::begin(&played(), None, None).ok().unwrap();
    assert_eq!(run.next_url(), Some(standings_url(103, 20, 1, None)));
    let run = StandingsRun::begin(&played(), None, Some(700)).ok().unwrap();
    assert_eq!(run.next_url(), Some(standings_url(103, 500, 1, None)));
}

#[test]
fn a_player_is_asked_for_once() {
    let run = StandingsRun::begin(&played(), Some("Ann"), None).ok().unwrap();
    assert_eq!(run.next_url(), Some(standings_url(103, 20, 1, Some("Ann"))));
    let found = page(vec![standing(3, "Ann", "2-1-0", Some("Jinx"))], Some(2));
    assert!(run.can_accept(&found));
    let run = run.accept(found);
    assert_eq!(run.next_url(), None);
    assert_eq!(
        run.reply(),
        "# Summoner Skirmish\nStandings as of round 4```\n\
         #   Player  Record  Legend\n\
         ──────────────────────────\n\
         3   Ann     2-1-0   Jinx\n\
         \n```"
    );
}

#[test]
fn a_player_may_be_asked_for_with_a_count() {
    let run = StandingsRun::begin(&played(), Some("Ann"), Some(900)).ok().unwrap();
    assert_eq!(run.next_url(), Some(standings_url(103, 900, 1, Some("Ann"))));
}

#[test]
fn pages_of_standings_are_collected() {
    let run = StandingsRun::begin(&played(), None, Some(3)).ok().unwrap();
    assert_eq!(run.next_url(), Some(standings_url(103, 3, 1, None)));
    let run = run.accept(page(vec![standing(1, "A", "3-0", None)], Some(2)));
    assert_eq!(run.next_url(), Some(standings_url(103, 2, 2, None)));
    let run = run.accept(page(
        vec![standing(2, "B", "2-1", Some("Vi")), standing(3, "C", "2-1", Some("Yasuo"))],
        Some(3),
    ));
    assert_eq!(run.next_url(), None);
    assert_eq!(
        run.reply(),
        format!(
            "# Summoner Skirmish\nStandings as of round 4```\n\
             #   Player  Record  Legend\n\
             {}\n\
             1   A       3-0     UNKNOWN LEGEND\n\
             2   B       2-1     Vi\n\
             3   C       2-1     Yasuo\n\
             \n```",
            "─".repeat(34)
        )
    );
}

#[test]
fn standings_can_be_empty() {
    let reply = write_standings("E", 1, &Standings { standings: vec![] });
    assert_eq!(
        reply,
        format!(
            "# E\nStandings as of round 1```\n#   Player  Record  Legend\n{}\n\n```",
            "─".repeat(26)
        )
    );
}
