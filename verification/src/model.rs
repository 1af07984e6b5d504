//! What the tournament service tells about events, rounds, matches and players.
use vstd::prelude::*;

verus! {

#[derive(Debug)]
pub struct Player {
    pub id: u32,
    pub best_identifier: String,
}

#[derive(Debug)]
pub struct User {
    pub id: u32,
    pub pronouns: Option<String>,
    pub country_code: Option<String>,
}

/// The card that names a deck: its legend.
#[derive(Debug)]
pub struct DeckDefiningCard {
    pub id: String,
    pub name: String,
    pub image_url: String,
}

/// The name of a deck's legend, or `otherwise` where the deck is not known.
pub open spec fn legend_name(card: Option<DeckDefiningCard>, otherwise: Seq<char>) -> Seq<char> {
    match card {
        Some(card) => card.name@,
        None => otherwise,
    }
}

/// The name of a deck's legend, or `otherwise` where the deck is not known.
pub fn legend_or(card: &Option<DeckDefiningCard>, otherwise: &str) -> (name: String)
    ensures
        name@ == legend_name(*card, otherwise@),
{
    match card {
        Some(card) => card.name.clone(),
        None => otherwise.to_owned(),
    }
}

#[derive(Debug)]
pub struct UserEventStatus {
    pub id: u32,
    pub matches_won: u32,
    pub matches_drawn: u32,
    pub matches_lost: u32,
    pub total_match_points: u32,
    pub best_identifier: String,
    pub user: User,
    pub deck_defining_card: Option<DeckDefiningCard>,
}

/// One line of the standings after a round.
#[derive(Debug)]
pub struct StandingsResult {
    pub round_number: u32,
    pub id: u32,
    pub rank: usize,
    pub record: String,
    pub match_record: String,
    pub match_points: u32,
    pub points: u32,
    pub player: Player,
    pub user_event_status: UserEventStatus,
}

/// One page of a longer list.
#[derive(Debug)]
pub struct PaginationResult<R> {
    pub next_page_number: Option<u32>,
    pub results: Vec<R>,
}

#[derive(Debug)]
pub enum MatchStatus {
    Complete,
    InProgress,
    Unknown(String),
}

/// A player's seat in a match.
#[derive(Debug)]
pub struct PlayerMatchRelationship {
    pub id: u32,
    pub player: Player,
    pub user_event_status: UserEventStatus,
}

#[derive(Debug)]
pub enum MatchResultCompleted {
    /// A winning player! There is a result.
    Win {
        games_drawn: u32,
        games_won_by_winner: u32,
        games_won_by_loser: u32,
        winning_player: u32,
    },
    /// A result with no winning player means a tie.
    Tie {
        games_drawn: u32,
        games_won_by_winner: u32,
        games_won_by_loser: u32,
        match_is_intentional_draw: bool,
        match_is_unintentional_draw: bool,
    },
    Bye,
}

#[derive(Debug)]
pub enum MatchResult {
    Complete(MatchResultCompleted),
    InProgress,
}

impl MatchResult {
    /// The result of a match as the service reports it: whether the match is a bye, and the
    /// outcome, where there is one.  A bye is complete whatever else is said of it; another
    /// match without an outcome is still being played.
    pub fn from_report(match_is_bye: bool, complete: Option<MatchResultCompleted>) -> (result: Self)
        ensures
            result == (if match_is_bye {
                MatchResult::Complete(MatchResultCompleted::Bye)
            } else {
                match complete {
                    Some(outcome) => MatchResult::Complete(outcome),
                    None => MatchResult::InProgress,
                }
            }),
    {
        if match_is_bye {
            return MatchResult::Complete(MatchResultCompleted::Bye);
        }
        match complete {
            Some(outcome) => MatchResult::Complete(outcome),
            None => MatchResult::InProgress,
        }
    }
}

#[derive(Debug)]
pub struct Match {
    pub id: u32,
    pub status: MatchStatus,
    pub table_number: Option<u32>,
    pub player_match_relationships: Vec<PlayerMatchRelationship>,
    pub results: MatchResult,
}

/// The table of a match.  A table that could not be read as a number counts as no table.
pub fn get_table_number<E>(read: Result<u32, E>) -> (table_number: Option<u32>)
    ensures
        table_number == (match read {
            Ok(number) => Some(number),
            Err(_) => None,
        }),
{
    match read {
        Ok(number) => Some(number),
        Err(_) => None,
    }
}

#[derive(Debug)]
pub enum GenerationStatus {
    Generated,
    NotGenerated,
    Unknown(String),
}

#[derive(Debug)]
pub enum RoundStatus {
    Complete,
    InProgress,
    Upcoming,
    Unknown(String),
}

#[derive(Debug)]
pub enum RoundRoundType {
    PlayVsOpponent,
    Unknown(String),
}

#[derive(Debug)]
pub struct PhaseRound {
    pub final_round_in_event: bool,
    pub id: u32,
    pub pairings_status: GenerationStatus,
    pub standings_status: GenerationStatus,
    pub round_number: u32,
    pub round_type: RoundRoundType,
    pub status: RoundStatus,
}

#[derive(Debug)]
pub enum PhaseRoundType {
    Swiss,
    RankedSingleElimination,
    Unknown,
}

/// A phase of a tournament, with its rounds in the order in which they are played.
#[derive(Debug)]
pub struct TournamentPhase {
    pub id: u32,
    pub phase_name: String,
    pub round_type: PhaseRoundType,
    pub status: RoundStatus,
    pub rounds: Vec<PhaseRound>,
}

#[derive(Debug)]
pub struct Event {
    pub name: String,
    pub tournament_phases: Vec<TournamentPhase>,
    pub starting_player_count: u32,
}

/// A deck that is known goes by the name of its card, whatever it is called otherwise.
pub proof fn law_legend_is_the_name_of_the_card(card: DeckDefiningCard, otherwise: Seq<char>)
    ensures
        legend_name(Some(card), otherwise) == card.name@,
        legend_name(None, otherwise) == otherwise,
{
}

} // verus!
