//! The standings of an event.
use crate::channels::CommandError;
use crate::model::{
    legend_name, legend_or, Event, PaginationResult, PhaseRound, RoundStatus, StandingsResult, TournamentPhase,
};
use crate::pagination::{Collected, Pagination, Standings};
use crate::table::{
    framed, is_aligned, law_table_holds_every_row, lemma_four_cells, make_table, row_text,
    row_views, tab_aligned, table_of,
};
use crate::text::{
    decimal, decimal_text, law_decimal_is_short, law_decimal_reads_back, number_in, views,
};
use crate::urls::{standings_address, standings_url};
use vstd::prelude::*;

verus! {

/// How many players are shown where nothing else is asked for.
pub const DEFAULT_COUNT: usize = 20;

/// The last element of `s` of which `pred` holds.
pub open spec fn last_where<A>(s: Seq<A>, pred: spec_fn(A) -> bool) -> Option<A>
    decreases s.len(),
{
    if s.len() == 0 {
        None
    } else if pred(s.last()) {
        Some(s.last())
    } else {
        last_where(s.drop_last(), pred)
    }
}

/// The round has been played to its end.
pub open spec fn is_complete(round: PhaseRound) -> bool {
    round.status is Complete
}

/// The phase has begun and one of its rounds is complete.
pub open spec fn is_candidate(phase: TournamentPhase) -> bool {
    &&& phase.status is Complete || phase.status is InProgress
    &&& exists|i: int| 0 <= i < phase.rounds@.len() && is_complete(#[trigger] phase.rounds@[i])
}

/// The last phase of an event that has begun and has a complete round.
pub open spec fn latest_phase(event: Event) -> Option<TournamentPhase> {
    last_where(event.tournament_phases@, |phase: TournamentPhase| is_candidate(phase))
}

/// The last complete round of a phase.
pub open spec fn latest_round(phase: TournamentPhase) -> Option<PhaseRound> {
    last_where(phase.rounds@, |round: PhaseRound| is_complete(round))
}

/// The round that the standings are about: the last complete round of the last phase that has
/// begun and has one.
pub open spec fn standings_round(event: Event) -> Result<PhaseRound, CommandError> {
    match latest_phase(event) {
        Some(phase) => match latest_round(phase) {
            Some(round) => Ok(round),
            None => Err(CommandError::NoRound),
        },
        None => Err(CommandError::NoPhase),
    }
}

pub fn is_complete_round(round: &PhaseRound) -> (complete: bool)
    ensures
        complete == is_complete(*round),
        complete <==> round.status is Complete,
{
    match round.status {
        RoundStatus::Complete => true,
        _ => false,
    }
}

/// The last complete round of a phase.
fn find_latest_round(phase: &TournamentPhase) -> (round: Option<&PhaseRound>)
    ensures
        round == (match latest_round(*phase) {
            Some(latest) => Some(&latest),
            None => None,
        }),
        round is Some <==> exists|i: int|
            0 <= i < phase.rounds@.len() && is_complete(#[trigger] phase.rounds@[i]),
{
    let ghost complete = |round: PhaseRound| is_complete(round);
    let mut i: usize = phase.rounds.len();
    assert(phase.rounds@.take(i as int) =~= phase.rounds@);
    while i > 0
        invariant
            i <= phase.rounds.len(),
            complete == (|round: PhaseRound| is_complete(round)),
            latest_round(*phase) == last_where(phase.rounds@.take(i as int), complete),
            forall|j: int|
                i <= j < phase.rounds@.len() ==> !is_complete(#[trigger] phase.rounds@[j]),
        decreases i,
    {
        i -= 1;
        assert(phase.rounds@.take(i + 1).drop_last() =~= phase.rounds@.take(i as int));
        if is_complete_round(&phase.rounds[i]) {
            return Some(&phase.rounds[i]);
        }
    }
    None
}

fn is_candidate_phase(phase: &TournamentPhase) -> (candidate: bool)
    ensures
        candidate == is_candidate(*phase),
{
    let begun: bool = match phase.status {
        RoundStatus::Complete | RoundStatus::InProgress => true,
        _ => false,
    };
    begun && find_latest_round(phase).is_some()
}

/// Finds the round that the standings are about.
pub fn find_standings_round(event: &Event) -> (round: Result<&PhaseRound, CommandError>)
    ensures
        round == (match standings_round(*event) {
            Ok(latest) => Ok(&latest),
            Err(e) => Err(e),
        }),
{
    let ghost candidate = |phase: TournamentPhase| is_candidate(phase);
    let mut i: usize = event.tournament_phases.len();
    assert(event.tournament_phases@.take(i as int) =~= event.tournament_phases@);
    while i > 0
        invariant
            i <= event.tournament_phases.len(),
            candidate == (|phase: TournamentPhase| is_candidate(phase)),
            latest_phase(*event) == last_where(
                event.tournament_phases@.take(i as int),
                candidate,
            ),
        decreases i,
    {
        i -= 1;
        assert(event.tournament_phases@.take(i + 1).drop_last() =~= event.tournament_phases@.take(
            i as int,
        ));
        let phase = &event.tournament_phases[i];
        if is_candidate_phase(phase) {
            return match find_latest_round(phase) {
                Some(round) => Ok(round),
                None => Err(CommandError::NoRound),
            };
        }
    }
    Err(CommandError::NoPhase)
}

/// `round` is round `j` of phase `i`; it is complete and its phase has begun, no later round of
/// that phase is complete, and no later phase has begun and has a complete round.
pub open spec fn is_latest_at(event: Event, round: PhaseRound, i: int, j: int) -> bool {
    let phases = event.tournament_phases@;
    &&& 0 <= i < phases.len()
    &&& 0 <= j < phases[i].rounds@.len()
    &&& round == phases[i].rounds@[j]
    &&& is_candidate(phases[i])
    &&& is_complete(round)
    &&& forall|k: int|
        i < k < event.tournament_phases@.len() ==> !is_candidate(
            #[trigger] event.tournament_phases@[k],
        )
    &&& forall|k: int|
        j < k < event.tournament_phases@[i].rounds@.len() ==> !is_complete(
            #[trigger] event.tournament_phases@[i].rounds@[k],
        )
}

/// The standings are about the latest complete round of an event.  There is one unless no phase
/// has begun and has a complete round, and that is the only reason why there may be none.
pub proof fn law_standings_round_is_latest(event: Event)
    ensures
        match standings_round(event) {
            Ok(round) => exists|i: int, j: int| is_latest_at(event, round, i, j),
            Err(e) => {
                &&& e == CommandError::NoPhase
                &&& forall|k: int|
                    0 <= k < event.tournament_phases@.len() ==> !is_candidate(
                        #[trigger] event.tournament_phases@[k],
                    )
            },
        },
{
    let phases = event.tournament_phases@;
    let candidate = |phase: TournamentPhase| is_candidate(phase);
    let complete = |round: PhaseRound| is_complete(round);
    let i = lemma_last_where(phases, candidate);
    assert(forall|k: int| i < k < phases.len() ==> !candidate(#[trigger] phases[k]));
    if latest_phase(event) is Some {
        assert(candidate(phases[i]));
        let rounds = phases[i].rounds@;
        let j = lemma_last_where(rounds, complete);
        assert(forall|k: int| j < k < rounds.len() ==> !complete(#[trigger] rounds[k]));
        let w = choose|w: int| 0 <= w < rounds.len() && is_complete(#[trigger] rounds[w]);
        assert(complete(rounds[w]));
        assert(complete(rounds[j]));
        assert(is_latest_at(event, rounds[j], i, j));
    }
}

/// The index of the last element of which `pred` holds, and -1 where there is none.
proof fn lemma_last_where<A>(s: Seq<A>, pred: spec_fn(A) -> bool) -> (i: int)
    ensures
        -1 <= i < s.len(),
        i == -1 <==> last_where(s, pred) is None,
        i >= 0 ==> pred(s[i]) && last_where(s, pred) == Some(s[i]),
        forall|k: int| i < k < s.len() ==> !pred(#[trigger] s[k]),
    decreases s.len(),
{
    if s.len() == 0 {
        -1
    } else if pred(s.last()) {
        s.len() - 1
    } else {
        let i = lemma_last_where(s.drop_last(), pred);
        assert forall|k: int| i < k < s.len() implies !pred(#[trigger] s[k]) by {
            if k < s.len() - 1 {
                assert(s.drop_last()[k] == s[k]);
            }
        }
        i
    }
}

/// How many players to show.
pub open spec fn shown_count(count: Option<usize>) -> usize {
    match count {
        Some(n) => n,
        None => DEFAULT_COUNT,
    }
}

/// Where the standings come from.
pub enum StandingsSource {
    /// The one page about a player, which is still to be fetched.
    OfPlayer { url: String },
    /// The pages about all players, from the first on.
    Overall { list: Pagination<Standings> },
    /// The page about a player, which has come in.
    Found { standings: Standings },
}

/// The command that shows the standings of an event, while it collects them.
pub struct StandingsRun {
    pub event_name: String,
    pub round_number: u32,
    pub source: StandingsSource,
}

/// The header of the standings.
pub open spec fn standings_headers() -> Seq<Seq<char>> {
    seq!["#"@, "Player"@, "Record"@, "Legend"@]
}

/// How one player stands.
pub open spec fn standing_cells(standing: StandingsResult) -> Seq<Seq<char>> {
    seq![
        decimal(standing.rank as nat),
        standing.user_event_status.best_identifier@,
        standing.record@,
        legend_name(standing.user_event_status.deck_defining_card, "UNKNOWN LEGEND"@),
    ]
}

pub open spec fn standings_rows(standings: Seq<StandingsResult>) -> Seq<Seq<Seq<char>>> {
    standings.map_values(|standing: StandingsResult| standing_cells(standing))
}

/// What the bot answers: the name of the event, the round, and the table of the standings.
pub open spec fn standings_reply(
    event_name: Seq<char>,
    round_number: u32,
    standings: Seq<StandingsResult>,
) -> Seq<char> {
    "# "@ + event_name + "\nStandings as of round "@ + decimal(round_number as nat) + "```\n"@
        + table_of(standings_headers(), standings_rows(standings)) + "\n```"@
}

impl StandingsRun {
    /// The address of the page to fetch next, if any.
    pub open spec fn wanted(self) -> Option<Seq<char>> {
        match self.source {
            StandingsSource::OfPlayer { url } => Some(url@),
            StandingsSource::Overall { list } => match list@.next_page {
                Some(page) => Some(
                    standings_address(list@.id, list@.page_size() as usize, page, None),
                ),
                None => None,
            },
            StandingsSource::Found { .. } => None,
        }
    }

    /// The standings that have come in.
    pub open spec fn collected(self) -> Seq<StandingsResult> {
        match self.source {
            StandingsSource::OfPlayer { .. } => Seq::empty(),
            StandingsSource::Overall { list } => list@.items(),
            StandingsSource::Found { standings } => standings.standings@,
        }
    }

    /// Starts the command for an event: for one player, or for the first players of the
    /// standings.  Fails where the event has no complete round.
    pub fn begin(event: &Event, player: Option<&str>, count: Option<usize>) -> (run: Result<
        Self,
        CommandError,
    >)
        ensures
            match standings_round(*event) {
                Ok(round) => {
                    &&& run matches Ok(started)
                    &&& started.event_name@ == event.name@
                    &&& started.round_number == round.round_number
                    &&& started.collected().len() == 0
                    &&& match player {
                        Some(name) => {
                            &&& started.source matches StandingsSource::OfPlayer { url }
                            &&& url@ == standings_address(
                                round.id,
                                shown_count(count),
                                1,
                                Some(name@),
                            )
                        },
                        None => {
                            &&& started.source matches StandingsSource::Overall { list }
                            &&& list@ == Collected::<StandingsResult>::starting(
                                round.id,
                                Some(shown_count(count)),
                            )
                        },
                    }
                },
                Err(e) => run == Err::<Self, CommandError>(e),
            },
    {
        let round = match find_standings_round(event) {
            Ok(round) => round,
            Err(e) => {
                return Err(e);
            },
        };
        let count: usize = match count {
            Some(n) => n,
            None => DEFAULT_COUNT,
        };
        let source = match player {
            Some(name) => StandingsSource::OfPlayer {
                url: standings_url(round.id, count, 1, Some(name)),
            },
            None => StandingsSource::Overall { list: Pagination::start(round.id, Some(count)) },
        };
        Ok(StandingsRun {
            event_name: event.name.clone(),
            round_number: round.round_number,
            source,
        })
    }

    /// The address of the page to fetch next; none once the standings are complete.
    pub fn next_url(&self) -> (url: Option<String>)
        ensures
            match self.wanted() {
                Some(address) => url matches Some(text) && text@ == address,
                None => url is None,
            },
    {
        match &self.source {
            StandingsSource::OfPlayer { url } => Some(url.clone()),
            StandingsSource::Overall { list } => list.next_url(),
            StandingsSource::Found { .. } => None,
        }
    }

    /// Whether the standings can still be counted after `page`.
    pub fn can_accept(&self, page: &PaginationResult<StandingsResult>) -> (fits: bool)
        ensures
            fits == (self.collected().len() + page.results@.len() <= usize::MAX),
    {
        let added: usize = page.results.len();
        match &self.source {
            StandingsSource::OfPlayer { .. } => true,
            StandingsSource::Overall { list } => list.can_accept(page),
            StandingsSource::Found { standings } => added <= usize::MAX
                - standings.standings.len(),
        }
    }

    /// Takes in the page that was fetched.
    pub fn accept(self, page: PaginationResult<StandingsResult>) -> (run: Self)
        requires
            self.wanted() is Some,
            self.collected().len() + page.results@.len() <= usize::MAX,
        ensures
            run.event_name == self.event_name,
            run.round_number == self.round_number,
            match self.source {
                StandingsSource::Overall { list } => {
                    &&& run.source matches StandingsSource::Overall { list: longer }
                    &&& longer@ == list@.accepting(page.results@, page.next_page_number)
                },
                _ => {
                    &&& run.source matches StandingsSource::Found { standings }
                    &&& standings.standings@ == page.results@
                },
            },
            run.collected() == self.collected() + page.results@,
    {
        let source = match self.source {
            StandingsSource::Overall { list } => {
                proof {
                    list@.pages.lemma_flatten_push(page.results@);
                }
                StandingsSource::Overall { list: list.accept(page) }
            },
            _ => StandingsSource::Found { standings: Standings { standings: page.results } },
        };
        StandingsRun { event_name: self.event_name, round_number: self.round_number, source }
    }

    /// The answer, once the standings are complete.
    pub fn reply(self) -> (reply: String)
        requires
            self.wanted() is None,
        ensures
            reply@ == standings_reply(self.event_name@, self.round_number, self.collected()),
            is_aligned(standings_headers(), standings_rows(self.collected())),
    {
        let standings = match self.source {
            StandingsSource::OfPlayer { .. } => vstd::pervasive::unreached(),
            StandingsSource::Overall { list } => list.finish(),
            StandingsSource::Found { standings } => standings,
        };
        assert(standings.standings@ =~= self.collected());
        write_standings(self.event_name.as_str(), self.round_number, &standings)
    }
}

/// The cells of one player's line.
fn standing_row(standing: &StandingsResult) -> (row: Vec<String>)
    ensures
        views(row@) == standing_cells(*standing),
{
    let mut row: Vec<String> = Vec::new();
    row.push(decimal_text(standing.rank as u64));
    row.push(standing.user_event_status.best_identifier.clone());
    row.push(standing.record.clone());
    row.push(legend_or(&standing.user_event_status.deck_defining_card, "UNKNOWN LEGEND"));
    assert(views(row@) =~= standing_cells(*standing));
    row
}

/// The answer for the standings of an event after a round.
pub fn write_standings(event_name: &str, round_number: u32, standings: &Standings) -> (reply: String)
    ensures
        reply@ == standings_reply(event_name@, round_number, standings.standings@),
        is_aligned(standings_headers(), standings_rows(standings.standings@)),
{
    let mut headers: Vec<String> = Vec::new();
    headers.push("#".to_owned());
    headers.push("Player".to_owned());
    headers.push("Record".to_owned());
    headers.push("Legend".to_owned());
    assert(views(headers@) =~= standings_headers());
    let mut rows: Vec<Vec<String>> = Vec::new();
    let mut i: usize = 0;
    while i < standings.standings.len()
        invariant
            i <= standings.standings.len(),
            rows@.len() == i,
            forall|j: int|
                0 <= j < i ==> views(#[trigger] rows@[j]@) == standing_cells(
                    standings.standings@[j],
                ),
        decreases standings.standings.len() - i,
    {
        rows.push(standing_row(&standings.standings[i]));
        i += 1;
    }
    assert(row_views(rows@) =~= standings_rows(standings.standings@));
    let table = make_table(&headers, &rows);
    "# ".to_owned().concat(event_name).concat("\nStandings as of round ").concat(
        decimal_text(round_number as u64).as_str(),
    ).concat("```\n").concat(table.as_str()).concat("\n```")
}

/// The standings are about one round of the event, round `at.1` of phase `at.0`.  Its status is
/// complete and its phase is complete or in progress; no later round of the phase is complete,
/// nor is any round of a later phase that is complete or in progress.  Only where no such phase
/// has a complete round are there no standings.
pub proof fn law_standings_are_of_the_last_complete_round(event: Event) -> (at: (int, int))
    ensures
        match standings_round(event) {
            Ok(round) => {
                let phases = event.tournament_phases@;
                &&& 0 <= at.0 < phases.len()
                &&& 0 <= at.1 < phases[at.0].rounds@.len()
                &&& round == phases[at.0].rounds@[at.1]
                &&& round.status is Complete
                &&& phases[at.0].status is Complete || phases[at.0].status is InProgress
                &&& forall|k: int|
                    at.1 < k < event.tournament_phases@[at.0].rounds@.len() ==> !((
                    #[trigger] event.tournament_phases@[at.0].rounds@[k]).status is Complete)
                &&& forall|i: int, k: int|
                    at.0 < i < event.tournament_phases@.len() && 0 <= k
                        < event.tournament_phases@[i].rounds@.len() && (
                    event.tournament_phases@[i].status is Complete
                        || event.tournament_phases@[i].status is InProgress) ==> !((
                    #[trigger] event.tournament_phases@[i].rounds@[k]).status is Complete)
            },
            Err(e) => {
                &&& e == CommandError::NoPhase
                &&& forall|i: int, k: int|
                    0 <= i < event.tournament_phases@.len() && 0 <= k
                        < event.tournament_phases@[i].rounds@.len() && (
                    event.tournament_phases@[i].status is Complete
                        || event.tournament_phases@[i].status is InProgress) ==> !((
                    #[trigger] event.tournament_phases@[i].rounds@[k]).status is Complete)
            },
        },
{
    law_standings_round_is_latest(event);
    let phases = event.tournament_phases@;
    assert forall|i: int, k: int|
        0 <= i < phases.len() && 0 <= k < phases[i].rounds@.len() && (phases[i].status is Complete
            || phases[i].status is InProgress) && (
        #[trigger] phases[i].rounds@[k]).status is Complete implies is_candidate(phases[i]) by {
        assert(is_complete(phases[i].rounds@[k]));
    }
    match standings_round(event) {
        Ok(round) => {
            let (i, j) = choose|i: int, j: int| is_latest_at(event, round, i, j);
            assert forall|k: int|
                j < k < event.tournament_phases@[i].rounds@.len() implies !((
            #[trigger] event.tournament_phases@[i].rounds@[k]).status is Complete) by {
                assert(!is_complete(event.tournament_phases@[i].rounds@[k]));
            }
            (i, j)
        },
        Err(_) => (0, 0),
    }
}

/// As many players are shown as are asked for, and twenty where nothing is asked for.
pub proof fn law_count_is_what_was_asked_for(count: usize)
    ensures
        shown_count(Some(count)) == count,
        shown_count(None) == 20,
{
}

/// A player's line shows the rank, which reads back from its cell, and then the name, the record
/// and the legend of that player.
pub proof fn law_line_shows_the_standing(standing: StandingsResult)
    ensures
        ({
            let cells = standing_cells(standing);
            &&& cells.len() == 4
            &&& number_in(cells[0]) == Some(standing.rank as nat)
            &&& cells[0][0] != '+'
            &&& cells[0][0] == '0' ==> cells[0].len() == 1
            &&& cells[1] == standing.user_event_status.best_identifier@
            &&& cells[2] == standing.record@
            &&& match standing.user_event_status.deck_defining_card {
                Some(card) => cells[3] == card.name@,
                None => cells[3] == "UNKNOWN LEGEND"@,
            }
        }),
{
    law_decimal_reads_back(standing.rank as nat);
    law_decimal_is_short(standing.rank as nat);
}

/// Every standing has its line, in the order in which they came in, and there is no other line.
pub proof fn law_every_standing_has_its_line(standings: Seq<StandingsResult>)
    ensures
        standings_rows(standings).len() == standings.len(),
        forall|i: int|
            0 <= i < standings.len() ==> #[trigger] standings_rows(standings)[i] == standing_cells(
                standings[i],
            ),
{
}

/// The answer names the event and the round, and then shows a table whose columns are told by the
/// header: for each standing, in order, the rank, the player, the record and the legend.
pub proof fn law_standings_answer_shows_everything(
    event_name: Seq<char>,
    round_number: u32,
    standings: Seq<StandingsResult>,
)
    ensures
        ({
            let lines = standings.map_values(
                |standing: StandingsResult|
                    decimal(standing.rank as nat) + seq!['\t']
                        + standing.user_event_status.best_identifier@ + seq!['\t']
                        + standing.record@ + seq!['\t'] + (
                    match standing.user_event_status.deck_defining_card {
                        Some(card) => card.name@,
                        None => "UNKNOWN LEGEND"@,
                    }) + seq!['\n'],
            );
            let text = "#\tPlayer\tRecord\tLegend\n"@ + lines.flatten();
            standings_reply(event_name, round_number, standings) == "# "@ + event_name
                + "\nStandings as of round "@ + decimal(round_number as nat) + "```\n"@ + framed(
                tab_aligned(text, 2),
            ) + "\n```"@
        }),
{
    let headers = standings_headers();
    let rows = standings_rows(standings);
    let written = |row: Seq<Seq<char>>| row_text(row);
    let lines = standings.map_values(
        |standing: StandingsResult|
            decimal(standing.rank as nat) + seq!['\t']
                + standing.user_event_status.best_identifier@ + seq!['\t'] + standing.record@ + seq![
                '\t',
            ] + (match standing.user_event_status.deck_defining_card {
                Some(card) => card.name@,
                None => "UNKNOWN LEGEND"@,
            }) + seq!['\n'],
    );
    law_table_holds_every_row(headers, rows);
    assert forall|i: int| 0 <= i < standings.len() implies #[trigger] lines[i] == row_text(
        rows[i],
    ) by {
        let cells = standing_cells(standings[i]);
        lemma_four_cells(cells[0], cells[1], cells[2], cells[3]);
        assert(seq![cells[0], cells[1], cells[2], cells[3]] =~= cells);
    }
    assert((seq![headers] + rows).map_values(written) =~= seq![row_text(headers)] + lines);
    lemma_header_line();
    assert((seq![row_text(headers)] + lines).drop_first() =~= lines);
}

proof fn lemma_header_line()
    ensures
        row_text(standings_headers()) == "#\tPlayer\tRecord\tLegend\n"@,
{
    reveal_strlit("#");
    reveal_strlit("Player");
    reveal_strlit("Record");
    reveal_strlit("Legend");
    reveal_strlit("#\tPlayer\tRecord\tLegend\n");
    lemma_four_cells("#"@, "Player"@, "Record"@, "Legend"@);
    assert(row_text(standings_headers()) =~= "#\tPlayer\tRecord\tLegend\n"@);
}

/// The round in the answer reads back, between what stands before it and the start of the table.
pub proof fn law_answer_names_its_round(
    event_name: Seq<char>,
    round_number: u32,
    standings: Seq<StandingsResult>,
) -> (end: int)
    ensures
        ({
            let reply = standings_reply(event_name, round_number, standings);
            let start = (event_name.len() + 25) as int;
            &&& start < end < reply.len()
            &&& reply.take(start) == "# "@ + event_name + "\nStandings as of round "@
            &&& number_in(reply.subrange(start, end)) == Some(round_number as nat)
            &&& reply[end] == '`'
        }),
{
    let reply = standings_reply(event_name, round_number, standings);
    let head = "# "@ + event_name + "\nStandings as of round "@;
    let number = decimal(round_number as nat);
    reveal_strlit("# ");
    reveal_strlit("\nStandings as of round ");
    reveal_strlit("```\n");
    law_decimal_reads_back(round_number as nat);
    let start = head.len() as int;
    let end = start + number.len();
    assert(reply.take(start) =~= head);
    assert(reply.subrange(start, end) =~= number);
    law_decimal_is_short(round_number as nat);
    end
}

/// A command asks for the one page about its player, or for the next page of its list, and for
/// nothing once that has come in; it holds what has come in.
pub proof fn law_command_asks_for_its_page(run: StandingsRun)
    ensures
        match run.source {
            StandingsSource::OfPlayer { url } => run.wanted() == Some(url@)
                && run.collected().len() == 0,
            StandingsSource::Overall { list } => {
                &&& run.collected() == list@.pages.flatten()
                &&& match list@.next_page {
                    Some(page) => run.wanted() == Some(
                        standings_address(list@.id, list@.page_size() as usize, page, None),
                    ),
                    None => run.wanted() is None,
                }
            },
            StandingsSource::Found { standings } => run.wanted() is None && run.collected()
                == standings.standings@,
        },
{
}

} // verus!
