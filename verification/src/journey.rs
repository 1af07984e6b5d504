//! A player's way through an event.
use crate::model::{
    legend_name, legend_or, Event, Match, MatchResult, MatchResultCompleted, PaginationResult,
    PhaseRound, PlayerMatchRelationship, TournamentPhase,
};
use crate::standings::{is_complete, is_complete_round};
use crate::table::{
    framed, is_aligned, law_table_holds_every_row, lemma_four_cells, make_table, row_text,
    row_views, tab_aligned, table_of,
};
use crate::text::{
    decimal, decimal_text, law_decimal_is_short, law_decimal_reads_back, number_in, views,
};
use crate::urls::{matches_address, matches_url};
use vstd::prelude::*;

verus! {

/// The complete rounds of a phase, in order.
pub open spec fn complete_in(rounds: Seq<PhaseRound>) -> Seq<u32>
    decreases rounds.len(),
{
    if rounds.len() == 0 {
        Seq::empty()
    } else if is_complete(rounds.last()) {
        complete_in(rounds.drop_last()).push(rounds.last().id)
    } else {
        complete_in(rounds.drop_last())
    }
}

/// The complete rounds of an event, phase by phase.
pub open spec fn complete_rounds(phases: Seq<TournamentPhase>) -> Seq<u32>
    decreases phases.len(),
{
    if phases.len() == 0 {
        Seq::empty()
    } else {
        complete_rounds(phases.drop_last()) + complete_in(phases.last().rounds@)
    }
}

/// The complete rounds of an event, in the order in which they are played.
pub fn find_complete_rounds(event: &Event) -> (found: Vec<u32>)
    ensures
        found@ == complete_rounds(event.tournament_phases@),
{
    let mut found: Vec<u32> = Vec::new();
    let phases = &event.tournament_phases;
    let mut i: usize = 0;
    assert(phases@.take(0) =~= Seq::empty());
    while i < phases.len()
        invariant
            i <= phases.len(),
            found@ == complete_rounds(phases@.take(i as int)),
        decreases phases.len() - i,
    {
        let rounds = &phases[i].rounds;
        let ghost before = found@;
        let mut j: usize = 0;
        assert(rounds@.take(0) =~= Seq::empty());
        assert(found@ =~= before + complete_in(rounds@.take(0)));
        while j < rounds.len()
            invariant
                j <= rounds.len(),
                found@ == before + complete_in(rounds@.take(j as int)),
            decreases rounds.len() - j,
        {
            assert(rounds@.take(j + 1).drop_last() =~= rounds@.take(j as int));
            if is_complete_round(&rounds[j]) {
                found.push(rounds[j].id);
            }
            assert(found@ =~= before + complete_in(rounds@.take(j + 1)));
            j += 1;
        }
        assert(rounds@.take(j as int) =~= rounds@);
        assert(phases@.take(i + 1).drop_last() =~= phases@.take(i as int));
        i += 1;
    }
    assert(phases@.take(i as int) =~= phases@);
    found
}

pub open spec fn is_bye(result: Match) -> bool {
    result.results == MatchResult::Complete(MatchResultCompleted::Bye)
}

/// The player has the first seat of the match.
pub open spec fn is_first(result: Match, player: Seq<char>) -> bool {
    result.player_match_relationships@[0].user_event_status.best_identifier@ == player
}

/// The match tells whom the player met: it is a bye, or it has a seat for the opponent.
pub open spec fn has_opponent(result: Match, player: Seq<char>) -> bool {
    is_bye(result) || {
        let seats = result.player_match_relationships@;
        seats.len() >= 1 && (is_first(result, player) ==> seats.len() >= 2)
    }
}

/// The player's opponent: the second seat where the first is the player's own, else the first.
pub open spec fn opponent(result: Match, player: Seq<char>) -> PlayerMatchRelationship {
    if is_first(result, player) {
        result.player_match_relationships@[1]
    } else {
        result.player_match_relationships@[0]
    }
}

/// The score of a match against an opponent, the player's own games first.
pub open spec fn record_text(result: MatchResult, opponent_id: u32) -> Seq<char> {
    match result {
        MatchResult::Complete(MatchResultCompleted::Tie { .. }) => "TIE"@,
        MatchResult::Complete(
            MatchResultCompleted::Win {
                games_won_by_winner,
                games_won_by_loser,
                winning_player,
                ..
            },
        ) => if opponent_id == winning_player {
            decimal(games_won_by_loser as nat) + ":"@ + decimal(games_won_by_winner as nat)
                + " (L)"@
        } else {
            decimal(games_won_by_winner as nat) + ":"@ + decimal(games_won_by_loser as nat)
                + " (W)"@
        },
        _ => "?"@,
    }
}

/// The line of the `index`-th match, counted from zero.
pub open spec fn journey_cells(index: int, result: Match, player: Seq<char>) -> Seq<Seq<char>> {
    let number = decimal((index + 1) as nat);
    if is_bye(result) {
        seq![number, "BYE"@, "-"@, "-"@]
    } else {
        let opp = opponent(result, player);
        seq![
            number,
            record_text(result.results, opp.user_event_status.user.id),
            opp.user_event_status.best_identifier@,
            legend_name(opp.user_event_status.deck_defining_card, "-"@),
        ]
    }
}

pub open spec fn journey_headers() -> Seq<Seq<char>> {
    seq!["Round"@, "Record"@, "Opponent"@, "Legend"@]
}

pub open spec fn journey_rows(found: Seq<Match>, player: Seq<char>) -> Seq<Seq<Seq<char>>> {
    found.map(|i: int, result: Match| journey_cells(i, result, player))
}

/// What the bot answers: whose journey it is, and a table of the matches.
pub open spec fn journey_reply(player: Seq<char>, found: Seq<Match>) -> Seq<char> {
    "# "@ + player + "'s Journey\n```\n"@ + table_of(
        journey_headers(),
        journey_rows(found, player),
    ) + "\n```"@
}

fn is_bye_match(result: &Match) -> (bye: bool)
    ensures
        bye == is_bye(*result),
{
    match result.results {
        MatchResult::Complete(MatchResultCompleted::Bye) => true,
        _ => false,
    }
}

/// Whether the match tells whom the player met.
pub fn knows_opponent(result: &Match, player: &String) -> (known: bool)
    ensures
        known == has_opponent(*result, player@),
{
    if is_bye_match(result) {
        return true;
    }
    let seats = &result.player_match_relationships;
    if seats.len() == 0 {
        return false;
    }
    seats.len() >= 2 || !(seats[0].user_event_status.best_identifier == *player)
}

/// The score of a match against an opponent.
pub fn write_record(result: &MatchResult, opponent_id: u32) -> (record: String)
    ensures
        record@ == record_text(*result, opponent_id),
{
    match result {
        MatchResult::Complete(MatchResultCompleted::Tie { .. }) => "TIE".to_owned(),
        MatchResult::Complete(
            MatchResultCompleted::Win {
                games_won_by_winner,
                games_won_by_loser,
                winning_player,
                ..
            },
        ) => {
            let winner = decimal_text(*games_won_by_winner as u64);
            let loser = decimal_text(*games_won_by_loser as u64);
            if opponent_id == *winning_player {
                loser.concat(":").concat(winner.as_str()).concat(" (L)")
            } else {
                winner.concat(":").concat(loser.as_str()).concat(" (W)")
            }
        },
        _ => "?".to_owned(),
    }
}

/// The line of a match.
pub fn journey_row(index: usize, result: &Match, player: &String) -> (row: Vec<String>)
    requires
        has_opponent(*result, player@),
        index < usize::MAX,
    ensures
        views(row@) == journey_cells(index as int, *result, player@),
{
    let mut row: Vec<String> = Vec::new();
    row.push(decimal_text((index + 1) as u64));
    if is_bye_match(result) {
        row.push("BYE".to_owned());
        row.push("-".to_owned());
        row.push("-".to_owned());
    } else {
        let seats = &result.player_match_relationships;
        let opp = if seats[0].user_event_status.best_identifier == *player {
            &seats[1]
        } else {
            &seats[0]
        };
        row.push(write_record(&result.results, opp.user_event_status.user.id));
        row.push(opp.user_event_status.best_identifier.clone());
        row.push(legend_or(&opp.user_event_status.deck_defining_card, "-"));
    }
    assert(views(row@) =~= journey_cells(index as int, *result, player@));
    row
}

/// A journey that is being collected.
pub ghost struct Travelled {
    pub player: Seq<char>,
    /// The rounds to ask about.
    pub rounds: Seq<u32>,
    /// How many of them have been answered.
    pub answered: nat,
    /// The player's matches, in the order of the rounds.
    pub found: Seq<Match>,
}

impl Travelled {
    pub open spec fn starting(event: Event, player: Seq<char>) -> Self {
        Travelled {
            player,
            rounds: complete_rounds(event.tournament_phases@),
            answered: 0,
            found: Seq::empty(),
        }
    }

    /// The address of the player's match in the next round, if a round is left.
    pub open spec fn wanted(self) -> Option<Seq<char>> {
        if self.answered < self.rounds.len() {
            Some(matches_address(self.rounds[self.answered as int], 1, 1, Some(self.player)))
        } else {
            None
        }
    }

    /// The journey after one more round.  A round in which the player had no match is left out.
    pub open spec fn accepting(self, results: Seq<Match>) -> Self {
        Travelled {
            answered: self.answered + 1,
            found: if results.len() > 0 {
                self.found.push(results[0])
            } else {
                self.found
            },
            ..self
        }
    }

    /// Every match tells whom the player met.
    pub open spec fn has_opponents(self) -> bool {
        forall|i: int|
            0 <= i < self.found.len() ==> has_opponent(#[trigger] self.found[i], self.player)
    }
}

/// The command that shows a player's journey, while it collects the matches.
pub struct JourneyRun {
    player: String,
    rounds: Vec<u32>,
    answered: usize,
    found: Vec<Match>,
}

impl View for JourneyRun {
    type V = Travelled;

    closed spec fn view(&self) -> Travelled {
        Travelled {
            player: self.player@,
            rounds: self.rounds@,
            answered: self.answered as nat,
            found: self.found@,
        }
    }
}

impl JourneyRun {
    /// Starts the command for a player of an event.
    pub fn begin(event: &Event, player: &str) -> (run: Self)
        ensures
            run@ == Travelled::starting(*event, player@),
    {
        JourneyRun {
            player: player.to_owned(),
            rounds: find_complete_rounds(event),
            answered: 0,
            found: Vec::new(),
        }
    }

    /// The address of the page to fetch next; none once every round has been answered.
    pub fn next_url(&self) -> (url: Option<String>)
        ensures
            match self@.wanted() {
                Some(address) => url matches Some(text) && text@ == address,
                None => url is None,
            },
    {
        if self.answered < self.rounds.len() {
            let round = self.rounds[self.answered];
            Some(matches_url(round, 1, 1, Some(self.player.as_str())))
        } else {
            None
        }
    }

    /// Takes in the page that was fetched.
    pub fn accept(self, page: PaginationResult<Match>) -> (run: Self)
        requires
            self@.wanted() is Some,
        ensures
            run@ == self@.accepting(page.results@),
    {
        assert(self.answered < self.rounds.len());
        let mut found = self.found;
        let mut results = page.results;
        if results.len() > 0 {
            found.push(results.remove(0));
        }
        JourneyRun { player: self.player, rounds: self.rounds, answered: self.answered + 1, found }
    }

    /// Whether every match tells whom the player met.
    pub fn knows_opponents(&self) -> (known: bool)
        ensures
            known == self@.has_opponents(),
    {
        let mut i: usize = 0;
        while i < self.found.len()
            invariant
                i <= self.found.len(),
                forall|j: int|
                    0 <= j < i ==> has_opponent(#[trigger] self@.found[j], self@.player),
            decreases self.found.len() - i,
        {
            if !knows_opponent(&self.found[i], &self.player) {
                assert(!has_opponent(self@.found[i as int], self@.player));
                return false;
            }
            i += 1;
        }
        true
    }

    /// The answer, once every round has been answered.
    pub fn reply(self) -> (reply: String)
        requires
            self@.wanted() is None,
            self@.has_opponents(),
        ensures
            reply@ == journey_reply(self@.player, self@.found),
            is_aligned(journey_headers(), journey_rows(self@.found, self@.player)),
    {
        let mut headers: Vec<String> = Vec::new();
        headers.push("Round".to_owned());
        headers.push("Record".to_owned());
        headers.push("Opponent".to_owned());
        headers.push("Legend".to_owned());
        assert(views(headers@) =~= journey_headers());
        let mut rows: Vec<Vec<String>> = Vec::new();
        let mut i: usize = 0;
        while i < self.found.len()
            invariant
                i <= self.found.len(),
                rows@.len() == i,
                self@.has_opponents(),
                forall|j: int|
                    0 <= j < i ==> views(#[trigger] rows@[j]@) == journey_cells(
                        j,
                        self@.found[j],
                        self@.player,
                    ),
            decreases self.found.len() - i,
        {
            assert(has_opponent(self@.found[i as int], self@.player));
            rows.push(journey_row(i, &self.found[i], &self.player));
            i += 1;
        }
        assert(row_views(rows@) =~= journey_rows(self@.found, self@.player));
        let table = make_table(&headers, &rows);
        "# ".to_owned().concat(self.player.as_str()).concat("'s Journey\n```\n").concat(
            table.as_str(),
        ).concat("\n```")
    }
}

/// A journey that takes in the given replies, one for each round.
pub open spec fn travelling(journey: Travelled, replies: Seq<Seq<Match>>) -> Travelled
    decreases replies.len(),
{
    if replies.len() == 0 {
        journey
    } else {
        travelling(journey, replies.drop_last()).accepting(replies.last())
    }
}

/// The first match of every reply that has one.
pub open spec fn first_matches(replies: Seq<Seq<Match>>) -> Seq<Match> {
    replies.filter(|results: Seq<Match>| results.len() > 0).map_values(
        |results: Seq<Match>| results[0],
    )
}

/// Whatever the service replies, a journey asks about each complete round of the event once, in
/// order, and shows the first match of every reply that has one, in the same order.
pub proof fn law_journey_is_what_came_in(event: Event, player: Seq<char>, replies: Seq<Seq<Match>>)
    ensures
        ({
            let journey = travelling(Travelled::starting(event, player), replies);
            let rounds = complete_rounds(event.tournament_phases@);
            &&& journey.player == player
            &&& journey.rounds == rounds
            &&& journey.found == first_matches(replies)
            &&& journey.wanted() == if replies.len() < rounds.len() {
                Some(matches_address(rounds[replies.len() as int], 1, 1, Some(player)))
            } else {
                None
            }
        }),
    decreases replies.len(),
{
    let kept = |results: Seq<Match>| results.len() > 0;
    let first = |results: Seq<Match>| results[0];
    lemma_answered(Travelled::starting(event, player), replies);
    reveal(Seq::filter);
    if replies.len() == 0 {
        assert(first_matches(replies) =~= Seq::empty());
    } else {
        law_journey_is_what_came_in(event, player, replies.drop_last());
        assert(replies.filter(kept) == if kept(replies.last()) {
            replies.drop_last().filter(kept).push(replies.last())
        } else {
            replies.drop_last().filter(kept)
        });
        if kept(replies.last()) {
            assert(first_matches(replies) =~= first_matches(replies.drop_last()).push(
                replies.last()[0],
            ));
        }
    }
}

proof fn lemma_answered(journey: Travelled, replies: Seq<Seq<Match>>)
    ensures
        travelling(journey, replies).answered == journey.answered + replies.len(),
    decreases replies.len(),
{
    if replies.len() > 0 {
        lemma_answered(journey, replies.drop_last());
    }
}

/// The two players of a match with a winner see it from both sides: the winner's record is a
/// win, the loser's is a loss, and each puts the own games first.
pub proof fn law_record_has_two_sides(
    index: int,
    result: Match,
    winner: Seq<char>,
    loser: Seq<char>,
)
    requires
        result.player_match_relationships@.len() == 2,
        winner != loser,
        result.results matches MatchResult::Complete(outcome) && outcome is Win,
        ({
            let first = result.player_match_relationships@[0].user_event_status;
            let second = result.player_match_relationships@[1].user_event_status;
            let won_by = result.results->Complete_0->winning_player;
            &&& first.user.id != second.user.id
            &&& ({
                &&& first.best_identifier@ == winner
                &&& second.best_identifier@ == loser
                &&& first.user.id == won_by
            }) || ({
                &&& first.best_identifier@ == loser
                &&& second.best_identifier@ == winner
                &&& second.user.id == won_by
            })
        }),
    ensures
        ({
            let more = decimal(result.results->Complete_0->Win_games_won_by_winner as nat);
            let fewer = decimal(result.results->Complete_0->Win_games_won_by_loser as nat);
            &&& journey_cells(index, result, winner)[1] == more + ":"@ + fewer + " (W)"@
            &&& journey_cells(index, result, winner)[2] == loser
            &&& journey_cells(index, result, loser)[1] == fewer + ":"@ + more + " (L)"@
            &&& journey_cells(index, result, loser)[2] == winner
        }),
{
}

proof fn lemma_complete_in(rounds: Seq<PhaseRound>)
    ensures
        complete_in(rounds) == rounds.filter(
            |round: PhaseRound| round.status is Complete,
        ).map_values(|round: PhaseRound| round.id),
    decreases rounds.len(),
{
    let complete = |round: PhaseRound| round.status is Complete;
    let number = |round: PhaseRound| round.id;
    reveal(Seq::filter);
    if rounds.len() > 0 {
        let front = rounds.drop_last();
        lemma_complete_in(front);
        if complete(rounds.last()) {
            assert(rounds.filter(complete) == front.filter(complete).push(rounds.last()));
            assert(rounds.filter(complete).map_values(number) =~= front.filter(
                complete,
            ).map_values(number).push(rounds.last().id));
        } else {
            assert(rounds.filter(complete) == front.filter(complete));
        }
    } else {
        assert(rounds.filter(complete).map_values(number) =~= Seq::empty());
    }
}

/// A journey goes through all phases of an event in order, of whatever kind and status they are,
/// and in each through every round whose status is complete, and through no other.
pub proof fn law_journey_goes_through_every_complete_round(phases: Seq<TournamentPhase>)
    ensures
        complete_rounds(phases) == phases.map_values(
            |phase: TournamentPhase|
                phase.rounds@.filter(|round: PhaseRound| round.status is Complete).map_values(
                    |round: PhaseRound| round.id,
                ),
        ).flatten(),
    decreases phases.len(),
{
    let played = |phase: TournamentPhase|
        phase.rounds@.filter(|round: PhaseRound| round.status is Complete).map_values(
            |round: PhaseRound| round.id,
        );
    if phases.len() > 0 {
        let front = phases.drop_last();
        law_journey_goes_through_every_complete_round(front);
        lemma_complete_in(phases.last().rounds@);
        front.map_values(played).lemma_flatten_push(played(phases.last()));
        assert(phases.map_values(played) =~= front.map_values(played).push(
            played(phases.last()),
        ));
    } else {
        assert(phases.map_values(played) =~= Seq::empty());
    }
}

proof fn lemma_round_is_found(rounds: Seq<PhaseRound>, j: int)
    requires
        0 <= j < rounds.len(),
        is_complete(rounds[j]),
    ensures
        complete_in(rounds).contains(rounds[j].id),
    decreases rounds.len(),
{
    let front = complete_in(rounds.drop_last());
    if j < rounds.len() - 1 {
        lemma_round_is_found(rounds.drop_last(), j);
        let k = choose|k: int| 0 <= k < front.len() && front[k] == rounds[j].id;
        assert(complete_in(rounds)[k] == rounds[j].id);
    } else {
        assert(complete_in(rounds)[front.len() as int] == rounds[j].id);
    }
}

/// No complete round is left out of a journey, wherever in the event it stands.
pub proof fn law_no_complete_round_is_left_out(phases: Seq<TournamentPhase>, i: int, j: int)
    requires
        0 <= i < phases.len(),
        0 <= j < phases[i].rounds@.len(),
        phases[i].rounds@[j].status is Complete,
    ensures
        complete_rounds(phases).contains(phases[i].rounds@[j].id),
    decreases phases.len(),
{
    let front = complete_rounds(phases.drop_last());
    let last = complete_in(phases.last().rounds@);
    let id = phases[i].rounds@[j].id;
    if i < phases.len() - 1 {
        law_no_complete_round_is_left_out(phases.drop_last(), i, j);
        let k = choose|k: int| 0 <= k < front.len() && front[k] == id;
        assert(complete_rounds(phases)[k] == id);
    } else {
        lemma_round_is_found(phases[i].rounds@, j);
        let k = choose|k: int| 0 <= k < last.len() && last[k] == id;
        assert(complete_rounds(phases)[front.len() + k] == id);
    }
}

/// A journey starts with the complete rounds of its event and nothing found.
pub proof fn law_journey_starts_with_nothing_found(event: Event, player: Seq<char>)
    ensures
        ({
            let journey = Travelled::starting(event, player);
            &&& journey.player == player
            &&& journey.rounds == complete_rounds(event.tournament_phases@)
            &&& journey.answered == 0
            &&& journey.found.len() == 0
        }),
{
}

/// A journey asks for one match of its player in the first round that has not been answered, and
/// for nothing once all rounds have been.  An answer that holds matches adds the first of them
/// behind those found before, and one that holds none adds nothing.
pub proof fn law_journey_takes_one_match_of_a_round(journey: Travelled, results: Seq<Match>)
    ensures
        ({
            let after = journey.accepting(results);
            &&& after.player == journey.player
            &&& after.rounds == journey.rounds
            &&& after.answered == journey.answered + 1
            &&& results.len() == 0 ==> after.found == journey.found
            &&& results.len() > 0 ==> after.found == journey.found.push(results[0])
        }),
        journey.answered < journey.rounds.len() ==> journey.wanted() == Some(
            matches_address(journey.rounds[journey.answered as int], 1, 1, Some(journey.player)),
        ),
        journey.answered >= journey.rounds.len() ==> journey.wanted() is None,
        journey.has_opponents() <==> forall|i: int|
            0 <= i < journey.found.len() ==> has_opponent(
                #[trigger] journey.found[i],
                journey.player,
            ),
{
}

/// The replies to a journey are taken one by one, and those without a match are left out.
pub proof fn law_replies_are_taken_one_by_one(
    journey: Travelled,
    replies: Seq<Seq<Match>>,
    reply: Seq<Match>,
)
    ensures
        travelling(journey, Seq::empty()) == journey,
        travelling(journey, replies.push(reply)) == travelling(journey, replies).accepting(reply),
        first_matches(Seq::empty()).len() == 0,
        first_matches(replies.push(reply)) == if reply.len() > 0 {
            first_matches(replies).push(reply[0])
        } else {
            first_matches(replies)
        },
{
    let kept = |results: Seq<Match>| results.len() > 0;
    let first = |results: Seq<Match>| results[0];
    reveal(Seq::filter);
    assert(replies.push(reply).drop_last() =~= replies);
    assert(replies.push(reply).filter(kept) == if kept(reply) {
        replies.filter(kept).push(reply)
    } else {
        replies.filter(kept)
    });
    if kept(reply) {
        assert(replies.filter(kept).push(reply).map_values(first) =~= replies.filter(
            kept,
        ).map_values(first).push(reply[0]));
    }
    assert(first_matches(Seq::empty()) =~= Seq::empty());
}

/// The score of a match that somebody won puts the player's own games first, and marks whether
/// the opponent won it or not; both numbers of games read back.  A tie is told as such, and of a
/// match that is not over nothing is told.
pub proof fn law_record_tells_the_score(result: MatchResult, opponent_id: u32) -> (colon: int)
    ensures
        ({
            let record = record_text(result, opponent_id);
            match result {
                MatchResult::Complete(
                    MatchResultCompleted::Win {
                        games_drawn,
                        games_won_by_winner,
                        games_won_by_loser,
                        winning_player,
                    },
                ) => {
                    let lost = opponent_id == winning_player;
                    let own = if lost {
                        games_won_by_loser
                    } else {
                        games_won_by_winner
                    };
                    let others = if lost {
                        games_won_by_winner
                    } else {
                        games_won_by_loser
                    };
                    let end = record.len() - 4;
                    &&& 0 < colon < end - 1
                    &&& number_in(record.take(colon)) == Some(own as nat)
                    &&& record.take(colon) == decimal(own as nat)
                    &&& record[colon] == ':'
                    &&& number_in(record.subrange(colon + 1, end)) == Some(others as nat)
                    &&& record.subrange(colon + 1, end) == decimal(others as nat)
                    &&& record.skip(end) == if lost {
                        " (L)"@
                    } else {
                        " (W)"@
                    }
                },
                MatchResult::Complete(
                    MatchResultCompleted::Tie {
                        games_drawn,
                        games_won_by_winner,
                        games_won_by_loser,
                        match_is_intentional_draw,
                        match_is_unintentional_draw,
                    },
                ) => record == "TIE"@,
                _ => record == "?"@,
            }
        }),
{
    let record = record_text(result, opponent_id);
    reveal_strlit(":");
    reveal_strlit(" (L)");
    reveal_strlit(" (W)");
    match result {
        MatchResult::Complete(
            MatchResultCompleted::Win {
                games_drawn,
                games_won_by_winner,
                games_won_by_loser,
                winning_player,
            },
        ) => {
            let lost = opponent_id == winning_player;
            let own = if lost {
                games_won_by_loser
            } else {
                games_won_by_winner
            };
            let others = if lost {
                games_won_by_winner
            } else {
                games_won_by_loser
            };
            let a = decimal(own as nat);
            let b = decimal(others as nat);
            law_decimal_reads_back(own as nat);
            law_decimal_reads_back(others as nat);
            law_decimal_is_short(own as nat);
            law_decimal_is_short(others as nat);
            let mark = if lost {
                " (L)"@
            } else {
                " (W)"@
            };
            assert(record == a + ":"@ + b + mark);
            assert(record.take(a.len() as int) =~= a);
            assert(record.subrange(a.len() as int + 1, record.len() - 4) =~= b);
            assert(record.skip(record.len() - 4) =~= mark);
            a.len() as int
        },
        _ => 0,
    }
}

/// A match tells whom the player met where it is a bye, or where somebody else has the first of
/// its seats, or where there is a second seat.
pub proof fn law_opponent_needs_a_seat(result: Match, player: Seq<char>)
    ensures
        ({
            let seats = result.player_match_relationships@;
            has_opponent(result, player) <==> {
                ||| result.results matches MatchResult::Complete(outcome) && outcome is Bye
                ||| seats.len() >= 2
                ||| seats.len() == 1 && seats[0].user_event_status.best_identifier@ != player
            }
        }),
{
}

/// A line of a journey starts with its number, counted from one, which reads back.  A bye has no
/// opponent.  Any other match names the one whose seat is not the player's: the second seat where
/// the first is the player's own, and else the first; the score, the name and the legend are that
/// opponent's.
pub proof fn law_line_shows_the_match(index: nat, result: Match, player: Seq<char>)
    ensures
        ({
            let cells = journey_cells(index as int, result, player);
            let seats = result.player_match_relationships@;
            &&& cells.len() == 4
            &&& number_in(cells[0]) == Some(index + 1)
            &&& cells[0] == decimal(index + 1)
            &&& if result.results matches MatchResult::Complete(outcome) && outcome is Bye {
                cells[1] == "BYE"@ && cells[2] == "-"@ && cells[3] == "-"@
            } else {
                let met = if seats[0].user_event_status.best_identifier@ == player {
                    seats[1].user_event_status
                } else {
                    seats[0].user_event_status
                };
                &&& cells[1] == record_text(result.results, met.user.id)
                &&& cells[2] == met.best_identifier@
                &&& match met.deck_defining_card {
                    Some(card) => cells[3] == card.name@,
                    None => cells[3] == "-"@,
                }
            }
        }),
{
    law_decimal_reads_back(index + 1);
}

/// Every match that was found has its line, in order, and there is no other line.
pub proof fn law_every_match_has_its_line(found: Seq<Match>, player: Seq<char>)
    ensures
        journey_rows(found, player).len() == found.len(),
        forall|i: int|
            0 <= i < found.len() ==> #[trigger] journey_rows(found, player)[i] == journey_cells(
                i,
                found[i],
                player,
            ),
{
}

/// The line of a match as it is written.
proof fn lemma_match_line(i: int, result: Match, player: Seq<char>)
    ensures
        ({
            let seats = result.player_match_relationships@;
            let met = if seats[0].user_event_status.best_identifier@ == player {
                seats[1].user_event_status
            } else {
                seats[0].user_event_status
            };
            row_text(journey_cells(i, result, player)) == decimal((i + 1) as nat) + (
            if result.results is Complete && result.results->Complete_0 is Bye {
                "\tBYE\t-\t-\n"@
            } else {
                seq!['\t'] + record_text(result.results, met.user.id) + seq!['\t']
                    + met.best_identifier@ + seq!['\t'] + (match met.deck_defining_card {
                    Some(card) => card.name@,
                    None => "-"@,
                }) + seq!['\n']
            })
        }),
{
    let cells = journey_cells(i, result, player);
    lemma_four_cells(cells[0], cells[1], cells[2], cells[3]);
    assert(seq![cells[0], cells[1], cells[2], cells[3]] =~= cells);
    let tab = seq!['\t'];
    let end = seq!['\n'];
    let rest = tab + cells[1] + tab + cells[2] + tab + cells[3] + end;
    assert(row_text(cells) =~= cells[0] + rest);
    if is_bye(result) {
        reveal_strlit("BYE");
        reveal_strlit("-");
        reveal_strlit("\tBYE\t-\t-\n");
        assert(rest =~= "\tBYE\t-\t-\n"@);
    }
}

/// The answer names the player, and then shows a table whose columns are told by the header: for
/// each match, in order, its number, the score, the opponent and the opponent's legend.
pub proof fn law_journey_answer_shows_everything(player: Seq<char>, found: Seq<Match>)
    ensures
        ({
            let lines = found.map(
                |i: int, result: Match|
                    {
                        let seats = result.player_match_relationships@;
                        let met = if seats[0].user_event_status.best_identifier@ == player {
                            seats[1].user_event_status
                        } else {
                            seats[0].user_event_status
                        };
                        decimal((i + 1) as nat) + (if result.results is Complete
                            && result.results->Complete_0 is Bye {
                            "\tBYE\t-\t-\n"@
                        } else {
                            seq!['\t'] + record_text(result.results, met.user.id) + seq!['\t']
                                + met.best_identifier@ + seq!['\t'] + (
                            match met.deck_defining_card {
                                Some(card) => card.name@,
                                None => "-"@,
                            }) + seq!['\n']
                        })
                    },
            );
            let text = "Round\tRecord\tOpponent\tLegend\n"@ + lines.flatten();
            journey_reply(player, found) == "# "@ + player + "'s Journey\n```\n"@ + framed(
                tab_aligned(text, 2),
            ) + "\n```"@
        }),
{
    let headers = journey_headers();
    let rows = journey_rows(found, player);
    let written = |row: Seq<Seq<char>>| row_text(row);
    let lines = found.map(
        |i: int, result: Match|
            {
                let seats = result.player_match_relationships@;
                let met = if seats[0].user_event_status.best_identifier@ == player {
                    seats[1].user_event_status
                } else {
                    seats[0].user_event_status
                };
                decimal((i + 1) as nat) + (if result.results is Complete
                    && result.results->Complete_0 is Bye {
                    "\tBYE\t-\t-\n"@
                } else {
                    seq!['\t'] + record_text(result.results, met.user.id) + seq!['\t']
                        + met.best_identifier@ + seq!['\t'] + (match met.deck_defining_card {
                        Some(card) => card.name@,
                        None => "-"@,
                    }) + seq!['\n']
                })
            },
    );
    law_table_holds_every_row(headers, rows);
    assert forall|i: int| 0 <= i < found.len() implies #[trigger] lines[i] == row_text(rows[i]) by {
        lemma_match_line(i, found[i], player);
    }
    assert((seq![headers] + rows).map_values(written) =~= seq![row_text(headers)] + lines);
    lemma_journey_header_line();
    assert((seq![row_text(headers)] + lines).drop_first() =~= lines);
}

proof fn lemma_journey_header_line()
    ensures
        row_text(journey_headers()) == "Round\tRecord\tOpponent\tLegend\n"@,
{
    reveal_strlit("Round");
    reveal_strlit("Record");
    reveal_strlit("Opponent");
    reveal_strlit("Legend");
    reveal_strlit("Round\tRecord\tOpponent\tLegend\n");
    lemma_four_cells("Round"@, "Record"@, "Opponent"@, "Legend"@);
    assert(row_text(journey_headers()) =~= "Round\tRecord\tOpponent\tLegend\n"@);
}

} // verus!
