//! The round advancer: recording a result, simulating the matches that no
//! player takes part in, and moving on to the next round or to the end of
//! the tournament.

use vstd::prelude::*;
use rand::rngs::ThreadRng;
use crate::bracket::{bye_of, entrants, lemma_pairing_keeps_entrants, pair_teams, pairs_of};
use crate::error::{IndexKind, TeamSlot, TournamentError};
use crate::model::{
    clone_round, clone_texts, has_id, ids_distinct, Match, MatchView, Opponent, OpponentView,
    Tournament, TournamentView,
};
use crate::random::{random_source, shuffle_names};
use crate::resolver::{
    decided, decided_match, involves_player, match_involves_player, settle_match, settles,
    unknown_slot,
};
use crate::text::{
    champion_status, champion_text, game_over_status, game_over_text, is_player, is_terminal,
    is_terminal_status, player_name, round_status, round_status_text,
};

verus! {

// ---------------------------------------------------------------------------
// Rounds
// ---------------------------------------------------------------------------

/// The missing team of the first match of a round that has one.
pub open spec fn first_unknown(participants: Seq<OpponentView>, round: Seq<MatchView>) -> Option<
    TeamSlot,
>
    decreases round.len(),
{
    if round.len() == 0 {
        None
    } else {
        match unknown_slot(participants, round[0]) {
            Some(slot) => Some(slot),
            None => first_unknown(participants, round.drop_first()),
        }
    }
}

/// Whether `after` is the round `before` with each of its matches settled.
pub open spec fn round_settled(
    participants: Seq<OpponentView>,
    modifier: u8,
    before: Seq<MatchView>,
    after: Seq<MatchView>,
) -> bool {
    &&& after.len() == before.len()
    &&& forall|k: int|
        0 <= k < before.len() ==> settles(participants, modifier, before[k], #[trigger] after[k])
}

/// Whether every match of a round is decided.
pub open spec fn round_complete(round: Seq<MatchView>) -> bool {
    forall|k: int| 0 <= k < round.len() ==> (#[trigger] round[k]).winner is Some
}

/// The winners of a complete round, in the order of its matches.
pub open spec fn winners_of(round: Seq<MatchView>) -> Seq<Seq<char>> {
    Seq::new(round.len(), |k: int| round[k].winner->0)
}

// ---------------------------------------------------------------------------
// Tournaments
// ---------------------------------------------------------------------------

/// A tournament with one of its rounds replaced.
pub open spec fn with_round(t: TournamentView, r: int, round: Seq<MatchView>) -> TournamentView {
    TournamentView { rounds: t.rounds.update(r, round), ..t }
}

/// A tournament with the winner of one match written down.
pub open spec fn with_winner(t: TournamentView, r: int, m: int, winner: Seq<char>) -> TournamentView {
    with_round(
        t,
        r,
        t.rounds[r].update(m, decided(t.rounds[r][m], winner)),
    )
}

/// A tournament that the player has lost.
pub open spec fn lost(t: TournamentView) -> TournamentView {
    TournamentView { status: game_over_status(), ..t }
}

/// Who goes on after a complete round: its winners, then who sat it out.
pub open spec fn survivors(t: TournamentView, r: int) -> Seq<Seq<char>> {
    winners_of(t.rounds[r]) + t.bye_teams
}

/// A tournament with its champion named: nobody sits out any more.
pub open spec fn crowned(t: TournamentView, champion: Seq<char>) -> TournamentView {
    TournamentView { bye_teams: Seq::empty(), status: champion_status(champion), ..t }
}

/// A tournament with one more round, in which the given entrants are paired
/// in their order.
pub open spec fn next_round(t: TournamentView, order: Seq<Seq<char>>) -> TournamentView {
    TournamentView {
        rounds: t.rounds.push(pairs_of(order)),
        bye_teams: bye_of(order),
        status: round_status(t.rounds.len() + 1),
        ..t
    }
}

/// Whether `after` is what becomes of `t` once its round `r` has been looked
/// at: nothing changes while the round is incomplete or nobody goes on; a
/// single survivor is the champion; two or more survivors are paired, in some
/// order, for one more round.
pub open spec fn advances_to(t: TournamentView, r: int, after: TournamentView) -> bool {
    if !round_complete(t.rounds[r]) || survivors(t, r).len() == 0 {
        after == t
    } else if survivors(t, r).len() == 1 {
        after == crowned(t, survivors(t, r)[0])
    } else {
        &&& after.rounds.len() == t.rounds.len() + 1
        &&& entrants(after.bye_teams, after.rounds.last()).to_multiset() == survivors(
            t,
            r,
        ).to_multiset()
        &&& after == next_round(t, entrants(after.bye_teams, after.rounds.last()))
    }
}

/// Whether a name is an entrant's: the player's, or the identifier of a
/// participant.
pub open spec fn is_entrant(t: TournamentView, name: Seq<char>) -> bool {
    name == player_name() || has_id(t.participants, name)
}

/// Whether a match is sound: its teams are entrants, and its winner, if it
/// has one, is one of its teams.
pub open spec fn match_well_formed(t: TournamentView, m: MatchView) -> bool {
    &&& is_entrant(t, m.team1)
    &&& is_entrant(t, m.team2)
    &&& m.winner is Some ==> m.winner->0 == m.team1 || m.winner->0 == m.team2
}

/// Whether a tournament is sound: no two participants share an identifier;
/// there is a round; every round but the last is complete; every match is
/// sound; at most one team sits out, and it is an entrant; and the status is
/// final or names the last round.
pub open spec fn well_formed(t: TournamentView) -> bool {
    &&& ids_distinct(t.participants)
    &&& t.rounds.len() >= 1
    &&& forall|r: int| 0 <= r < t.rounds.len() - 1 ==> round_complete(#[trigger] t.rounds[r])
    &&& forall|r: int, k: int|
        0 <= r < t.rounds.len() && 0 <= k < t.rounds[r].len() ==> match_well_formed(
            t,
            #[trigger] t.rounds[r][k],
        )
    &&& t.bye_teams.len() <= 1
    &&& forall|b: int| 0 <= b < t.bye_teams.len() ==> is_entrant(t, #[trigger] t.bye_teams[b])
    &&& is_terminal_status(t.status) || t.status == round_status(t.rounds.len())
}

/// Whether `res` is a possible result of submitting `winner` for match `m` of
/// round `r` of the tournament `t`.
///
/// - An index that names no round or no match fails.
/// - A decided match, or a tournament whose status is final, is left as it
///   is.
/// - Otherwise the winner is written down. If the player took part and did
///   not win, the tournament is lost and nothing else happens.
/// - Otherwise the round is settled, which fails if a match to simulate
///   names a team that is not among the participants, and the tournament
///   advances.
pub open spec fn update_outcome(
    t: TournamentView,
    r: int,
    m: int,
    winner: Seq<char>,
    res: Result<TournamentView, TournamentError>,
) -> bool {
    if !(0 <= r < t.rounds.len()) {
        res == Err::<TournamentView, TournamentError>(
            TournamentError::IndexOutOfRange(IndexKind::Round),
        )
    } else if !(0 <= m < t.rounds[r].len()) {
        res == Err::<TournamentView, TournamentError>(
            TournamentError::IndexOutOfRange(IndexKind::Match),
        )
    } else if t.rounds[r][m].winner is Some || is_terminal_status(t.status) {
        res == Ok::<TournamentView, TournamentError>(t)
    } else if involves_player(t.rounds[r][m]) && winner != player_name() {
        res == Ok::<TournamentView, TournamentError>(lost(with_winner(t, r, m, winner)))
    } else {
        match first_unknown(t.participants, with_winner(t, r, m, winner).rounds[r]) {
            Some(slot) => res == Err::<TournamentView, TournamentError>(
                TournamentError::TeamNotFound(slot),
            ),
            None => {
                &&& res is Ok
                &&& res->Ok_0.rounds.len() >= t.rounds.len()
                &&& round_settled(
                    t.participants,
                    t.level_win_rate_modifier,
                    with_winner(t, r, m, winner).rounds[r],
                    res->Ok_0.rounds[r],
                )
                &&& advances_to(with_round(t, r, res->Ok_0.rounds[r]), r, res->Ok_0)
            },
        }
    }
}

// ---------------------------------------------------------------------------
// Steps
// ---------------------------------------------------------------------------

/// Replaces one round of a tournament.
fn replace_round(tournament: &mut Tournament, r: usize, round: Vec<Match>)
    requires
        r < old(tournament).rounds.len(),
    ensures
        final(tournament)@ == with_round(old(tournament)@, r as int, round.deep_view()),
        final(tournament).rounds.len() == old(tournament).rounds.len(),
{
    let ghost before = tournament@;
    tournament.rounds.set(r, round);
    assert(tournament.rounds.deep_view() =~= before.rounds.update(r as int, round.deep_view()));
}

/// Writes down the winner of one match of a tournament.
fn record_winner(tournament: &mut Tournament, r: usize, m: usize, winner: String)
    requires
        r < old(tournament).rounds.len(),
        m < old(tournament).rounds[r as int].len(),
    ensures
        final(tournament)@ == with_winner(old(tournament)@, r as int, m as int, winner@),
        final(tournament).rounds.len() == old(tournament).rounds.len(),
{
    let ghost before = tournament@;
    let mut round = clone_round(&tournament.rounds[r]);
    assert(round.deep_view() == before.rounds[r as int]);
    let written = decided_match(&round[m], winner);
    assert(round.deep_view()[m as int] == round[m as int]@);
    round.set(m, written);
    assert(round.deep_view() =~= before.rounds[r as int].update(m as int, written@));
    replace_round(tournament, r, round);
}

/// Settles a round: simulates each of its matches that is undecided and has
/// no player in it, and leaves the others as they are. Fails at the first
/// match to simulate that names a team which is not among the participants.
fn settle_round(
    rng: &mut ThreadRng,
    participants: &Vec<Opponent>,
    modifier: u8,
    round: &Vec<Match>,
) -> (res: Result<Vec<Match>, TournamentError>)
    ensures
        match res {
            Ok(after) => first_unknown(participants.deep_view(), round.deep_view()) is None
                && round_settled(
                participants.deep_view(),
                modifier,
                round.deep_view(),
                after.deep_view(),
            ),
            Err(e) => first_unknown(participants.deep_view(), round.deep_view()) is Some && e
                == TournamentError::TeamNotFound(
                first_unknown(participants.deep_view(), round.deep_view())->0,
            ),
        },
{
    let ghost who = participants.deep_view();
    let ghost all = round.deep_view();
    let mut res: Vec<Match> = Vec::new();
    let mut k: usize = 0;
    assert(all.skip(0) =~= all);
    while k < round.len()
        invariant
            k <= round.len(),
            who == participants.deep_view(),
            all == round.deep_view(),
            first_unknown(who, all) == first_unknown(who, all.skip(k as int)),
            res.len() == k,
            forall|h: int| 0 <= h < k ==> settles(who, modifier, all[h], #[trigger] res[h]@),
        decreases round.len() - k,
    {
        proof {
            assert(all.skip(k as int)[0] == round[k as int]@);
            assert(all.skip(k as int).drop_first() =~= all.skip(k + 1));
            assert(all[k as int] == round[k as int]@);
        }
        match settle_match(rng, participants, modifier, &round[k]) {
            Ok(settled) => {
                res.push(settled);
            },
            Err(e) => {
                return Err(e);
            },
        }
        k = k + 1;
    }
    assert forall|h: int| 0 <= h < all.len() implies settles(
        who,
        modifier,
        all[h],
        #[trigger] res.deep_view()[h],
    ) by {
        assert(res.deep_view()[h] == res[h]@);
    }
    Ok(res)
}

/// Lists who goes on after a round: its winners, then who sat it out.
/// `None` while the round is incomplete or where there is no such round.
pub fn survivors_of(tournament: &Tournament, round_index: usize) -> (res: Option<Vec<String>>)
    ensures
        match res {
            Some(list) => round_index < tournament.rounds.len() && round_complete(
                tournament@.rounds[round_index as int],
            ) && list.deep_view() == survivors(tournament@, round_index as int),
            None => round_index >= tournament.rounds.len() || !round_complete(
                tournament@.rounds[round_index as int],
            ),
        },
{
    if round_index >= tournament.rounds.len() {
        return None;
    }
    let round = &tournament.rounds[round_index];
    let ghost all = tournament@.rounds[round_index as int];
    assert(all == round.deep_view());
    let mut list: Vec<String> = Vec::new();
    let mut k: usize = 0;
    while k < round.len()
        invariant
            k <= round.len(),
            round_index < tournament.rounds.len(),
            all == tournament@.rounds[round_index as int],
            all == round.deep_view(),
            list.len() == k,
            forall|h: int| 0 <= h < k ==> (#[trigger] all[h]).winner == Some(list[h]@),
        decreases round.len() - k,
    {
        assert(all[k as int] == round[k as int]@);
        match &round[k].winner {
            Some(winner) => {
                list.push(winner.clone());
            },
            None => {
                assert(all[k as int].winner is None);
                return None;
            },
        }
        k = k + 1;
    }
    let ghost won = list.deep_view();
    assert(won =~= winners_of(all));
    let mut waiting = clone_texts(&tournament.bye_teams);
    list.append(&mut waiting);
    assert(list.deep_view() =~= won + tournament@.bye_teams);
    Some(list)
}

/// Names the champion of a tournament and lets nobody sit out any more.
pub fn crown_champion(tournament: &mut Tournament, champion: &String)
    ensures
        final(tournament)@ == crowned(old(tournament)@, champion@),
{
    tournament.bye_teams = Vec::new();
    tournament.status = champion_text(champion);
    assert(tournament.bye_teams.deep_view() =~= Seq::<Seq<char>>::empty());
}

/// Adds a round to a tournament, in which the given entrants are paired in
/// their order: where their number is odd the first sits out.
pub fn start_next_round(tournament: &mut Tournament, order: &Vec<String>)
    ensures
        final(tournament)@ == next_round(old(tournament)@, order.deep_view()),
{
    let ghost before = tournament@;
    let (bye_teams, matches) = pair_teams(order);
    tournament.rounds.push(matches);
    assert(tournament.rounds.deep_view() =~= before.rounds.push(pairs_of(order.deep_view())));
    tournament.bye_teams = bye_teams;
    tournament.status = round_status_text(tournament.rounds.len());
}

/// Looks at round `r` of a tournament and moves on where the round is
/// complete: to the champion where one team goes on, to one more round where
/// several do, their order drawn at random.
fn advance_round(rng: &mut ThreadRng, tournament: &mut Tournament, r: usize)
    requires
        r < old(tournament).rounds.len(),
    ensures
        advances_to(old(tournament)@, r as int, final(tournament)@),
{
    let ghost before = tournament@;
    match survivors_of(tournament, r) {
        Some(list) => {
            let mut order = list;
            if order.len() == 1 {
                assert(order.deep_view()[0] == order[0]@);
                crown_champion(tournament, &order[0]);
            } else if order.len() >= 2 {
                shuffle_names(rng, &mut order);
                proof {
                    vstd::seq_lib::to_multiset_len(order.deep_view());
                    vstd::seq_lib::to_multiset_len(survivors(before, r as int));
                    lemma_pairing_keeps_entrants(order.deep_view());
                }
                start_next_round(tournament, &order);
            }
        },
        None => {},
    }
}

/// Submits the result of a match: `winner_name` has won match `match_index`
/// of round `round_index`.
///
/// Fails if an index names no round or no match. Leaves the tournament as it
/// is if the match is decided already or the status of the tournament is
/// final. Otherwise writes the winner down; ends the tournament as lost if
/// the player took part and did not win; otherwise simulates every other
/// undecided match of the round without the player, and moves on to the
/// champion or to the next round once the round is complete.
pub fn update_match_result(
    tournament: Tournament,
    round_index: usize,
    match_index: usize,
    winner_name: String,
) -> (res: Result<Tournament, TournamentError>)
    ensures
        match res {
            Ok(after) => update_outcome(
                tournament@,
                round_index as int,
                match_index as int,
                winner_name@,
                Ok(after@),
            ),
            Err(e) => update_outcome(
                tournament@,
                round_index as int,
                match_index as int,
                winner_name@,
                Err(e),
            ),
        },
{
    let ghost before = tournament@;
    let mut tournament = tournament;
    if round_index >= tournament.rounds.len() {
        return Err(TournamentError::IndexOutOfRange(IndexKind::Round));
    }
    if match_index >= tournament.rounds[round_index].len() {
        return Err(TournamentError::IndexOutOfRange(IndexKind::Match));
    }
    let submitted = &tournament.rounds[round_index][match_index];
    assert(submitted@ == before.rounds[round_index as int][match_index as int]);
    if submitted.winner.is_some() || is_terminal(&tournament.status) {
        return Ok(tournament);
    }
    let player_lost = match_involves_player(submitted) && !is_player(&winner_name);
    record_winner(&mut tournament, round_index, match_index, winner_name);
    if player_lost {
        tournament.status = game_over_text();
        return Ok(tournament);
    }
    let ghost recorded = tournament@;
    let mut rng = random_source();
    let settled = match settle_round(
        &mut rng,
        &tournament.participants,
        tournament.level_win_rate_modifier,
        &tournament.rounds[round_index],
    ) {
        Ok(settled) => settled,
        Err(e) => {
            return Err(e);
        },
    };
    let ghost settled_view = settled.deep_view();
    replace_round(&mut tournament, round_index, settled);
    assert(tournament@ == with_round(before, round_index as int, settled_view)) by {
        assert(recorded.rounds.update(round_index as int, settled_view) =~= before.rounds.update(
            round_index as int,
            settled_view,
        ));
    }
    advance_round(&mut rng, &mut tournament, round_index);
    Ok(tournament)
}

} // verus!
