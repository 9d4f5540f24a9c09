//! The bracket builder: drawing the opponents of a tournament and pairing
//! the entrants of a round.

use vstd::prelude::*;
use crate::eligibility::{eligible, get_eligible_opponents};
use crate::error::TournamentError;
use crate::model::{
    Match, MatchView, Opponent, OpponentView, SettingsView, Tournament, TournamentSettings,
    TournamentView,
};
use crate::random::{random_source, sample_positions, shuffle_names};
use crate::text::{player_id, player_name, round_status, round_status_text};

verus! {

// ---------------------------------------------------------------------------
// Pairing
// ---------------------------------------------------------------------------

/// Who sits a round out: the first entrant where their number is odd, nobody
/// where it is even.
pub open spec fn bye_of(order: Seq<Seq<char>>) -> Seq<Seq<char>> {
    if order.len() % 2 == 1 {
        seq![order[0]]
    } else {
        Seq::empty()
    }
}

/// The matches of a round: the entrants after the one who sits out, two by
/// two in their order, none decided.
pub open spec fn pairs_of(order: Seq<Seq<char>>) -> Seq<MatchView> {
    Seq::new(
        (order.len() / 2) as nat,
        |k: int|
            MatchView {
                team1: order[order.len() % 2 + 2 * k],
                team2: order[order.len() % 2 + 2 * k + 1],
                winner: None,
            },
    )
}

/// The teams of a round in the order of its matches.
pub open spec fn teams_of(round: Seq<MatchView>) -> Seq<Seq<char>> {
    Seq::new(
        2 * round.len(),
        |i: int|
            if i % 2 == 0 {
                round[i / 2].team1
            } else {
                round[i / 2].team2
            },
    )
}

/// The entrants of a round: who sits out, then the teams of its matches.
pub open spec fn entrants(bye: Seq<Seq<char>>, round: Seq<MatchView>) -> Seq<Seq<char>> {
    bye + teams_of(round)
}

/// Pairing loses and adds nobody: who sits out and the teams of the matches
/// are the entrants in their order.
pub proof fn lemma_pairing_keeps_entrants(order: Seq<Seq<char>>)
    ensures
        entrants(bye_of(order), pairs_of(order)) == order,
        bye_of(order).len() == order.len() % 2,
        bye_of(order).len() <= 1,
        order.len() == 2 * pairs_of(order).len() + bye_of(order).len(),
        order.len() >= 2 ==> pairs_of(order).len() >= 1,
{
    assert(entrants(bye_of(order), pairs_of(order)) =~= order);
}

/// Pairs the entrants of a round: where their number is odd the first sits
/// out; the others meet two by two in their order.
pub fn pair_teams(order: &Vec<String>) -> (res: (Vec<String>, Vec<Match>))
    ensures
        res.0.deep_view() == bye_of(order.deep_view()),
        res.1.deep_view() == pairs_of(order.deep_view()),
{
    let mut bye: Vec<String> = Vec::new();
    let mut matches: Vec<Match> = Vec::new();
    let skip: usize = order.len() % 2;
    if skip == 1 {
        bye.push(order[0].clone());
    }
    assert(bye.deep_view() =~= bye_of(order.deep_view()));
    let count: usize = order.len() / 2;
    let mut k: usize = 0;
    while k < count
        invariant
            k <= count,
            count == order.len() / 2,
            skip == order.len() % 2,
            matches.len() == k,
            forall|h: int| 0 <= h < k ==> #[trigger] matches[h]@ == pairs_of(order.deep_view())[h],
        decreases count - k,
    {
        let team1 = order[skip + 2 * k].clone();
        let team2 = order[skip + 2 * k + 1].clone();
        matches.push(Match { team1, team2, winner: None });
        k = k + 1;
    }
    assert(matches.deep_view() =~= pairs_of(order.deep_view()));
    (bye, matches)
}

// ---------------------------------------------------------------------------
// The first round
// ---------------------------------------------------------------------------

/// How many opponents a bracket of `team_count` teams needs: all teams but
/// the player, and none where no team is asked for.
pub open spec fn required_opponents(team_count: u8) -> nat {
    if team_count >= 1 {
        (team_count - 1) as nat
    } else {
        0
    }
}

/// The identifiers of a list of opponents, in its order.
pub open spec fn ids_of(list: Seq<OpponentView>) -> Seq<Seq<char>> {
    Seq::new(list.len(), |i: int| list[i].id)
}

/// Whether `chosen` holds the opponents of `pool` at the given positions, all
/// of which differ.
pub open spec fn is_selection(
    pool: Seq<OpponentView>,
    positions: Seq<int>,
    chosen: Seq<OpponentView>,
) -> bool {
    &&& chosen.len() == positions.len()
    &&& forall|i: int|
        0 <= i < positions.len() ==> 0 <= #[trigger] positions[i] < pool.len() && chosen[i]
            == pool[positions[i]]
    &&& forall|i: int, j: int|
        0 <= i < j < positions.len() ==> #[trigger] positions[i] != #[trigger] positions[j]
}

/// The tournament that starts with the given participants and the given
/// order of entrants.
pub open spec fn first_round(
    participants: Seq<OpponentView>,
    order: Seq<Seq<char>>,
    modifier: u8,
) -> TournamentView {
    TournamentView {
        participants,
        level_win_rate_modifier: modifier,
        rounds: seq![pairs_of(order)],
        bye_teams: bye_of(order),
        status: round_status(1),
    }
}

/// Whether `t` is a bracket drawn from `pool` under the settings: its
/// participants are as many opponents of the pool as the settings ask for,
/// taken at different positions; its entrants are the participants and the
/// player in some order; it holds their first round and nothing else.
pub open spec fn is_bracket(s: SettingsView, pool: Seq<OpponentView>, t: TournamentView) -> bool {
    &&& exists|positions: Seq<int>|
        positions.len() == required_opponents(s.team_count) && #[trigger] is_selection(
            pool,
            positions,
            t.participants,
        )
    &&& t.rounds.len() == 1
    &&& entrants(t.bye_teams, t.rounds[0]).to_multiset() == ids_of(t.participants).push(
        player_name(),
    ).to_multiset()
    &&& t == first_round(
        t.participants,
        entrants(t.bye_teams, t.rounds[0]),
        s.level_win_rate_modifier,
    )
}

/// Counts the opponents that a bracket of `team_count` teams needs.
pub fn opponents_needed(team_count: u8) -> (res: usize)
    ensures
        res == required_opponents(team_count),
{
    if team_count >= 1 {
        (team_count - 1) as usize
    } else {
        0
    }
}

/// Copies the opponents of a pool at the given positions.
pub fn pick_opponents(pool: &Vec<Opponent>, positions: &Vec<usize>) -> (res: Vec<Opponent>)
    requires
        forall|i: int| 0 <= i < positions.len() ==> positions[i] < pool.len(),
    ensures
        res.len() == positions.len(),
        forall|i: int|
            0 <= i < positions.len() ==> #[trigger] res.deep_view()[i] == pool.deep_view()[positions[i] as int],
{
    let mut res: Vec<Opponent> = Vec::new();
    let mut i: usize = 0;
    while i < positions.len()
        invariant
            i <= positions.len(),
            res.len() == i,
            forall|k: int| 0 <= k < positions.len() ==> positions[k] < pool.len(),
            forall|k: int| 0 <= k < i ==> #[trigger] res[k]@ == pool[positions[k] as int]@,
        decreases positions.len() - i,
    {
        res.push(pool[positions[i]].clone());
        i = i + 1;
    }
    res
}

/// Lists the entrants of a first round before they are shuffled: the
/// identifiers of the participants, then the player.
pub fn entrant_names(participants: &Vec<Opponent>) -> (res: Vec<String>)
    ensures
        res.deep_view() == ids_of(participants.deep_view()).push(player_name()),
{
    let mut res: Vec<String> = Vec::new();
    let mut i: usize = 0;
    while i < participants.len()
        invariant
            i <= participants.len(),
            res.len() == i,
            forall|k: int| 0 <= k < i ==> #[trigger] res[k]@ == participants[k]@.id,
        decreases participants.len() - i,
    {
        res.push(participants[i].id.clone());
        i = i + 1;
    }
    res.push(player_id());
    assert(res.deep_view() =~= ids_of(participants.deep_view()).push(player_name()));
    res
}

/// Builds the tournament that starts with the given participants and the
/// given order of entrants.
pub fn assemble_bracket(participants: Vec<Opponent>, order: &Vec<String>, modifier: u8) -> (res:
    Tournament)
    ensures
        res@ == first_round(participants.deep_view(), order.deep_view(), modifier),
{
    let (bye_teams, matches) = pair_teams(order);
    let mut rounds: Vec<Vec<Match>> = Vec::new();
    rounds.push(matches);
    assert(rounds.deep_view() =~= seq![pairs_of(order.deep_view())]);
    Tournament {
        participants,
        level_win_rate_modifier: modifier,
        rounds,
        bye_teams,
        status: round_status_text(1),
    }
}

/// Draws a bracket from a pool of eligible opponents: as many of them as the
/// settings ask for, chosen at random without repetition, and the player, in
/// random order, paired for the first round. Fails if the pool holds fewer
/// opponents than are needed, and only then.
pub fn build_bracket(settings: &TournamentSettings, pool: &Vec<Opponent>) -> (res: Result<
    Tournament,
    TournamentError,
>)
    ensures
        match res {
            Ok(t) => pool.len() >= required_opponents(settings.team_count) && is_bracket(
                settings@,
                pool.deep_view(),
                t@,
            ),
            Err(e) => pool.len() < required_opponents(settings.team_count) && e == (
            TournamentError::InsufficientOpponents {
                required: required_opponents(settings.team_count) as usize,
                available: pool.len(),
            }),
        },
{
    let required = opponents_needed(settings.team_count);
    if pool.len() < required {
        return Err(TournamentError::InsufficientOpponents { required, available: pool.len() });
    }
    let mut rng = random_source();
    let positions = sample_positions(&mut rng, pool.len(), required);
    let participants = pick_opponents(pool, &positions);
    let mut order = entrant_names(&participants);
    shuffle_names(&mut rng, &mut order);
    let ghost chosen = participants.deep_view();
    let tournament = assemble_bracket(participants, &order, settings.level_win_rate_modifier);
    proof {
        let places = Seq::new(positions.len() as nat, |i: int| positions[i] as int);
        assert(is_selection(pool.deep_view(), places, chosen)) by {
            assert forall|i: int| 0 <= i < places.len() implies 0 <= #[trigger] places[i]
                < pool.deep_view().len() && chosen[i] == pool.deep_view()[places[i]] by {
                assert(chosen[i] == pool.deep_view()[positions[i] as int]);
            }
        }
        lemma_pairing_keeps_entrants(order.deep_view());
    }
    Ok(tournament)
}

/// Generates a tournament from the catalog: draws a bracket from the
/// opponents that are eligible under the settings.
pub fn generate_tournament(settings: &TournamentSettings, catalog: &Vec<Opponent>) -> (res: Result<
    Tournament,
    TournamentError,
>)
    ensures
        match res {
            Ok(t) => eligible(settings@, catalog.deep_view()).len() >= required_opponents(
                settings.team_count,
            ) && is_bracket(settings@, eligible(settings@, catalog.deep_view()), t@),
            Err(e) => eligible(settings@, catalog.deep_view()).len() < required_opponents(
                settings.team_count,
            ) && e == (TournamentError::InsufficientOpponents {
                required: required_opponents(settings.team_count) as usize,
                available: eligible(settings@, catalog.deep_view()).len() as usize,
            }),
        },
{
    let pool = get_eligible_opponents(settings, catalog);
    build_bracket(settings, &pool)
}

} // verus!
