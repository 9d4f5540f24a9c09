//! What holds of every bracket and of every submitted result, proved from
//! the contracts of the engine.

use vstd::prelude::*;
use vstd::seq_lib::*;
use crate::bracket::{
    entrants, ids_of, is_bracket, is_selection, lemma_pairing_keeps_entrants, required_opponents,
};
use crate::eligibility::{
    eligibility, eligible, is_fit, lemma_selection_exists, qualifies, with_selected_tier,
    within_tolerance,
};
use crate::error::TournamentError;
use crate::model::{ids_distinct, MatchView, OpponentView, SettingsView, TournamentView};
use crate::resolver::{involves_player, needs_simulation, settles, unknown_slot};
use crate::rounds::{
    advances_to, first_unknown, is_entrant, match_well_formed, round_complete, survivors,
    update_outcome, well_formed, winners_of, with_round, with_winner,
};
use crate::text::{
    game_over_status, is_terminal_status, lemma_champion_status_is_terminal, player_name,
    round_status,
};

verus! {

// ---------------------------------------------------------------------------
// The eligible list
// ---------------------------------------------------------------------------

/// Every opponent of an eligible list is the copy of an opponent of the
/// catalog that qualifies, with its selected tier in force.
pub proof fn lemma_eligible_comes_from_catalog(
    s: SettingsView,
    catalog: Seq<OpponentView>,
    k: int,
)
    requires
        0 <= k < eligible(s, catalog).len(),
    ensures
        exists|i: int|
            0 <= i < catalog.len() && qualifies(s, #[trigger] catalog[i]) && eligible(
                s,
                catalog,
            )[k] == with_selected_tier(s, catalog[i]),
    decreases catalog.len(),
{
    let f = eligibility(s);
    assert(catalog.len() > 0);
    let rest = catalog.drop_last();
    let last = catalog.last();
    if k < rest.filter_map(f).len() {
        lemma_eligible_comes_from_catalog(s, rest, k);
        let i = choose|i: int|
            0 <= i < rest.len() && qualifies(s, #[trigger] rest[i]) && eligible(s, rest)[k]
                == with_selected_tier(s, rest[i]);
        assert(catalog[i] == rest[i]);
    } else {
        assert(catalog[catalog.len() - 1] == last);
    }
}

/// Every opponent of an eligible list is fit to enter a bracket: its
/// identifier is unlocked, its source is allowed, its level lies within the
/// tolerances, and the tier in force is the nearest of its tiers within the
/// tolerances, the first of them where several are equally near.
pub proof fn lemma_eligible_is_fit(s: SettingsView, catalog: Seq<OpponentView>, k: int)
    requires
        0 <= k < eligible(s, catalog).len(),
    ensures
        is_fit(s, eligible(s, catalog)[k]),
{
    lemma_eligible_comes_from_catalog(s, catalog, k);
    let i = choose|i: int|
        0 <= i < catalog.len() && qualifies(s, #[trigger] catalog[i]) && eligible(s, catalog)[k]
            == with_selected_tier(s, catalog[i]);
    let tiers = catalog[i].difficulties;
    let w = choose|w: int| 0 <= w < tiers.len() && within_tolerance(s, #[trigger] tiers[w].level);
    lemma_selection_exists(s, tiers, w);
}

/// The eligible list of a catalog without repeated identifiers has none.
pub proof fn lemma_eligible_keeps_ids_distinct(s: SettingsView, catalog: Seq<OpponentView>)
    requires
        ids_distinct(catalog),
    ensures
        ids_distinct(eligible(s, catalog)),
    decreases catalog.len(),
{
    if catalog.len() > 0 {
        let rest = catalog.drop_last();
        let last = catalog.last();
        lemma_eligible_keeps_ids_distinct(s, rest);
        let list = eligible(s, catalog);
        assert forall|a: int, b: int| 0 <= a < b < list.len() implies (#[trigger] list[a]).id != (
        #[trigger] list[b]).id by {
            if b < eligible(s, rest).len() {
            } else {
                lemma_eligible_comes_from_catalog(s, rest, a);
                let i = choose|i: int|
                    0 <= i < rest.len() && qualifies(s, #[trigger] rest[i]) && eligible(s, rest)[a]
                        == with_selected_tier(s, rest[i]);
                assert(catalog[i] == rest[i]);
                assert(catalog[catalog.len() - 1] == last);
            }
        }
    }
}

// ---------------------------------------------------------------------------
// Brackets
// ---------------------------------------------------------------------------

/// A bracket drawn from a pool without repeated identifiers holds exactly as
/// many opponents as the settings ask for, all of them from the pool and no
/// two with the same identifier; the player is among its entrants; the
/// entrants are the participants and the player, each in a match or sitting
/// out; and at most one entrant sits out.
pub proof fn lemma_bracket_shape(s: SettingsView, pool: Seq<OpponentView>, t: TournamentView)
    requires
        is_bracket(s, pool, t),
        ids_distinct(pool),
    ensures
        t.participants.len() == required_opponents(s.team_count),
        ids_distinct(t.participants),
        forall|i: int| 0 <= i < t.participants.len() ==> pool.contains(#[trigger] t.participants[i]),
        entrants(t.bye_teams, t.rounds[0]).contains(player_name()),
        entrants(t.bye_teams, t.rounds[0]).to_multiset() == ids_of(t.participants).push(
            player_name(),
        ).to_multiset(),
        2 * t.rounds[0].len() + t.bye_teams.len() == t.participants.len() + 1,
        t.bye_teams.len() <= 1,
        forall|k: int| 0 <= k < t.rounds[0].len() ==> (#[trigger] t.rounds[0][k]).winner is None,
{
    let positions = choose|positions: Seq<int>|
        positions.len() == required_opponents(s.team_count) && #[trigger] is_selection(
            pool,
            positions,
            t.participants,
        );
    assert forall|i: int, j: int| 0 <= i < j < t.participants.len() implies (
    #[trigger] t.participants[i]).id != (#[trigger] t.participants[j]).id by {
        let (a, b) = (positions[i], positions[j]);
        assert(t.participants[i] == pool[a]);
        assert(t.participants[j] == pool[b]);
        if a < b {
            assert(pool[a].id != pool[b].id);
        } else {
            assert(pool[b].id != pool[a].id);
        }
    }
    assert forall|i: int| 0 <= i < t.participants.len() implies pool.contains(
        #[trigger] t.participants[i],
    ) by {
        let a = positions[i];
        assert(pool[a] == t.participants[i]);
    }
    let order = entrants(t.bye_teams, t.rounds[0]);
    let listed = ids_of(t.participants).push(player_name());
    lemma_pairing_keeps_entrants(order);
    to_multiset_len(order);
    to_multiset_len(listed);
    to_multiset_contains(order, player_name());
    to_multiset_contains(listed, player_name());
    assert(listed[listed.len() - 1] == player_name());
}

/// The participants of a bracket drawn from the eligible list of a catalog
/// are fit to enter it.
pub proof fn lemma_participants_are_fit(
    s: SettingsView,
    catalog: Seq<OpponentView>,
    t: TournamentView,
    k: int,
)
    requires
        is_bracket(s, eligible(s, catalog), t),
        0 <= k < t.participants.len(),
    ensures
        is_fit(s, t.participants[k]),
{
    let pool = eligible(s, catalog);
    let positions = choose|positions: Seq<int>|
        positions.len() == required_opponents(s.team_count) && #[trigger] is_selection(
            pool,
            positions,
            t.participants,
        );
    let at = positions[k];
    assert(t.participants[k] == pool[at]);
    lemma_eligible_is_fit(s, catalog, at);
}

// ---------------------------------------------------------------------------
// Submitted results
// ---------------------------------------------------------------------------

/// Submitting the same result a second time changes nothing: the second call
/// succeeds and returns the tournament that the first one returned.
pub proof fn lemma_update_is_idempotent(
    t: TournamentView,
    r: int,
    m: int,
    winner: Seq<char>,
    after: TournamentView,
    again: Result<TournamentView, TournamentError>,
)
    requires
        update_outcome(t, r, m, winner, Ok(after)),
        update_outcome(after, r, m, winner, again),
    ensures
        again == Ok::<TournamentView, TournamentError>(after),
{
    if t.rounds[r][m].winner is Some || is_terminal_status(t.status) {
    } else {
        assert(after.rounds[r][m].winner is Some);
    }
}

/// Once the status of a tournament is final, submitting a result changes
/// nothing: the call returns the tournament as it was, or fails on an index
/// that names no match.
pub proof fn lemma_terminal_is_frozen(
    t: TournamentView,
    r: int,
    m: int,
    winner: Seq<char>,
    res: Result<TournamentView, TournamentError>,
)
    requires
        is_terminal_status(t.status),
        update_outcome(t, r, m, winner, res),
    ensures
        match res {
            Ok(after) => after == t,
            Err(e) => e is IndexOutOfRange,
        },
{
}

/// A player who takes part in an undecided match of a running tournament and
/// does not win it has lost the tournament: the result is written down, the
/// status becomes final and nothing else changes.
pub proof fn lemma_player_loss_ends_tournament(
    t: TournamentView,
    r: int,
    m: int,
    winner: Seq<char>,
    res: Result<TournamentView, TournamentError>,
)
    requires
        0 <= r < t.rounds.len(),
        0 <= m < t.rounds[r].len(),
        t.rounds[r][m].winner is None,
        !is_terminal_status(t.status),
        involves_player(t.rounds[r][m]),
        winner != player_name(),
        update_outcome(t, r, m, winner, res),
    ensures
        res is Ok,
        res->Ok_0.status == game_over_status(),
        is_terminal_status(res->Ok_0.status),
        res->Ok_0.rounds[r][m].winner == Some(winner),
        res->Ok_0.rounds.len() == t.rounds.len(),
        res->Ok_0.bye_teams == t.bye_teams,
        forall|i: int, k: int|
            0 <= i < t.rounds.len() && 0 <= k < t.rounds[i].len() && !(i == r && k == m)
                ==> #[trigger] res->Ok_0.rounds[i][k] == t.rounds[i][k],
{
}

/// Submitting a result never takes a round away, never changes the teams of
/// a match and never changes or removes a winner that was written down.
pub proof fn lemma_update_keeps_history(
    t: TournamentView,
    r: int,
    m: int,
    winner: Seq<char>,
    after: TournamentView,
    i: int,
    k: int,
)
    requires
        update_outcome(t, r, m, winner, Ok(after)),
        0 <= i < t.rounds.len(),
        0 <= k < t.rounds[i].len(),
    ensures
        after.rounds.len() >= t.rounds.len(),
        after.rounds[i].len() == t.rounds[i].len(),
        after.rounds[i][k].team1 == t.rounds[i][k].team1,
        after.rounds[i][k].team2 == t.rounds[i][k].team2,
        t.rounds[i][k].winner is Some ==> after.rounds[i][k].winner == t.rounds[i][k].winner,
        after.participants == t.participants,
        after.level_win_rate_modifier == t.level_win_rate_modifier,
{
}

/// Submitting a result never leaves more than one team sitting out, if at
/// most one sat out before.
pub proof fn lemma_update_keeps_bye_bound(
    t: TournamentView,
    r: int,
    m: int,
    winner: Seq<char>,
    after: TournamentView,
)
    requires
        update_outcome(t, r, m, winner, Ok(after)),
        t.bye_teams.len() <= 1,
    ensures
        after.bye_teams.len() <= 1,
{
    if after.rounds.len() == t.rounds.len() + 1 {
        lemma_pairing_keeps_entrants(entrants(after.bye_teams, after.rounds.last()));
    }
}

/// Where submitting a result adds a round, the round that was played is
/// complete, and the entrants of the new round are its winners and who sat
/// it out, in some order: nobody is lost and nobody is added.
pub proof fn lemma_new_round_holds_survivors(
    t: TournamentView,
    r: int,
    m: int,
    winner: Seq<char>,
    after: TournamentView,
)
    requires
        update_outcome(t, r, m, winner, Ok(after)),
        after.rounds.len() != t.rounds.len(),
    ensures
        after.rounds.len() == t.rounds.len() + 1,
        0 <= r < t.rounds.len(),
        round_complete(after.rounds[r]),
        entrants(after.bye_teams, after.rounds.last()).to_multiset() == (winners_of(
            after.rounds[r],
        ) + t.bye_teams).to_multiset(),
        2 * after.rounds.last().len() + after.bye_teams.len() == after.rounds[r].len()
            + t.bye_teams.len(),
        after.bye_teams.len() <= 1,
{
    let order = entrants(after.bye_teams, after.rounds.last());
    let settled = with_round(t, r, after.rounds[r]);
    assert(advances_to(settled, r, after));
    assert(settled.rounds[r] == after.rounds[r]);
    lemma_pairing_keeps_entrants(order);
    to_multiset_len(order);
    to_multiset_len(survivors(settled, r));
}

// ---------------------------------------------------------------------------
// Sound tournaments
// ---------------------------------------------------------------------------

/// In a round without a missing team, no match has one.
pub proof fn lemma_no_unknown(participants: Seq<OpponentView>, round: Seq<MatchView>, k: int)
    requires
        first_unknown(participants, round) is None,
        0 <= k < round.len(),
    ensures
        unknown_slot(participants, round[k]) is None,
    decreases round.len(),
{
    if k > 0 {
        assert(round.drop_first()[k - 1] == round[k]);
        lemma_no_unknown(participants, round.drop_first(), k - 1);
    }
}

/// A round in which no match has a missing team has none.
pub proof fn lemma_all_known(participants: Seq<OpponentView>, round: Seq<MatchView>)
    requires
        forall|k: int| 0 <= k < round.len() ==> unknown_slot(participants, #[trigger] round[k]) is None,
    ensures
        first_unknown(participants, round) is None,
    decreases round.len(),
{
    if round.len() > 0 {
        assert forall|k: int| 0 <= k < round.drop_first().len() implies unknown_slot(
            participants,
            #[trigger] round.drop_first()[k],
        ) is None by {
            assert(round.drop_first()[k] == round[k + 1]);
        }
        lemma_all_known(participants, round.drop_first());
    }
}

/// A bracket drawn from a pool without repeated identifiers is sound.
pub proof fn lemma_bracket_is_well_formed(s: SettingsView, pool: Seq<OpponentView>, t: TournamentView)
    requires
        is_bracket(s, pool, t),
        ids_distinct(pool),
    ensures
        well_formed(t),
{
    lemma_bracket_shape(s, pool, t);
    let order = entrants(t.bye_teams, t.rounds[0]);
    let listed = ids_of(t.participants).push(player_name());
    lemma_pairing_keeps_entrants(order);
    assert forall|i: int| 0 <= i < order.len() implies is_entrant(t, #[trigger] order[i]) by {
        to_multiset_contains(order, order[i]);
        to_multiset_contains(listed, order[i]);
        assert(order.contains(order[i]));
        let j = choose|j: int| 0 <= j < listed.len() && listed[j] == order[i];
        if j < t.participants.len() {
            assert(t.participants[j].id == order[i]);
        }
    }
    assert forall|r: int, k: int|
        0 <= r < t.rounds.len() && 0 <= k < t.rounds[r].len() implies match_well_formed(
        t,
        #[trigger] t.rounds[r][k],
    ) by {
        let skip = order.len() % 2;
        assert(t.rounds[0][k].team1 == order[skip + 2 * k]);
        assert(t.rounds[0][k].team2 == order[skip + 2 * k + 1]);
    }
    assert forall|b: int| 0 <= b < t.bye_teams.len() implies is_entrant(
        t,
        #[trigger] t.bye_teams[b],
    ) by {
        assert(t.bye_teams[b] == order[0]);
    }
}

/// A sound tournament never fails for a missing team.
pub proof fn lemma_well_formed_finds_teams(
    t: TournamentView,
    r: int,
    m: int,
    winner: Seq<char>,
    res: Result<TournamentView, TournamentError>,
)
    requires
        well_formed(t),
        update_outcome(t, r, m, winner, res),
    ensures
        res is Err ==> res->Err_0 is IndexOutOfRange,
{
    if 0 <= r < t.rounds.len() && 0 <= m < t.rounds[r].len() {
        let round = with_winner(t, r, m, winner).rounds[r];
        assert forall|k: int| 0 <= k < round.len() implies unknown_slot(
            t.participants,
            #[trigger] round[k],
        ) is None by {
            assert(match_well_formed(t, t.rounds[r][k]));
        }
        lemma_all_known(t.participants, round);
    }
}

/// Submitting a result for one of the two teams of the match keeps a sound
/// tournament sound.
pub proof fn lemma_update_keeps_well_formed(
    t: TournamentView,
    r: int,
    m: int,
    winner: Seq<char>,
    after: TournamentView,
)
    requires
        well_formed(t),
        update_outcome(t, r, m, winner, Ok(after)),
        0 <= r < t.rounds.len() && 0 <= m < t.rounds[r].len() ==> winner == t.rounds[r][m].team1
            || winner == t.rounds[r][m].team2,
    ensures
        well_formed(after),
{
    if t.rounds[r][m].winner is Some || is_terminal_status(t.status) {
    } else {
        // The submitted match is undecided, so its round is the last one.
        assert(r == t.rounds.len() - 1) by {
            if r < t.rounds.len() - 1 {
                assert(round_complete(t.rounds[r]));
            }
        }
        let recorded = with_winner(t, r, m, winner);
        assert forall|i: int, k: int|
            0 <= i < recorded.rounds.len() && 0 <= k < recorded.rounds[i].len() implies match_well_formed(
            t,
            #[trigger] recorded.rounds[i][k],
        ) by {
            assert(match_well_formed(t, t.rounds[i][k]));
        }
        if involves_player(t.rounds[r][m]) && winner != player_name() {
            assert forall|i: int, k: int|
                0 <= i < after.rounds.len() && 0 <= k < after.rounds[i].len() implies match_well_formed(
                after,
                #[trigger] after.rounds[i][k],
            ) by {
                assert(match_well_formed(t, recorded.rounds[i][k]));
            }
            assert forall|i: int| 0 <= i < after.rounds.len() - 1 implies round_complete(
                #[trigger] after.rounds[i],
            ) by {
                assert(round_complete(t.rounds[i]));
            }
        } else {
            let settled = with_round(t, r, after.rounds[r]);
            assert(settled.rounds[r] == after.rounds[r]);
            assert forall|k: int| 0 <= k < settled.rounds[r].len() implies match_well_formed(
                t,
                #[trigger] settled.rounds[r][k],
            ) by {
                let was = recorded.rounds[r][k];
                let now = after.rounds[r][k];
                assert(match_well_formed(t, was));
                assert(settles(t.participants, t.level_win_rate_modifier, was, now));
                if needs_simulation(was) {
                    lemma_no_unknown(t.participants, recorded.rounds[r], k);
                }
            }
            assert forall|i: int, k: int|
                0 <= i < settled.rounds.len() && 0 <= k < settled.rounds[i].len() implies match_well_formed(
                t,
                #[trigger] settled.rounds[i][k],
            ) by {
                if i != r {
                    assert(match_well_formed(t, t.rounds[i][k]));
                }
            }
            assert forall|i: int| 0 <= i < settled.rounds.len() - 1 implies round_complete(
                #[trigger] settled.rounds[i],
            ) by {
                assert(round_complete(t.rounds[i]));
            }
            lemma_advance_keeps_well_formed(settled, r, after);
        }
    }
}

/// Moving on from the last round keeps what makes a tournament sound, but
/// for the status, which moving on sets.
proof fn lemma_advance_keeps_well_formed(t: TournamentView, r: int, after: TournamentView)
    requires
        ids_distinct(t.participants),
        r == t.rounds.len() - 1,
        r >= 0,
        forall|i: int| 0 <= i < t.rounds.len() - 1 ==> round_complete(#[trigger] t.rounds[i]),
        forall|i: int, k: int|
            0 <= i < t.rounds.len() && 0 <= k < t.rounds[i].len() ==> match_well_formed(
                t,
                #[trigger] t.rounds[i][k],
            ),
        t.bye_teams.len() <= 1,
        forall|b: int| 0 <= b < t.bye_teams.len() ==> is_entrant(t, #[trigger] t.bye_teams[b]),
        is_terminal_status(t.status) || t.status == round_status(t.rounds.len()),
        advances_to(t, r, after),
    ensures
        well_formed(after),
{
    let s = survivors(t, r);
    if !round_complete(t.rounds[r]) || s.len() == 0 {
    } else if s.len() == 1 {
        lemma_champion_status_is_terminal(s[0]);
        assert forall|i: int, k: int|
            0 <= i < after.rounds.len() && 0 <= k < after.rounds[i].len() implies match_well_formed(
            after,
            #[trigger] after.rounds[i][k],
        ) by {
            assert(match_well_formed(t, t.rounds[i][k]));
        }
    } else {
        let order = entrants(after.bye_teams, after.rounds.last());
        lemma_pairing_keeps_entrants(order);
        assert forall|i: int| 0 <= i < s.len() implies is_entrant(t, #[trigger] s[i]) by {
            if i < t.rounds[r].len() {
                assert(match_well_formed(t, t.rounds[r][i]));
                assert(t.rounds[r][i].winner is Some);
            } else {
                assert(s[i] == t.bye_teams[i - t.rounds[r].len()]);
            }
        }
        assert forall|i: int| 0 <= i < order.len() implies is_entrant(t, #[trigger] order[i]) by {
            to_multiset_contains(order, order[i]);
            to_multiset_contains(s, order[i]);
            assert(order.contains(order[i]));
            let j = choose|j: int| 0 <= j < s.len() && s[j] == order[i];
            assert(is_entrant(t, s[j]));
        }
        assert forall|i: int, k: int|
            0 <= i < after.rounds.len() && 0 <= k < after.rounds[i].len() implies match_well_formed(
            after,
            #[trigger] after.rounds[i][k],
        ) by {
            if i < t.rounds.len() {
                assert(match_well_formed(t, t.rounds[i][k]));
            } else {
                let skip = order.len() % 2;
                assert(after.rounds[i][k].team1 == order[skip + 2 * k]);
                assert(after.rounds[i][k].team2 == order[skip + 2 * k + 1]);
            }
        }
        assert forall|b: int| 0 <= b < after.bye_teams.len() implies is_entrant(
            after,
            #[trigger] after.bye_teams[b],
        ) by {
            assert(after.bye_teams[b] == order[0]);
        }
        assert forall|i: int| 0 <= i < after.rounds.len() - 1 implies round_complete(
            #[trigger] after.rounds[i],
        ) by {
            if i < r {
                assert(round_complete(t.rounds[i]));
            }
        }
    }
}

} // verus!
