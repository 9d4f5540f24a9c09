//! The match resolver: who wins a match that no player takes part in, given
//! the outcome of a draw that favours the stronger of the two teams.

use vstd::prelude::*;
use rand::rngs::ThreadRng;
use crate::error::{TeamSlot, TournamentError};
use crate::model::{has_id, position_of, Match, MatchView, Opponent, OpponentView};
use crate::random::roll_ratio;
use crate::text::{is_player, player_name};

verus! {

// ---------------------------------------------------------------------------
// The chance of the stronger team
// ---------------------------------------------------------------------------

/// The distance between two levels.
pub open spec fn level_difference(level1: u8, level2: u8) -> int {
    if level1 >= level2 {
        level1 - level2
    } else {
        level2 - level1
    }
}

/// The percentage points by which the stronger of two teams is favoured: the
/// level difference times the modifier, and at most 50.
pub open spec fn win_bonus(level1: u8, level2: u8, modifier: u8) -> int {
    if level_difference(level1, level2) * modifier <= 50 {
        level_difference(level1, level2) * modifier
    } else {
        50
    }
}

/// The chance in percent that the stronger of two teams wins: 50 plus the
/// bonus.
pub open spec fn stronger_win_percent(level1: u8, level2: u8, modifier: u8) -> int {
    50 + win_bonus(level1, level2, modifier)
}

/// Computes the chance in percent that the stronger of two teams wins.
pub fn win_percent(level1: u8, level2: u8, modifier: u8) -> (res: u32)
    ensures
        res == stronger_win_percent(level1, level2, modifier),
        50 <= res <= 100,
{
    let difference: u32 = if level1 >= level2 {
        (level1 - level2) as u32
    } else {
        (level2 - level1) as u32
    };
    assert(difference * (modifier as u32) <= 255 * 255) by (nonlinear_arith)
        requires
            difference <= 255,
            modifier <= 255,
    ;
    let product: u32 = difference * (modifier as u32);
    let bonus: u32 = if product <= 50 {
        product
    } else {
        50
    };
    50 + bonus
}

// ---------------------------------------------------------------------------
// The winner
// ---------------------------------------------------------------------------

/// The winner of a match between two opponents, given whether the stronger
/// one wins. The first team is the stronger one where its level is the
/// higher, the second team otherwise.
pub open spec fn decided_winner(team1: OpponentView, team2: OpponentView, stronger_wins: bool) -> Seq<
    char,
> {
    if stronger_wins == (team1.level > team2.level) {
        team1.id
    } else {
        team2.id
    }
}

/// Whether `winner` is a possible result of a simulated match: it is one of
/// the two teams, and the stronger one where that team's chance is 100.
pub open spec fn is_simulated_winner(
    team1: OpponentView,
    team2: OpponentView,
    modifier: u8,
    winner: Seq<char>,
) -> bool {
    &&& winner == decided_winner(team1, team2, true) || winner == decided_winner(
        team1,
        team2,
        false,
    )
    &&& stronger_win_percent(team1.level, team2.level, modifier) == 100 ==> winner
        == decided_winner(team1, team2, true)
}

/// Names the winner of a match between two opponents, given whether the
/// stronger one wins.
pub fn decide_winner(team1: &Opponent, team2: &Opponent, stronger_wins: bool) -> (res: String)
    ensures
        res@ == decided_winner(team1@, team2@, stronger_wins),
{
    let team1_is_stronger = team1.level > team2.level;
    if stronger_wins == team1_is_stronger {
        team1.id.clone()
    } else {
        team2.id.clone()
    }
}

// ---------------------------------------------------------------------------
// Matches
// ---------------------------------------------------------------------------

/// Whether the player is one of the two teams of a match.
pub open spec fn involves_player(m: MatchView) -> bool {
    m.team1 == player_name() || m.team2 == player_name()
}

/// Whether a match is to be simulated: it is undecided and the player takes
/// no part in it.
pub open spec fn needs_simulation(m: MatchView) -> bool {
    m.winner is None && !involves_player(m)
}

/// The team of a match to simulate that is not among the participants, the
/// first one where both are missing; `None` where both are found or the
/// match is not to be simulated.
pub open spec fn unknown_slot(participants: Seq<OpponentView>, m: MatchView) -> Option<TeamSlot> {
    if !needs_simulation(m) {
        None
    } else if !has_id(participants, m.team1) {
        Some(TeamSlot::First)
    } else if !has_id(participants, m.team2) {
        Some(TeamSlot::Second)
    } else {
        None
    }
}

/// The first team of a match, as a participant.
pub open spec fn first_team(participants: Seq<OpponentView>, m: MatchView) -> OpponentView {
    participants[position_of(participants, m.team1)]
}

/// The second team of a match, as a participant.
pub open spec fn second_team(participants: Seq<OpponentView>, m: MatchView) -> OpponentView {
    participants[position_of(participants, m.team2)]
}

/// A match with its winner written down.
pub open spec fn decided(m: MatchView, winner: Seq<char>) -> MatchView {
    MatchView { winner: Some(winner), ..m }
}

/// What resolving a match gives, given whether the stronger team wins: a
/// match that is decided or has the player in it stays as it is; a match
/// with a team that is not among the participants fails; any other match
/// gets its winner.
pub open spec fn resolved(
    participants: Seq<OpponentView>,
    m: MatchView,
    stronger_wins: bool,
) -> Result<MatchView, TournamentError> {
    if !needs_simulation(m) {
        Ok(m)
    } else {
        match unknown_slot(participants, m) {
            Some(slot) => Err(TournamentError::TeamNotFound(slot)),
            None => Ok(
                decided(
                    m,
                    decided_winner(
                        first_team(participants, m),
                        second_team(participants, m),
                        stronger_wins,
                    ),
                ),
            ),
        }
    }
}

/// Tells whether the player is one of the two teams of a match.
pub fn match_involves_player(m: &Match) -> (res: bool)
    ensures
        res == involves_player(m@),
{
    is_player(&m.team1) || is_player(&m.team2)
}

/// Finds the first participant with the given identifier.
pub fn find_participant(participants: &Vec<Opponent>, id: &String) -> (res: Option<usize>)
    ensures
        match res {
            Some(i) => has_id(participants.deep_view(), id@) && i == position_of(
                participants.deep_view(),
                id@,
            ) && i < participants.len(),
            None => !has_id(participants.deep_view(), id@),
        },
{
    let ghost all = participants.deep_view();
    let mut i: usize = 0;
    while i < participants.len()
        invariant
            i <= participants.len(),
            all == participants.deep_view(),
            forall|j: int| 0 <= j < i ==> #[trigger] all[j].id != id@,
        decreases participants.len() - i,
    {
        if participants[i].id == *id {
            assert(all[i as int].id == id@);
            return Some(i);
        }
        i = i + 1;
    }
    None
}

/// Finds the two teams of a match to simulate among the participants.
/// `Ok(None)` where the match is not to be simulated; an error where one of
/// its teams is missing.
pub fn contestants(participants: &Vec<Opponent>, m: &Match) -> (res: Result<
    Option<(usize, usize)>,
    TournamentError,
>)
    ensures
        match res {
            Ok(None) => !needs_simulation(m@),
            Ok(Some((i, j))) => {
                &&& needs_simulation(m@)
                &&& unknown_slot(participants.deep_view(), m@) is None
                &&& i < participants.len()
                &&& j < participants.len()
                &&& participants[i as int]@ == first_team(participants.deep_view(), m@)
                &&& participants[j as int]@ == second_team(participants.deep_view(), m@)
            },
            Err(e) => needs_simulation(m@) && unknown_slot(participants.deep_view(), m@) is Some
                && e == TournamentError::TeamNotFound(
                unknown_slot(participants.deep_view(), m@)->0,
            ),
        },
{
    if m.winner.is_some() || match_involves_player(m) {
        return Ok(None);
    }
    match find_participant(participants, &m.team1) {
        None => Err(TournamentError::TeamNotFound(TeamSlot::First)),
        Some(i) => match find_participant(participants, &m.team2) {
            None => Err(TournamentError::TeamNotFound(TeamSlot::Second)),
            Some(j) => {
                assert(participants.deep_view()[i as int] == participants[i as int]@);
                assert(participants.deep_view()[j as int] == participants[j as int]@);
                Ok(Some((i, j)))
            },
        },
    }
}

/// Copies a match and writes its winner down.
pub fn decided_match(m: &Match, winner: String) -> (res: Match)
    ensures
        res@ == decided(m@, winner@),
{
    Match { team1: m.team1.clone(), team2: m.team2.clone(), winner: Some(winner) }
}

/// Resolves a match, given whether the stronger team wins. A match that is
/// decided or has the player in it is returned as it is.
pub fn resolve_match(participants: &Vec<Opponent>, m: &Match, stronger_wins: bool) -> (res: Result<
    Match,
    TournamentError,
>)
    ensures
        match res {
            Ok(after) => resolved(participants.deep_view(), m@, stronger_wins) == Ok::<
                MatchView,
                TournamentError,
            >(after@),
            Err(e) => resolved(participants.deep_view(), m@, stronger_wins) == Err::<
                MatchView,
                TournamentError,
            >(e),
        },
{
    match contestants(participants, m) {
        Err(e) => Err(e),
        Ok(None) => Ok(m.clone()),
        Ok(Some((i, j))) => {
            let winner = decide_winner(&participants[i], &participants[j], stronger_wins);
            Ok(decided_match(m, winner))
        },
    }
}

/// Whether `after` is `before` once it has been settled: the same two teams;
/// where `before` was to be simulated, a winner that the simulation can
/// give; otherwise the winner, or none, that `before` had.
pub open spec fn settles(
    participants: Seq<OpponentView>,
    modifier: u8,
    before: MatchView,
    after: MatchView,
) -> bool {
    &&& after.team1 == before.team1
    &&& after.team2 == before.team2
    &&& if needs_simulation(before) {
        &&& after.winner is Some
        &&& is_simulated_winner(
            first_team(participants, before),
            second_team(participants, before),
            modifier,
            after.winner->0,
        )
    } else {
        after.winner == before.winner
    }
}

/// Settles a match: simulates it where it is undecided and has no player in
/// it, drawing whether the stronger team wins with that team's chance, and
/// returns it as it is otherwise. Fails where a team of a match to simulate
/// is not among the participants.
pub(crate) fn settle_match(
    rng: &mut ThreadRng,
    participants: &Vec<Opponent>,
    modifier: u8,
    m: &Match,
) -> (res: Result<Match, TournamentError>)
    ensures
        match res {
            Ok(after) => unknown_slot(participants.deep_view(), m@) is None && settles(
                participants.deep_view(),
                modifier,
                m@,
                after@,
            ),
            Err(e) => unknown_slot(participants.deep_view(), m@) is Some && e
                == TournamentError::TeamNotFound(unknown_slot(participants.deep_view(), m@)->0),
        },
{
    let stronger_wins = match contestants(participants, m) {
        Ok(Some((i, j))) => {
            let percent = win_percent(participants[i].level, participants[j].level, modifier);
            roll_ratio(rng, percent, 100)
        },
        _ => false,
    };
    resolve_match(participants, m, stronger_wins)
}

} // verus!
