//! The data of a tournament and its mathematical model.
//!
//! Every executable type has a view: the same record with each `String`
//! replaced by its sequence of characters and each `Vec` by a `Seq`. All
//! contracts of the engine are stated over these views.

use vstd::prelude::*;

verus! {

/// One way to face an opponent: a named difficulty and its level.
#[derive(Debug, PartialEq, Eq)]
pub struct Difficulty {
    pub name: String,
    pub level: u8,
}

/// Model of a [`Difficulty`].
pub struct DifficultyView {
    pub name: Seq<char>,
    pub level: u8,
}

impl View for Difficulty {
    type V = DifficultyView;

    open spec fn view(&self) -> DifficultyView {
        DifficultyView { name: self.name@, level: self.level }
    }
}

impl DeepView for Difficulty {
    type V = DifficultyView;

    open spec fn deep_view(&self) -> DifficultyView {
        self@
    }
}

impl Clone for Difficulty {
    fn clone(&self) -> (res: Self)
        ensures
            res@ == self@,
    {
        Difficulty { name: self.name.clone(), level: self.level }
    }
}

/// An opponent team. `level` and `difficulty_name` name the tier that is in
/// force; `difficulties` lists every tier the team can be faced at.
#[derive(Debug, PartialEq, Eq)]
pub struct Opponent {
    pub id: String,
    pub team_name: String,
    pub series_short: String,
    pub series_full: String,
    pub source: String,
    pub difficulties: Vec<Difficulty>,
    pub level: u8,
    pub difficulty_name: String,
}

/// Model of an [`Opponent`].
pub struct OpponentView {
    pub id: Seq<char>,
    pub team_name: Seq<char>,
    pub series_short: Seq<char>,
    pub series_full: Seq<char>,
    pub source: Seq<char>,
    pub difficulties: Seq<DifficultyView>,
    pub level: u8,
    pub difficulty_name: Seq<char>,
}

impl View for Opponent {
    type V = OpponentView;

    open spec fn view(&self) -> OpponentView {
        OpponentView {
            id: self.id@,
            team_name: self.team_name@,
            series_short: self.series_short@,
            series_full: self.series_full@,
            source: self.source@,
            difficulties: self.difficulties.deep_view(),
            level: self.level,
            difficulty_name: self.difficulty_name@,
        }
    }
}

impl DeepView for Opponent {
    type V = OpponentView;

    open spec fn deep_view(&self) -> OpponentView {
        self@
    }
}

/// Whether some opponent of the list has the identifier.
pub open spec fn has_id(opponents: Seq<OpponentView>, id: Seq<char>) -> bool {
    exists|i: int| 0 <= i < opponents.len() && #[trigger] opponents[i].id == id
}

/// The position of the first opponent of the list that has the identifier.
pub open spec fn position_of(opponents: Seq<OpponentView>, id: Seq<char>) -> int {
    choose|i: int|
        0 <= i < opponents.len() && #[trigger] opponents[i].id == id && forall|j: int|
            0 <= j < i ==> #[trigger] opponents[j].id != id
}

/// Whether no two opponents of the list share an identifier.
pub open spec fn ids_distinct(opponents: Seq<OpponentView>) -> bool {
    forall|i: int, j: int|
        0 <= i < j < opponents.len() ==> #[trigger] opponents[i].id != #[trigger] opponents[j].id
}

/// Copies a list of tiers.
pub fn clone_tiers(tiers: &Vec<Difficulty>) -> (res: Vec<Difficulty>)
    ensures
        res.deep_view() == tiers.deep_view(),
        res.len() == tiers.len(),
{
    let mut res: Vec<Difficulty> = Vec::new();
    let mut i: usize = 0;
    while i < tiers.len()
        invariant
            i <= tiers.len(),
            res.len() == i,
            forall|k: int| 0 <= k < i ==> res[k]@ == tiers[k]@,
        decreases tiers.len() - i,
    {
        res.push(tiers[i].clone());
        i = i + 1;
    }
    assert(res.deep_view() =~= tiers.deep_view());
    res
}

impl Clone for Opponent {
    fn clone(&self) -> (res: Self)
        ensures
            res@ == self@,
    {
        Opponent {
            id: self.id.clone(),
            team_name: self.team_name.clone(),
            series_short: self.series_short.clone(),
            series_full: self.series_full.clone(),
            source: self.source.clone(),
            difficulties: clone_tiers(&self.difficulties),
            level: self.level,
            difficulty_name: self.difficulty_name.clone(),
        }
    }
}

/// Copies a list of texts.
pub fn clone_texts(texts: &Vec<String>) -> (res: Vec<String>)
    ensures
        res.deep_view() == texts.deep_view(),
        res.len() == texts.len(),
{
    let mut res: Vec<String> = Vec::new();
    let mut i: usize = 0;
    while i < texts.len()
        invariant
            i <= texts.len(),
            res.len() == i,
            forall|k: int| 0 <= k < i ==> res[k]@ == texts[k]@,
        decreases texts.len() - i,
    {
        res.push(texts[i].clone());
        i = i + 1;
    }
    assert(res.deep_view() =~= texts.deep_view());
    res
}

/// Copies a list of opponents.
pub fn clone_opponents(opponents: &Vec<Opponent>) -> (res: Vec<Opponent>)
    ensures
        res.deep_view() == opponents.deep_view(),
        res.len() == opponents.len(),
{
    let mut res: Vec<Opponent> = Vec::new();
    let mut i: usize = 0;
    while i < opponents.len()
        invariant
            i <= opponents.len(),
            res.len() == i,
            forall|k: int| 0 <= k < i ==> res[k]@ == opponents[k]@,
        decreases opponents.len() - i,
    {
        res.push(opponents[i].clone());
        i = i + 1;
    }
    assert(res.deep_view() =~= opponents.deep_view());
    res
}

/// What the player asked for: their own level, the size of the bracket, how
/// far an opponent's level may lie below and above the player's, how strongly
/// a level difference sways a simulated match, and which opponents may appear.
#[derive(Debug, PartialEq, Eq)]
pub struct TournamentSettings {
    pub player_team_level: u8,
    pub team_count: u8,
    pub level_tolerance_lower: u8,
    pub level_tolerance_upper: u8,
    pub level_win_rate_modifier: u8,
    pub allowed_sources: Vec<String>,
    pub unlocked_opponents: Vec<String>,
}

/// Model of [`TournamentSettings`].
pub struct SettingsView {
    pub player_team_level: u8,
    pub team_count: u8,
    pub level_tolerance_lower: u8,
    pub level_tolerance_upper: u8,
    pub level_win_rate_modifier: u8,
    pub allowed_sources: Seq<Seq<char>>,
    pub unlocked_opponents: Seq<Seq<char>>,
}

impl View for TournamentSettings {
    type V = SettingsView;

    open spec fn view(&self) -> SettingsView {
        SettingsView {
            player_team_level: self.player_team_level,
            team_count: self.team_count,
            level_tolerance_lower: self.level_tolerance_lower,
            level_tolerance_upper: self.level_tolerance_upper,
            level_win_rate_modifier: self.level_win_rate_modifier,
            allowed_sources: self.allowed_sources.deep_view(),
            unlocked_opponents: self.unlocked_opponents.deep_view(),
        }
    }
}

impl DeepView for TournamentSettings {
    type V = SettingsView;

    open spec fn deep_view(&self) -> SettingsView {
        self@
    }
}

impl Clone for TournamentSettings {
    fn clone(&self) -> (res: Self)
        ensures
            res@ == self@,
    {
        TournamentSettings {
            player_team_level: self.player_team_level,
            team_count: self.team_count,
            level_tolerance_lower: self.level_tolerance_lower,
            level_tolerance_upper: self.level_tolerance_upper,
            level_win_rate_modifier: self.level_win_rate_modifier,
            allowed_sources: clone_texts(&self.allowed_sources),
            unlocked_opponents: clone_texts(&self.unlocked_opponents),
        }
    }
}

/// One pairing of a round. `winner` is empty until the match is decided and
/// is never written a second time.
#[derive(Debug, PartialEq, Eq)]
pub struct Match {
    pub team1: String,
    pub team2: String,
    pub winner: Option<String>,
}

/// Model of a [`Match`].
pub struct MatchView {
    pub team1: Seq<char>,
    pub team2: Seq<char>,
    pub winner: Option<Seq<char>>,
}

impl View for Match {
    type V = MatchView;

    open spec fn view(&self) -> MatchView {
        MatchView { team1: self.team1@, team2: self.team2@, winner: self.winner.deep_view() }
    }
}

impl DeepView for Match {
    type V = MatchView;

    open spec fn deep_view(&self) -> MatchView {
        self@
    }
}

impl Clone for Match {
    fn clone(&self) -> (res: Self)
        ensures
            res@ == self@,
    {
        let winner = match &self.winner {
            Some(w) => Some(w.clone()),
            None => None,
        };
        Match { team1: self.team1.clone(), team2: self.team2.clone(), winner }
    }
}

/// The whole state of a tournament. `participants` holds the opponents of the
/// bracket (never the player), found by their `id`; `rounds` holds every round
/// played or in play, oldest first; `bye_teams` holds who sits out the round
/// in play; `status` is the phase in words.
#[derive(Debug, PartialEq, Eq)]
pub struct Tournament {
    pub participants: Vec<Opponent>,
    pub level_win_rate_modifier: u8,
    pub rounds: Vec<Vec<Match>>,
    pub bye_teams: Vec<String>,
    pub status: String,
}

/// Model of a [`Tournament`].
pub struct TournamentView {
    pub participants: Seq<OpponentView>,
    pub level_win_rate_modifier: u8,
    pub rounds: Seq<Seq<MatchView>>,
    pub bye_teams: Seq<Seq<char>>,
    pub status: Seq<char>,
}

impl View for Tournament {
    type V = TournamentView;

    open spec fn view(&self) -> TournamentView {
        TournamentView {
            participants: self.participants.deep_view(),
            level_win_rate_modifier: self.level_win_rate_modifier,
            rounds: self.rounds.deep_view(),
            bye_teams: self.bye_teams.deep_view(),
            status: self.status@,
        }
    }
}

impl DeepView for Tournament {
    type V = TournamentView;

    open spec fn deep_view(&self) -> TournamentView {
        self@
    }
}

/// Copies a round.
pub fn clone_round(round: &Vec<Match>) -> (res: Vec<Match>)
    ensures
        res.deep_view() == round.deep_view(),
        res.len() == round.len(),
{
    let mut res: Vec<Match> = Vec::new();
    let mut i: usize = 0;
    while i < round.len()
        invariant
            i <= round.len(),
            res.len() == i,
            forall|k: int| 0 <= k < i ==> res[k]@ == round[k]@,
        decreases round.len() - i,
    {
        res.push(round[i].clone());
        i = i + 1;
    }
    assert(res.deep_view() =~= round.deep_view());
    res
}

impl Clone for Tournament {
    fn clone(&self) -> (res: Self)
        ensures
            res@ == self@,
    {
        let mut rounds: Vec<Vec<Match>> = Vec::new();
        let mut i: usize = 0;
        while i < self.rounds.len()
            invariant
                i <= self.rounds.len(),
                rounds.len() == i,
                forall|k: int| 0 <= k < i ==> rounds[k].deep_view() == self.rounds[k].deep_view(),
            decreases self.rounds.len() - i,
        {
            rounds.push(clone_round(&self.rounds[i]));
            i = i + 1;
        }
        assert(rounds.deep_view() =~= self.rounds.deep_view());
        Tournament {
            participants: clone_opponents(&self.participants),
            level_win_rate_modifier: self.level_win_rate_modifier,
            rounds,
            bye_teams: clone_texts(&self.bye_teams),
            status: self.status.clone(),
        }
    }
}

/// What a caller may show of the eligible opponents: how many there are, and
/// one line of text for each.
#[derive(Debug, PartialEq, Eq)]
pub struct PlayableOpponentInfo {
    pub count: usize,
    pub opponents: Vec<String>,
}

/// Model of a [`PlayableOpponentInfo`].
pub struct PlayableOpponentInfoView {
    pub count: usize,
    pub opponents: Seq<Seq<char>>,
}

impl View for PlayableOpponentInfo {
    type V = PlayableOpponentInfoView;

    open spec fn view(&self) -> PlayableOpponentInfoView {
        PlayableOpponentInfoView { count: self.count, opponents: self.opponents.deep_view() }
    }
}

impl Clone for PlayableOpponentInfo {
    fn clone(&self) -> (res: Self)
        ensures
            res@ == self@,
    {
        PlayableOpponentInfo { count: self.count, opponents: clone_texts(&self.opponents) }
    }
}

} // verus!
