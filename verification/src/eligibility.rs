//! The eligibility filter: which opponents of the catalog may enter a bracket
//! under given settings, and at which of their tiers.

use vstd::prelude::*;
use vstd::string::*;
use crate::model::{
    ids_distinct, Difficulty, DifficultyView, Opponent, OpponentView, PlayableOpponentInfo,
    PlayableOpponentInfoView, SettingsView, TournamentSettings,
};
use crate::text::{decimal, decimal_string};

verus! {

/// The lowest level an opponent may have: the player's level less the lower
/// tolerance, and not below 0.
pub open spec fn min_level(s: SettingsView) -> int {
    if s.player_team_level >= s.level_tolerance_lower {
        s.player_team_level - s.level_tolerance_lower
    } else {
        0
    }
}

/// The highest level an opponent may have: the player's level plus the upper
/// tolerance.
pub open spec fn max_level(s: SettingsView) -> int {
    s.player_team_level + s.level_tolerance_upper
}

/// Whether a level lies within the tolerances of the settings.
pub open spec fn within_tolerance(s: SettingsView, level: u8) -> bool {
    min_level(s) <= level <= max_level(s)
}

/// The distance between a level and the player's.
pub open spec fn level_gap(s: SettingsView, level: u8) -> int {
    if level >= s.player_team_level {
        level - s.player_team_level
    } else {
        s.player_team_level - level
    }
}

/// Whether some tier of the list lies within the tolerances.
pub open spec fn has_tier_within_tolerance(s: SettingsView, tiers: Seq<DifficultyView>) -> bool {
    exists|i: int| 0 <= i < tiers.len() && within_tolerance(s, #[trigger] tiers[i].level)
}

/// Whether tier `i` of the list is the one to select: it lies within the
/// tolerances, no tier within them is nearer to the player's level, and every
/// tier within them that comes before it is farther away.
pub open spec fn is_selected_tier(s: SettingsView, tiers: Seq<DifficultyView>, i: int) -> bool {
    &&& 0 <= i < tiers.len()
    &&& within_tolerance(s, tiers[i].level)
    &&& forall|j: int|
        0 <= j < tiers.len() && within_tolerance(s, #[trigger] tiers[j].level) ==> level_gap(
            s,
            tiers[i].level,
        ) <= level_gap(s, tiers[j].level)
    &&& forall|j: int|
        0 <= j < i && within_tolerance(s, #[trigger] tiers[j].level) ==> level_gap(
            s,
            tiers[i].level,
        ) < level_gap(s, tiers[j].level)
}

/// The position of the tier to select, where there is one.
pub open spec fn selected_tier(s: SettingsView, tiers: Seq<DifficultyView>) -> int {
    choose|i: int| is_selected_tier(s, tiers, i)
}

/// Whether an opponent may enter a bracket: its identifier is unlocked, its
/// source is allowed and one of its tiers lies within the tolerances.
pub open spec fn qualifies(s: SettingsView, o: OpponentView) -> bool {
    &&& s.unlocked_opponents.contains(o.id)
    &&& s.allowed_sources.contains(o.source)
    &&& has_tier_within_tolerance(s, o.difficulties)
}

/// An opponent with the selected tier put in force.
pub open spec fn with_selected_tier(s: SettingsView, o: OpponentView) -> OpponentView {
    OpponentView {
        level: o.difficulties[selected_tier(s, o.difficulties)].level,
        difficulty_name: o.difficulties[selected_tier(s, o.difficulties)].name,
        ..o
    }
}

/// Whether an opponent is fit to enter a bracket as it stands: its
/// identifier is unlocked, its source is allowed, and the tier in force is
/// the one to select, which lies within the tolerances, is nearest to the
/// player's level and is the first of the nearest.
pub open spec fn is_fit(s: SettingsView, o: OpponentView) -> bool {
    &&& s.unlocked_opponents.contains(o.id)
    &&& s.allowed_sources.contains(o.source)
    &&& within_tolerance(s, o.level)
    &&& is_selected_tier(s, o.difficulties, selected_tier(s, o.difficulties))
    &&& o.level == o.difficulties[selected_tier(s, o.difficulties)].level
    &&& o.difficulty_name == o.difficulties[selected_tier(s, o.difficulties)].name
}

/// The copy of an opponent that enters the eligible list, if it qualifies.
pub open spec fn eligible_copy(s: SettingsView, o: OpponentView) -> Option<OpponentView> {
    if qualifies(s, o) {
        Some(with_selected_tier(s, o))
    } else {
        None
    }
}

/// `eligible_copy` under fixed settings.
pub open spec fn eligibility(s: SettingsView) -> spec_fn(OpponentView) -> Option<OpponentView> {
    |o: OpponentView| eligible_copy(s, o)
}

/// The eligible list of a catalog: the copies of the opponents that qualify,
/// in the order of the catalog.
pub open spec fn eligible(s: SettingsView, catalog: Seq<OpponentView>) -> Seq<OpponentView> {
    catalog.filter_map(eligibility(s))
}

/// At most one tier of a list is the one to select.
pub proof fn lemma_selected_tier_unique(s: SettingsView, tiers: Seq<DifficultyView>, i: int, j: int)
    requires
        is_selected_tier(s, tiers, i),
        is_selected_tier(s, tiers, j),
    ensures
        i == j,
{
}

/// Whether a list of texts holds the given text.
pub fn contains_text(list: &Vec<String>, text: &String) -> (res: bool)
    ensures
        res == list.deep_view().contains(text@),
{
    let mut i: usize = 0;
    while i < list.len()
        invariant
            i <= list.len(),
            forall|k: int| 0 <= k < i ==> list[k]@ != text@,
        decreases list.len() - i,
    {
        if list[i] == *text {
            assert(list.deep_view()[i as int] == text@);
            return true;
        }
        i = i + 1;
    }
    assert forall|k: int| 0 <= k < list.deep_view().len() implies list.deep_view()[k]
        != text@ by {
        assert(list.deep_view()[k] == list[k]@);
    }
    false
}

/// Selects the tier of a list to face an opponent at: among the tiers within
/// the tolerances, the one nearest to the player's level, and the first of
/// them where several are equally near. `None` if no tier lies within the
/// tolerances.
pub fn select_tier(settings: &TournamentSettings, tiers: &Vec<Difficulty>) -> (res: Option<usize>)
    ensures
        match res {
            Some(i) => is_selected_tier(settings@, tiers.deep_view(), i as int),
            None => !has_tier_within_tolerance(settings@, tiers.deep_view()),
        },
{
    let player: u8 = settings.player_team_level;
    let lowest: u8 = if player >= settings.level_tolerance_lower {
        player - settings.level_tolerance_lower
    } else {
        0
    };
    let highest: u8 = if settings.level_tolerance_upper <= 255 - player {
        player + settings.level_tolerance_upper
    } else {
        255
    };
    let ghost s = settings@;
    let ghost all = tiers.deep_view();
    let mut best: Option<usize> = None;
    let mut best_gap: u8 = 0;
    let mut i: usize = 0;
    while i < tiers.len()
        invariant
            i <= tiers.len(),
            s == settings@,
            all == tiers.deep_view(),
            player == s.player_team_level,
            lowest == min_level(s),
            highest == if max_level(s) <= 255 {
                max_level(s)
            } else {
                255
            },
            match best {
                Some(b) => {
                    &&& b < i
                    &&& within_tolerance(s, all[b as int].level)
                    &&& best_gap == level_gap(s, all[b as int].level)
                    &&& forall|j: int|
                        0 <= j < i && within_tolerance(s, #[trigger] all[j].level) ==> best_gap
                            <= level_gap(s, all[j].level)
                    &&& forall|j: int|
                        0 <= j < b && within_tolerance(s, #[trigger] all[j].level) ==> best_gap
                            < level_gap(s, all[j].level)
                },
                None => forall|j: int| 0 <= j < i ==> !within_tolerance(s, #[trigger] all[j].level),
            },
        decreases tiers.len() - i,
    {
        let level: u8 = tiers[i].level;
        assert(all[i as int].level == level);
        if lowest <= level && level <= highest {
            let gap: u8 = if level >= player {
                level - player
            } else {
                player - level
            };
            match best {
                Some(_) => {
                    if gap < best_gap {
                        best = Some(i);
                        best_gap = gap;
                    }
                },
                None => {
                    best = Some(i);
                    best_gap = gap;
                },
            }
        }
        i = i + 1;
    }
    best
}

/// Copies an opponent and puts the given tier of its list in force.
pub fn opponent_at_tier(opponent: &Opponent, tier: usize) -> (res: Opponent)
    requires
        tier < opponent.difficulties.len(),
    ensures
        res@ == (OpponentView {
            level: opponent@.difficulties[tier as int].level,
            difficulty_name: opponent@.difficulties[tier as int].name,
            ..opponent@
        }),
{
    let mut res = opponent.clone();
    res.level = opponent.difficulties[tier].level;
    res.difficulty_name = opponent.difficulties[tier].name.clone();
    res
}

/// Builds the copy of an opponent that enters the eligible list, if it
/// qualifies.
pub fn eligible_opponent(settings: &TournamentSettings, opponent: &Opponent) -> (res: Option<
    Opponent,
>)
    ensures
        res.deep_view() == eligible_copy(settings@, opponent@),
{
    if contains_text(&settings.unlocked_opponents, &opponent.id) && contains_text(
        &settings.allowed_sources,
        &opponent.source,
    ) {
        match select_tier(settings, &opponent.difficulties) {
            Some(tier) => {
                proof {
                    let chosen = selected_tier(settings@, opponent@.difficulties);
                    assert(is_selected_tier(settings@, opponent@.difficulties, tier as int));
                    assert(within_tolerance(settings@, opponent@.difficulties[tier as int].level));
                    lemma_selected_tier_unique(
                        settings@,
                        opponent@.difficulties,
                        tier as int,
                        chosen,
                    );
                }
                Some(opponent_at_tier(opponent, tier))
            },
            None => None,
        }
    } else {
        None
    }
}

/// Lists the opponents of the catalog that may enter a bracket under the
/// settings, each with its selected tier in force, in the order of the
/// catalog.
pub fn get_eligible_opponents(settings: &TournamentSettings, catalog: &Vec<Opponent>) -> (res: Vec<
    Opponent,
>)
    ensures
        res.deep_view() == eligible(settings@, catalog.deep_view()),
        res.len() <= catalog.len(),
        forall|k: int| 0 <= k < res.len() ==> is_fit(settings@, #[trigger] res.deep_view()[k]),
        ids_distinct(catalog.deep_view()) ==> ids_distinct(res.deep_view()),
{
    let ghost s = settings@;
    let ghost all = catalog.deep_view();
    let ghost mut origin: Seq<int> = Seq::empty();
    let mut res: Vec<Opponent> = Vec::new();
    let mut k: usize = 0;
    assert(all.take(0) =~= Seq::<OpponentView>::empty());
    assert(res.deep_view() =~= Seq::<OpponentView>::empty());
    while k < catalog.len()
        invariant
            k <= catalog.len(),
            s == settings@,
            all == catalog.deep_view(),
            res.deep_view() == eligible(s, all.take(k as int)),
            res.len() <= k,
            origin.len() == res.len(),
            forall|h: int| 0 <= h < origin.len() ==> 0 <= #[trigger] origin[h] < k,
            forall|h: int, g: int| 0 <= h < g < origin.len() ==> origin[h] < origin[g],
            forall|h: int|
                0 <= h < origin.len() ==> res.deep_view()[h] == with_selected_tier(
                    s,
                    all[#[trigger] origin[h]],
                ) && qualifies(s, all[origin[h]]),
        decreases catalog.len() - k,
    {
        let ghost before = res.deep_view();
        proof {
            all.lemma_filter_map_take_succ(eligibility(s), k as int);
            assert(all[k as int] == catalog[k as int]@);
        }
        match eligible_opponent(settings, &catalog[k]) {
            Some(copy) => {
                res.push(copy);
                proof {
                    let ghost earlier = origin;
                    origin = origin.push(k as int);
                    assert(res.deep_view() =~= before + seq![copy@]);
                    assert forall|h: int| 0 <= h < origin.len() implies res.deep_view()[h]
                        == with_selected_tier(s, all[#[trigger] origin[h]]) && qualifies(
                        s,
                        all[origin[h]],
                    ) by {
                        if h < earlier.len() {
                            assert(origin[h] == earlier[h]);
                            assert(res.deep_view()[h] == before[h]);
                        }
                    }
                }
            },
            None => {
                proof {
                    assert(before + Seq::<OpponentView>::empty() =~= before);
                }
            },
        }
        k = k + 1;
    }
    proof {
        assert(all.take(k as int) =~= all);
        let out = res.deep_view();
        assert forall|h: int| 0 <= h < res.len() implies is_fit(s, #[trigger] out[h]) by {
            let at = origin[h];
            let source = all[at];
            assert(qualifies(s, source));
            assert(out[h] == with_selected_tier(s, source));
            let w = choose|i: int|
                0 <= i < source.difficulties.len() && within_tolerance(
                    s,
                    #[trigger] source.difficulties[i].level,
                );
            lemma_selection_exists(s, source.difficulties, w);
        }
        if ids_distinct(all) {
            assert forall|h: int, g: int| 0 <= h < g < out.len() implies #[trigger] out[h].id
                != #[trigger] out[g].id by {
                let (a, b) = (origin[h], origin[g]);
                assert(out[h].id == all[a].id);
                assert(out[g].id == all[b].id);
            }
        }
    }
    res
}

/// A list with a tier within the tolerances has a tier to select.
pub proof fn lemma_selection_exists(s: SettingsView, tiers: Seq<DifficultyView>, w: int)
    requires
        0 <= w < tiers.len(),
        within_tolerance(s, tiers[w].level),
    ensures
        is_selected_tier(s, tiers, selected_tier(s, tiers)),
{
    let i = first_nearest(s, tiers, tiers.len() as int);
    lemma_first_nearest(s, tiers, tiers.len() as int, w);
    assert(is_selected_tier(s, tiers, i));
}

/// The position of the first nearest tier within the tolerances among the
/// first `n` tiers of a list, or -1 if none of them lies within the
/// tolerances.
spec fn first_nearest(s: SettingsView, tiers: Seq<DifficultyView>, n: int) -> int
    decreases n,
{
    if n <= 0 {
        -1
    } else {
        let before = first_nearest(s, tiers, n - 1);
        if !within_tolerance(s, tiers[n - 1].level) {
            before
        } else if before < 0 || level_gap(s, tiers[n - 1].level) < level_gap(
            s,
            tiers[before].level,
        ) {
            n - 1
        } else {
            before
        }
    }
}

/// `first_nearest` is what its name says.
proof fn lemma_first_nearest(s: SettingsView, tiers: Seq<DifficultyView>, n: int, w: int)
    requires
        0 <= n <= tiers.len(),
    ensures
        -1 <= first_nearest(s, tiers, n) < n,
        0 <= w < n && within_tolerance(s, tiers[w].level) ==> first_nearest(s, tiers, n) >= 0,
        first_nearest(s, tiers, n) < 0 ==> forall|j: int|
            0 <= j < n ==> !within_tolerance(s, #[trigger] tiers[j].level),
        first_nearest(s, tiers, n) >= 0 ==> {
            let i = first_nearest(s, tiers, n);
            &&& within_tolerance(s, tiers[i].level)
            &&& forall|j: int|
                0 <= j < n && within_tolerance(s, #[trigger] tiers[j].level) ==> level_gap(
                    s,
                    tiers[i].level,
                ) <= level_gap(s, tiers[j].level)
            &&& forall|j: int|
                0 <= j < i && within_tolerance(s, #[trigger] tiers[j].level) ==> level_gap(
                    s,
                    tiers[i].level,
                ) < level_gap(s, tiers[j].level)
        },
    decreases n,
{
    if n > 0 {
        lemma_first_nearest(s, tiers, n - 1, w);
    }
}

/// The line of text that presents an eligible opponent:
/// `<id> (Lv.<level>)`.
pub open spec fn opponent_line(o: OpponentView) -> Seq<char> {
    o.id + " (Lv."@ + decimal(o.level as nat) + ")"@
}

/// What is shown of a list of eligible opponents.
pub open spec fn info_of(list: Seq<OpponentView>) -> PlayableOpponentInfoView {
    PlayableOpponentInfoView {
        count: list.len() as usize,
        opponents: Seq::new(list.len(), |i: int| opponent_line(list[i])),
    }
}

/// Writes the line of text that presents an eligible opponent.
pub fn format_opponent(opponent: &Opponent) -> (res: String)
    ensures
        res@ == opponent_line(opponent@),
{
    let mut line = opponent.id.clone();
    line.append(" (Lv.");
    let level = decimal_string(opponent.level as usize);
    line.append(level.as_str());
    line.append(")");
    line
}

/// Presents a list of eligible opponents: their number and one line each.
pub fn playable_info(list: &Vec<Opponent>) -> (res: PlayableOpponentInfo)
    ensures
        res@ == info_of(list.deep_view()),
{
    let mut lines: Vec<String> = Vec::new();
    let mut i: usize = 0;
    while i < list.len()
        invariant
            i <= list.len(),
            lines.len() == i,
            forall|k: int| 0 <= k < i ==> lines[k]@ == opponent_line(list[k]@),
        decreases list.len() - i,
    {
        lines.push(format_opponent(&list[i]));
        i = i + 1;
    }
    assert(lines.deep_view() =~= info_of(list.deep_view()).opponents);
    PlayableOpponentInfo { count: lines.len(), opponents: lines }
}

/// Presents the opponents of the catalog that may enter a bracket under the
/// settings.
pub fn get_playable_opponents_info(settings: &TournamentSettings, catalog: &Vec<Opponent>) -> (res:
    PlayableOpponentInfo)
    ensures
        res@ == info_of(eligible(settings@, catalog.deep_view())),
{
    let list = get_eligible_opponents(settings, catalog);
    playable_info(&list)
}

} // verus!
