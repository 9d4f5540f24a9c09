use tournament::resolver::{
    contestants, decide_winner, decided_match, find_participant, match_involves_player,
    resolve_match, win_percent,
};
use tournament::{Difficulty, Match, Opponent, TeamSlot, TournamentError};

fn opponent(id: &str, level: u8) -> Opponent {
    Opponent {
        id: id.to_string(),
        team_name: id.to_string(),
        series_short: "IE1".to_string(),
        series_full: "Series".to_string(),
        source: "Story".to_string(),
        difficulties: vec![Difficulty { name: "n".to_string(), level }],
        level,
        difficulty_name: "n".to_string(),
    }
}

fn game(team1: &str, team2: &str, winner: Option<&str>) -> Match {
    Match {
        team1: team1.to_string(),
        team2: team2.to_string(),
        winner: winner.map(|w| w.to_string()),
    }
}

#[test]
fn win_percent_adds_the_capped_bonus_to_fifty() {
    assert_eq!(win_percent(40, 60, 1), 70);
    assert_eq!(win_percent(60, 40, 1), 70);
    assert_eq!(win_percent(40, 60, 2), 90);
    assert_eq!(win_percent(40, 60, 3), 100);
    assert_eq!(win_percent(50, 50, 100), 50);
    assert_eq!(win_percent(0, 255, 255), 100);
    assert_eq!(win_percent(7, 9, 0), 50);
    assert_eq!(win_percent(10, 35, 2), 100);
    assert_eq!(win_percent(10, 34, 2), 98);
    assert_eq!(win_percent(10, 11, 50), 100);
    assert_eq!(win_percent(10, 11, 51), 100);
    assert_eq!(win_percent(10, 11, 49), 99);
}

#[test]
fn win_percent_stays_between_fifty_and_a_hundred() {
    let mut a: u32 = 0;
    while a < 256 {
        let mut b: u32 = 0;
        while b < 256 {
            for m in [0u8, 1, 2, 3, 50, 100, 255] {
                let p = win_percent(a as u8, b as u8, m);
                assert!(p >= 50 && p <= 100);
                let diff = if a > b { a - b } else { b - a };
                assert_eq!(p, 50 + std::cmp::min(diff * m as u32, 50));
            }
            b += 5;
        }
        a += 5;
    }
}

#[test]
fn decide_winner_follows_the_draw() {
    let low = opponent("low", 40);
    let high = opponent("high", 60);
    assert_eq!(decide_winner(&low, &high, true), "high");
    assert_eq!(decide_winner(&low, &high, false), "low");
    assert_eq!(decide_winner(&high, &low, true), "high");
    assert_eq!(decide_winner(&high, &low, false), "low");
}

#[test]
fn decide_winner_takes_the_second_team_as_stronger_on_equal_levels() {
    let a = opponent("a", 50);
    let b = opponent("b", 50);
    assert_eq!(decide_winner(&a, &b, true), "b");
    assert_eq!(decide_winner(&a, &b, false), "a");
}

#[test]
fn match_involves_player_checks_both_teams() {
    assert!(match_involves_player(&game("Player", "A", None)));
    assert!(match_involves_player(&game("A", "Player", None)));
    assert!(match_involves_player(&game("Player", "Player", Some("Player"))));
    assert!(!match_involves_player(&game("A", "B", Some("Player"))));
    assert!(!match_involves_player(&game("player", "B", None)));
}

#[test]
fn find_participant_returns_the_first_position_of_an_identifier() {
    let list = vec![opponent("a", 1), opponent("b", 2), opponent("a", 3)];
    assert_eq!(find_participant(&list, &"a".to_string()), Some(0));
    assert_eq!(find_participant(&list, &"b".to_string()), Some(1));
    assert_eq!(find_participant(&list, &"c".to_string()), None);
    assert_eq!(find_participant(&Vec::new(), &"a".to_string()), None);
}

#[test]
fn contestants_are_found_for_matches_to_simulate_only() {
    let list = vec![opponent("a", 1), opponent("b", 2)];
    assert_eq!(contestants(&list, &game("b", "a", None)), Ok(Some((1, 0))));
    assert_eq!(contestants(&list, &game("a", "a", None)), Ok(Some((0, 0))));
    assert_eq!(contestants(&list, &game("b", "a", Some("a"))), Ok(None));
    assert_eq!(contestants(&list, &game("Player", "a", None)), Ok(None));
    assert_eq!(contestants(&list, &game("x", "Player", None)), Ok(None));
    assert_eq!(contestants(&list, &game("x", "y", Some("z"))), Ok(None));
    assert_eq!(
        contestants(&list, &game("x", "a", None)),
        Err(TournamentError::TeamNotFound(TeamSlot::First))
    );
    assert_eq!(
        contestants(&list, &game("a", "y", None)),
        Err(TournamentError::TeamNotFound(TeamSlot::Second))
    );
    assert_eq!(
        contestants(&list, &game("x", "y", None)),
        Err(TournamentError::TeamNotFound(TeamSlot::First))
    );
}

#[test]
fn decided_match_writes_the_winner_down() {
    let m = game("a", "b", None);
    assert_eq!(decided_match(&m, "b".to_string()), game("a", "b", Some("b")));
    assert_eq!(m.winner, None);
}

#[test]
fn resolve_match_names_the_winner_by_level_and_draw() {
    let list = vec![opponent("weak", 40), opponent("strong", 60)];
    let m = game("weak", "strong", None);
    assert_eq!(resolve_match(&list, &m, true), Ok(game("weak", "strong", Some("strong"))));
    assert_eq!(resolve_match(&list, &m, false), Ok(game("weak", "strong", Some("weak"))));
    let m = game("strong", "weak", None);
    assert_eq!(resolve_match(&list, &m, true), Ok(game("strong", "weak", Some("strong"))));
    assert_eq!(resolve_match(&list, &m, false), Ok(game("strong", "weak", Some("weak"))));
}

#[test]
fn resolve_match_leaves_decided_matches_alone() {
    let list = vec![opponent("weak", 40), opponent("strong", 60)];
    let m = game("weak", "strong", Some("weak"));
    assert_eq!(resolve_match(&list, &m, true), Ok(game("weak", "strong", Some("weak"))));
    let m = game("ghost", "strong", Some("ghost"));
    assert_eq!(resolve_match(&list, &m, true), Ok(game("ghost", "strong", Some("ghost"))));
}

#[test]
fn resolve_match_never_decides_a_match_of_the_player() {
    let list = vec![opponent("weak", 40), opponent("strong", 60)];
    let m = game("Player", "strong", None);
    assert_eq!(resolve_match(&list, &m, true), Ok(game("Player", "strong", None)));
    assert_eq!(resolve_match(&list, &m, false), Ok(game("Player", "strong", None)));
    let m = game("weak", "Player", None);
    assert_eq!(resolve_match(&list, &m, true), Ok(game("weak", "Player", None)));
}

#[test]
fn resolve_match_fails_for_a_missing_team() {
    let list = vec![opponent("weak", 40), opponent("strong", 60)];
    assert_eq!(
        resolve_match(&list, &game("ghost", "strong", None), true),
        Err(TournamentError::TeamNotFound(TeamSlot::First))
    );
    assert_eq!(
        resolve_match(&list, &game("weak", "ghost", None), false),
        Err(TournamentError::TeamNotFound(TeamSlot::Second))
    );
}
