use tournament::bracket::{
    assemble_bracket, build_bracket, entrant_names, opponents_needed, pair_teams, pick_opponents,
};
use tournament::{Difficulty, Match, Opponent, Tournament, TournamentError, TournamentSettings};

fn opponent(id: &str, level: u8) -> Opponent {
    Opponent {
        id: id.to_string(),
        team_name: id.to_string(),
        series_short: "IE1".to_string(),
        series_full: "Series".to_string(),
        source: "Story".to_string(),
        difficulties: vec![Difficulty { name: "n".to_string(), level }],
        level,
        difficulty_name: "n".to_string(),
    }
}

fn pool(n: usize) -> Vec<Opponent> {
    (0..n).map(|i| opponent(&format!("T{}", i), (i % 200) as u8)).collect()
}

fn settings(team_count: u8, modifier: u8) -> TournamentSettings {
    TournamentSettings {
        player_team_level: 50,
        team_count,
        level_tolerance_lower: 5,
        level_tolerance_upper: 5,
        level_win_rate_modifier: modifier,
        allowed_sources: Vec::new(),
        unlocked_opponents: Vec::new(),
    }
}

fn names(list: &[&str]) -> Vec<String> {
    list.iter().map(|s| s.to_string()).collect()
}

fn game(team1: &str, team2: &str) -> Match {
    Match { team1: team1.to_string(), team2: team2.to_string(), winner: None }
}

fn entrants(t: &Tournament, round: usize) -> Vec<String> {
    let mut all = t.bye_teams.clone();
    for m in t.rounds[round].iter() {
        all.push(m.team1.clone());
        all.push(m.team2.clone());
    }
    all
}

#[test]
fn opponents_needed_is_one_less_than_the_team_count() {
    assert_eq!(opponents_needed(0), 0);
    assert_eq!(opponents_needed(1), 0);
    assert_eq!(opponents_needed(2), 1);
    assert_eq!(opponents_needed(4), 3);
    assert_eq!(opponents_needed(255), 254);
}

#[test]
fn pair_teams_pairs_an_even_number_in_order() {
    let (bye, matches) = pair_teams(&names(&["a", "b", "c", "d"]));
    assert!(bye.is_empty());
    assert_eq!(matches, vec![game("a", "b"), game("c", "d")]);
}

#[test]
fn pair_teams_lets_the_first_of_an_odd_number_sit_out() {
    let (bye, matches) = pair_teams(&names(&["a", "b", "c", "d", "e"]));
    assert_eq!(bye, names(&["a"]));
    assert_eq!(matches, vec![game("b", "c"), game("d", "e")]);
    let (bye, matches) = pair_teams(&names(&["a", "b", "c"]));
    assert_eq!(bye, names(&["a"]));
    assert_eq!(matches, vec![game("b", "c")]);
}

#[test]
fn pair_teams_of_one_or_none() {
    let (bye, matches) = pair_teams(&names(&["a"]));
    assert_eq!(bye, names(&["a"]));
    assert!(matches.is_empty());
    let (bye, matches) = pair_teams(&Vec::new());
    assert!(bye.is_empty());
    assert!(matches.is_empty());
}

#[test]
fn pair_teams_keeps_every_entrant_once() {
    let mut n = 0;
    while n < 40 {
        let order: Vec<String> = (0..n).map(|i| format!("E{}", i)).collect();
        let (bye, matches) = pair_teams(&order);
        assert_eq!(bye.len(), n % 2);
        assert_eq!(matches.len(), n / 2);
        let mut flat = bye.clone();
        for m in matches.iter() {
            assert_eq!(m.winner, None);
            flat.push(m.team1.clone());
            flat.push(m.team2.clone());
        }
        assert_eq!(flat, order);
        n += 1;
    }
}

#[test]
fn pick_opponents_copies_the_opponents_at_the_positions() {
    let all = pool(5);
    let picked = pick_opponents(&all, &vec![3, 0, 4]);
    assert_eq!(picked.len(), 3);
    assert_eq!(picked[0], all[3]);
    assert_eq!(picked[1], all[0]);
    assert_eq!(picked[2], all[4]);
    assert!(pick_opponents(&all, &Vec::new()).is_empty());
}

#[test]
fn entrant_names_lists_the_participants_then_the_player() {
    assert_eq!(entrant_names(&pool(3)), names(&["T0", "T1", "T2", "Player"]));
    assert_eq!(entrant_names(&Vec::new()), names(&["Player"]));
}

#[test]
fn assemble_bracket_builds_round_one() {
    let participants = pool(3);
    let t = assemble_bracket(participants.clone(), &names(&["T2", "Player", "T0", "T1"]), 7);
    assert_eq!(t.participants, participants);
    assert_eq!(t.level_win_rate_modifier, 7);
    assert_eq!(t.rounds, vec![vec![game("T2", "Player"), game("T0", "T1")]]);
    assert!(t.bye_teams.is_empty());
    assert_eq!(t.status, "Round 1");
}

#[test]
fn assemble_bracket_with_an_odd_number_of_entrants() {
    let participants = pool(2);
    let t = assemble_bracket(participants.clone(), &names(&["Player", "T1", "T0"]), 0);
    assert_eq!(t.rounds, vec![vec![game("T1", "T0")]]);
    assert_eq!(t.bye_teams, names(&["Player"]));
    assert_eq!(t.status, "Round 1");
}

#[test]
fn build_bracket_fails_on_a_pool_that_is_too_small() {
    assert_eq!(
        build_bracket(&settings(4, 2), &pool(2)),
        Err(TournamentError::InsufficientOpponents { required: 3, available: 2 })
    );
    assert_eq!(
        build_bracket(&settings(2, 2), &Vec::new()),
        Err(TournamentError::InsufficientOpponents { required: 1, available: 0 })
    );
    assert_eq!(
        build_bracket(&settings(255, 2), &pool(253)),
        Err(TournamentError::InsufficientOpponents { required: 254, available: 253 })
    );
}

#[test]
fn build_bracket_succeeds_on_a_pool_that_is_just_large_enough() {
    let t = build_bracket(&settings(4, 2), &pool(3)).unwrap();
    let mut ids: Vec<String> = t.participants.iter().map(|o| o.id.clone()).collect();
    ids.sort();
    assert_eq!(ids, names(&["T0", "T1", "T2"]));
}

fn check_bracket(team_count: u8, pool_size: usize) {
    let all = pool(pool_size);
    let s = settings(team_count, 9);
    let t = build_bracket(&s, &all).unwrap();
    let required = if team_count == 0 { 0 } else { team_count as usize - 1 };
    assert_eq!(t.participants.len(), required);
    for (i, p) in t.participants.iter().enumerate() {
        assert!(all.contains(p));
        for q in t.participants[i + 1..].iter() {
            assert_ne!(p.id, q.id);
        }
    }
    assert_eq!(t.level_win_rate_modifier, 9);
    assert_eq!(t.status, "Round 1");
    assert_eq!(t.rounds.len(), 1);
    assert!(t.bye_teams.len() <= 1);
    assert_eq!(t.bye_teams.len(), (required + 1) % 2);
    assert_eq!(t.rounds[0].len() * 2 + t.bye_teams.len(), required + 1);
    for m in t.rounds[0].iter() {
        assert_eq!(m.winner, None);
    }
    let mut found = entrants(&t, 0);
    assert!(found.contains(&"Player".to_string()));
    found.sort();
    let mut expected: Vec<String> = t.participants.iter().map(|o| o.id.clone()).collect();
    expected.push("Player".to_string());
    expected.sort();
    assert_eq!(found, expected);
}

#[test]
fn build_bracket_selects_distinct_opponents_and_includes_the_player() {
    for team_count in [2u8, 3, 4, 5, 8, 16, 17] {
        let mut repeat = 0;
        while repeat < 20 {
            check_bracket(team_count, 40);
            repeat += 1;
        }
    }
}

#[test]
fn build_bracket_with_the_whole_pool() {
    let mut repeat = 0;
    while repeat < 20 {
        check_bracket(9, 8);
        check_bracket(255, 254);
        repeat += 1;
    }
}

#[test]
fn build_bracket_for_the_player_alone() {
    for team_count in [0u8, 1] {
        let t = build_bracket(&settings(team_count, 2), &pool(5)).unwrap();
        assert!(t.participants.is_empty());
        assert_eq!(t.rounds, vec![Vec::<Match>::new()]);
        assert_eq!(t.bye_teams, names(&["Player"]));
        assert_eq!(t.status, "Round 1");
    }
}

#[test]
fn build_bracket_draws_different_brackets() {
    let all = pool(30);
    let s = settings(8, 2);
    let first = build_bracket(&s, &all).unwrap();
    let mut differs = false;
    let mut repeat = 0;
    while repeat < 50 && !differs {
        let next = build_bracket(&s, &all).unwrap();
        differs = next != first;
        repeat += 1;
    }
    assert!(differs);
}

#[test]
fn build_bracket_reaches_every_opponent_and_every_seat() {
    let all = pool(6);
    let s = settings(4, 2);
    let mut chosen = vec![false; 6];
    let mut player_seats = vec![false; 4];
    let mut repeat = 0;
    while repeat < 400 {
        let t = build_bracket(&s, &all).unwrap();
        for p in t.participants.iter() {
            let k = all.iter().position(|o| o.id == p.id).unwrap();
            chosen[k] = true;
        }
        let seat = entrants(&t, 0).iter().position(|n| n == "Player").unwrap();
        player_seats[seat] = true;
        repeat += 1;
    }
    assert!(chosen.iter().all(|c| *c));
    assert!(player_seats.iter().all(|c| *c));
}
