use tournament::text::{
    champion_text, decimal_string, game_over_text, is_player, is_terminal, parse_level,
    player_id, round_status_text, text_ends_with, text_is,
};

#[test]
fn decimal_string_writes_plain_decimal() {
    assert_eq!(decimal_string(0), "0");
    assert_eq!(decimal_string(7), "7");
    assert_eq!(decimal_string(10), "10");
    assert_eq!(decimal_string(48), "48");
    assert_eq!(decimal_string(255), "255");
    assert_eq!(decimal_string(1009), "1009");
    assert_eq!(decimal_string(1234567890), "1234567890");
}

#[test]
fn decimal_string_agrees_with_the_standard_library() {
    let mut n: usize = 0;
    while n < 3000 {
        assert_eq!(decimal_string(n), n.to_string());
        n += 1;
    }
    assert_eq!(decimal_string(usize::MAX), usize::MAX.to_string());
}

#[test]
fn player_id_is_the_reserved_word() {
    assert_eq!(player_id(), "Player");
    assert!(is_player(&"Player".to_string()));
    assert!(!is_player(&"player".to_string()));
    assert!(!is_player(&"Player ".to_string()));
    assert!(!is_player(&String::new()));
}

#[test]
fn round_status_names_the_round() {
    assert_eq!(round_status_text(1), "Round 1");
    assert_eq!(round_status_text(2), "Round 2");
    assert_eq!(round_status_text(12), "Round 12");
}

#[test]
fn champion_status_names_the_champion() {
    assert_eq!(champion_text(&"Player".to_string()), "Player wins the championship");
    assert_eq!(
        champion_text(&"Raimon (IE1) - Story".to_string()),
        "Raimon (IE1) - Story wins the championship"
    );
}

#[test]
fn only_game_over_and_champion_statuses_are_terminal() {
    assert!(is_terminal(&game_over_text()));
    assert!(is_terminal(&champion_text(&"A".to_string())));
    assert!(is_terminal(&champion_text(&String::new())));
    assert!(!is_terminal(&round_status_text(1)));
    assert!(!is_terminal(&round_status_text(37)));
    assert!(!is_terminal(&String::new()));
    assert!(!is_terminal(&"Game over!".to_string()));
    assert!(!is_terminal(&"wins the championship".to_string()));
    assert!(!is_terminal(&"A wins the championship ".to_string()));
}

#[test]
fn game_over_status_is_fixed() {
    assert_eq!(game_over_text(), "Game over");
}

#[test]
fn text_ends_with_compares_the_tail() {
    assert!(text_ends_with("abc", "bc"));
    assert!(text_ends_with("abc", "abc"));
    assert!(text_ends_with("abc", ""));
    assert!(text_ends_with("", ""));
    assert!(!text_ends_with("abc", "ab"));
    assert!(!text_ends_with("bc", "abc"));
    assert!(!text_ends_with("", "a"));
    assert!(text_ends_with("イナズマ", "ズマ"));
    assert!(!text_ends_with("イナズマ", "イナ"));
}

#[test]
fn text_is_compares_whole_texts() {
    assert!(text_is(&"IE1".to_string(), "IE1"));
    assert!(!text_is(&"IE1".to_string(), "IE2"));
    assert!(!text_is(&"IE1".to_string(), "IE"));
    assert!(text_is(&String::new(), ""));
}

#[test]
fn parse_level_reads_plain_decimal() {
    assert_eq!(parse_level("0"), Some(0));
    assert_eq!(parse_level("7"), Some(7));
    assert_eq!(parse_level("12"), Some(12));
    assert_eq!(parse_level("255"), Some(255));
    assert_eq!(parse_level("+5"), Some(5));
    assert_eq!(parse_level("+255"), Some(255));
    assert_eq!(parse_level("007"), Some(7));
    assert_eq!(parse_level("0000000000000000000000255"), Some(255));
    assert_eq!(parse_level("+0"), Some(0));
}

#[test]
fn parse_level_refuses_everything_else() {
    for text in [
        "", "+", "-", "-0", "-1", "256", "300", "1000", "99999999999999999999", "++1", "+-1",
        "1+", "1 ", " 1", "1.0", "1e2", "1_0", "0x10", "a", "12a", "a12", "１２", "٣", "+ 1", "\t1",
        "2５",
    ] {
        assert_eq!(parse_level(text), None);
    }
}

#[test]
fn parse_level_agrees_with_the_standard_library() {
    let mut n: u32 = 0;
    while n < 1500 {
        for text in [
            n.to_string(),
            format!("+{}", n),
            format!("-{}", n),
            format!("0{}", n),
            format!("{}0", n),
            format!(" {}", n),
            format!("{}x", n),
            format!("{}+", n),
        ] {
            assert_eq!(parse_level(&text), text.parse::<u8>().ok());
        }
        n += 1;
    }
    for text in ["", "+", "-", "+-", "++", "0", "00", "+00", "255", "256", "２", "1２"] {
        assert_eq!(parse_level(text), text.parse::<u8>().ok());
    }
}

#[test]
fn parse_level_reads_back_what_decimal_string_writes() {
    let mut n: usize = 0;
    while n < 256 {
        assert_eq!(parse_level(&decimal_string(n)), Some(n as u8));
        n += 1;
    }
    assert_eq!(parse_level(&decimal_string(256)), None);
}
