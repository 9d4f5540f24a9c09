use tournament::catalog::{
    opponent_from_record, opponent_with_more_tiers, parse_record_tiers, parse_tier,
    series_full_name, tier_from_parts, unique_id,
};
use tournament::{get_all_opponents, CatalogRecord, Difficulty};

fn row(team: &str, series: &str, mode: &str, tiers: [(&str, &str); 4]) -> CatalogRecord {
    CatalogRecord {
        team_name: team.to_string(),
        series_short: series.to_string(),
        mode: mode.to_string(),
        d1_name: tiers[0].0.to_string(),
        d1_level: tiers[0].1.to_string(),
        d2_name: tiers[1].0.to_string(),
        d2_level: tiers[1].1.to_string(),
        d3_name: tiers[2].0.to_string(),
        d3_level: tiers[2].1.to_string(),
        d4_name: tiers[3].0.to_string(),
        d4_level: tiers[3].1.to_string(),
    }
}

fn tier(name: &str, level: u8) -> Difficulty {
    Difficulty { name: name.to_string(), level }
}

const NONE: (&str, &str) = ("", "");

#[test]
fn unique_id_joins_team_series_and_mode() {
    let r = row("Raimon", "IE1", "Story", [NONE, NONE, NONE, NONE]);
    assert_eq!(unique_id(&r), "Raimon (IE1) - Story");
    let r = row("", "", "", [NONE, NONE, NONE, NONE]);
    assert_eq!(unique_id(&r), " () - ");
}

#[test]
fn series_full_name_knows_every_series() {
    assert_eq!(series_full_name(&"IE1".to_string()), "イナズマイレブン");
    assert_eq!(series_full_name(&"IE2".to_string()), "イナズマイレブン2 脅威の侵略者");
    assert_eq!(series_full_name(&"IE3".to_string()), "イナズマイレブン3 世界への挑戦!!");
    assert_eq!(series_full_name(&"GO1".to_string()), "イナズマイレブンGO");
    assert_eq!(series_full_name(&"GO2".to_string()), "イナズマイレブンGO2 クロノ・ストーン");
    assert_eq!(series_full_name(&"GO3".to_string()), "イナズマイレブンGO3 ギャラクシー");
    assert_eq!(series_full_name(&"ALS".to_string()), "イナズマイレブン アレスの天秤");
    assert_eq!(series_full_name(&"ORI".to_string()), "イナズマイレブン オリオンの刻印");
    assert_eq!(
        series_full_name(&"VIC".to_string()),
        "イナズマイレブン 英雄たちのヴィクトリーロード"
    );
}

#[test]
fn series_full_name_of_an_unknown_series() {
    assert_eq!(series_full_name(&"XYZ".to_string()), "不明なシリーズ");
    assert_eq!(series_full_name(&"ie1".to_string()), "不明なシリーズ");
    assert_eq!(series_full_name(&String::new()), "不明なシリーズ");
}

#[test]
fn tier_from_parts_needs_both_texts_and_a_level() {
    let name = "Hard".to_string();
    let level = "12".to_string();
    let empty = String::new();
    assert_eq!(
        tier_from_parts(&name, &level, "Hard".to_string(), &"12".to_string()),
        Some(tier("Hard", 12))
    );
    assert_eq!(tier_from_parts(&name, &level, "Hard".to_string(), &"x".to_string()), None);
    assert_eq!(tier_from_parts(&name, &level, "Hard".to_string(), &empty), None);
    assert_eq!(tier_from_parts(&empty, &level, "".to_string(), &"12".to_string()), None);
    assert_eq!(tier_from_parts(&name, &empty, "Hard".to_string(), &"12".to_string()), None);
    assert_eq!(
        tier_from_parts(&name, &level, "H".to_string(), &"0".to_string()),
        Some(tier("H", 0))
    );
}

#[test]
fn tier_from_parts_reads_the_level_from_the_trimmed_text_only() {
    let name = "Hard".to_string();
    assert_eq!(
        tier_from_parts(&name, &"ignored".to_string(), "Hard".to_string(), &"7".to_string()),
        Some(tier("Hard", 7))
    );
    assert_eq!(
        tier_from_parts(&name, &"7".to_string(), "Hard".to_string(), &" 7".to_string()),
        None
    );
}

#[test]
fn parse_tier_trims_the_name_and_the_level() {
    assert_eq!(
        parse_tier(&" Hard ".to_string(), &" 12 ".to_string()),
        Some(tier("Hard", 12))
    );
    assert_eq!(parse_tier(&"Easy".to_string(), &"0".to_string()), Some(tier("Easy", 0)));
    assert_eq!(parse_tier(&"Max".to_string(), &"255".to_string()), Some(tier("Max", 255)));
    assert_eq!(parse_tier(&"Plus".to_string(), &"+5".to_string()), Some(tier("Plus", 5)));
    assert_eq!(parse_tier(&"Zeros".to_string(), &"007".to_string()), Some(tier("Zeros", 7)));
    assert_eq!(parse_tier(&"\tTab\n".to_string(), &"\t9\n".to_string()), Some(tier("Tab", 9)));
}

#[test]
fn parse_tier_keeps_a_name_of_white_space_as_an_empty_name() {
    assert_eq!(parse_tier(&"  ".to_string(), &"3".to_string()), Some(tier("", 3)));
}

#[test]
fn parse_tier_skips_what_is_empty_or_no_level() {
    assert_eq!(parse_tier(&String::new(), &"12".to_string()), None);
    assert_eq!(parse_tier(&"Hard".to_string(), &String::new()), None);
    assert_eq!(parse_tier(&"Hard".to_string(), &"abc".to_string()), None);
    assert_eq!(parse_tier(&"Hard".to_string(), &"256".to_string()), None);
    assert_eq!(parse_tier(&"Hard".to_string(), &"-1".to_string()), None);
    assert_eq!(parse_tier(&"Hard".to_string(), &"1.5".to_string()), None);
    assert_eq!(parse_tier(&"Hard".to_string(), &"1 2".to_string()), None);
    assert_eq!(parse_tier(&"Hard".to_string(), &"   ".to_string()), None);
}

#[test]
fn parse_record_tiers_keeps_the_order_of_the_pairs() {
    let r = row("T", "IE1", "Story", [("A", "1"), ("B", "x"), ("", "3"), ("D", "4")]);
    assert_eq!(parse_record_tiers(&r), vec![tier("A", 1), tier("D", 4)]);
    let r = row("T", "IE1", "Story", [NONE, NONE, NONE, NONE]);
    assert_eq!(parse_record_tiers(&r), Vec::<Difficulty>::new());
    let r = row("T", "IE1", "Story", [("A", "1"), ("B", "2"), ("C", "3"), ("D", "4")]);
    assert_eq!(
        parse_record_tiers(&r),
        vec![tier("A", 1), tier("B", 2), tier("C", 3), tier("D", 4)]
    );
}

#[test]
fn opponent_from_record_takes_the_first_tier_as_default() {
    let r = row("Raimon", "GO2", "Chronicle", [("Normal", "30"), ("Hard", "45"), NONE, NONE]);
    let o = opponent_from_record(&r);
    assert_eq!(o.id, "Raimon (GO2) - Chronicle");
    assert_eq!(o.team_name, "Raimon");
    assert_eq!(o.series_short, "GO2");
    assert_eq!(o.series_full, "イナズマイレブンGO2 クロノ・ストーン");
    assert_eq!(o.source, "Chronicle");
    assert_eq!(o.difficulties, vec![tier("Normal", 30), tier("Hard", 45)]);
    assert_eq!(o.level, 30);
    assert_eq!(o.difficulty_name, "Normal");
}

#[test]
fn opponent_from_record_without_tiers_has_level_zero() {
    let r = row("Raimon", "IE1", "Story", [("Normal", "abc"), NONE, NONE, NONE]);
    let o = opponent_from_record(&r);
    assert_eq!(o.difficulties, Vec::<Difficulty>::new());
    assert_eq!(o.level, 0);
    assert_eq!(o.difficulty_name, "");
}

#[test]
fn opponent_with_more_tiers_appends_and_keeps_the_rest() {
    let r = row("Raimon", "IE1", "Story", [("Normal", "30"), NONE, NONE, NONE]);
    let o = opponent_from_record(&r);
    let more = opponent_with_more_tiers(&o, vec![tier("Hard", 45), tier("Lunatic", 90)]);
    assert_eq!(more.id, o.id);
    assert_eq!(more.team_name, o.team_name);
    assert_eq!(more.series_short, o.series_short);
    assert_eq!(more.series_full, o.series_full);
    assert_eq!(more.source, o.source);
    assert_eq!(
        more.difficulties,
        vec![tier("Normal", 30), tier("Hard", 45), tier("Lunatic", 90)]
    );
    assert_eq!(more.level, 30);
    assert_eq!(more.difficulty_name, "Normal");
}

#[test]
fn opponent_with_more_tiers_sets_the_default_of_an_empty_opponent() {
    let r = row("Raimon", "IE1", "Story", [NONE, NONE, NONE, NONE]);
    let o = opponent_from_record(&r);
    let more = opponent_with_more_tiers(&o, vec![tier("Hard", 45)]);
    assert_eq!(more.level, 45);
    assert_eq!(more.difficulty_name, "Hard");
    let same = opponent_with_more_tiers(&o, Vec::new());
    assert_eq!(same, o);
}

#[test]
fn get_all_opponents_of_an_empty_table_is_empty() {
    assert_eq!(get_all_opponents(&Vec::new()), Vec::new());
}

#[test]
fn get_all_opponents_groups_rows_by_identifier_in_first_order() {
    let rows = vec![
        row("B", "IE1", "Story", [("Normal", "10"), NONE, NONE, NONE]),
        row("A", "IE1", "Story", [("Normal", "20"), ("Hard", "40"), NONE, NONE]),
        row("B", "IE1", "Story", [("Hard", "30"), NONE, NONE, NONE]),
        row("B", "IE1", "Versus", [("Only", "5"), NONE, NONE, NONE]),
        row("A", "IE1", "Story", [("Lunatic", "99"), NONE, NONE, NONE]),
    ];
    let catalog = get_all_opponents(&rows);
    assert_eq!(catalog.len(), 3);
    assert_eq!(catalog[0].id, "B (IE1) - Story");
    assert_eq!(catalog[1].id, "A (IE1) - Story");
    assert_eq!(catalog[2].id, "B (IE1) - Versus");
    assert_eq!(catalog[0].difficulties, vec![tier("Normal", 10), tier("Hard", 30)]);
    assert_eq!(
        catalog[1].difficulties,
        vec![tier("Normal", 20), tier("Hard", 40), tier("Lunatic", 99)]
    );
    assert_eq!(catalog[2].difficulties, vec![tier("Only", 5)]);
    assert_eq!(catalog[0].level, 10);
    assert_eq!(catalog[0].difficulty_name, "Normal");
    assert_eq!(catalog[1].level, 20);
    assert_eq!(catalog[2].source, "Versus");
}

#[test]
fn get_all_opponents_takes_the_default_from_a_later_row_if_the_first_has_no_tier() {
    let rows = vec![
        row("A", "ORI", "Story", [("Broken", "x"), NONE, NONE, NONE]),
        row("A", "ORI", "Story", [(" Hard ", " 40 "), NONE, NONE, NONE]),
    ];
    let catalog = get_all_opponents(&rows);
    assert_eq!(catalog.len(), 1);
    assert_eq!(catalog[0].difficulties, vec![tier("Hard", 40)]);
    assert_eq!(catalog[0].level, 40);
    assert_eq!(catalog[0].difficulty_name, "Hard");
    assert_eq!(catalog[0].series_full, "イナズマイレブン オリオンの刻印");
}

#[test]
fn get_all_opponents_has_no_identifier_twice() {
    let mut rows = Vec::new();
    let mut i = 0;
    while i < 200 {
        let team = format!("T{}", i % 17);
        let mode = if i % 3 == 0 { "Story" } else { "Versus" };
        rows.push(row(&team, "VIC", mode, [("N", "1"), NONE, NONE, NONE]));
        i += 1;
    }
    let catalog = get_all_opponents(&rows);
    assert_eq!(catalog.len(), 34);
    let mut a = 0;
    while a < catalog.len() {
        let mut b = a + 1;
        while b < catalog.len() {
            assert_ne!(catalog[a].id, catalog[b].id);
            b += 1;
        }
        a += 1;
    }
    let total: usize = catalog.iter().map(|o| o.difficulties.len()).sum();
    assert_eq!(total, 200);
}
