//! The opponent catalog: one opponent per distinct identifier, assembled from
//! the rows of a roster table in the order in which the identifiers first
//! appear.

use vstd::prelude::*;
use vstd::string::*;
use indexmap::IndexMap;
use crate::model::{
    clone_tiers, has_id, ids_distinct, position_of, Difficulty, DifficultyView, Opponent,
    OpponentView,
};
use crate::text::{decimal_level, parse_level, text_is};

verus! {

/// One row of the roster table: a team in one series and mode, with up to
/// four difficulty tiers given as text.
#[derive(Debug, PartialEq, Eq)]
pub struct CatalogRecord {
    pub team_name: String,
    pub series_short: String,
    pub mode: String,
    pub d1_name: String,
    pub d1_level: String,
    pub d2_name: String,
    pub d2_level: String,
    pub d3_name: String,
    pub d3_level: String,
    pub d4_name: String,
    pub d4_level: String,
}

/// Model of a [`CatalogRecord`].
pub struct CatalogRecordView {
    pub team_name: Seq<char>,
    pub series_short: Seq<char>,
    pub mode: Seq<char>,
    pub d1_name: Seq<char>,
    pub d1_level: Seq<char>,
    pub d2_name: Seq<char>,
    pub d2_level: Seq<char>,
    pub d3_name: Seq<char>,
    pub d3_level: Seq<char>,
    pub d4_name: Seq<char>,
    pub d4_level: Seq<char>,
}

impl View for CatalogRecord {
    type V = CatalogRecordView;

    open spec fn view(&self) -> CatalogRecordView {
        CatalogRecordView {
            team_name: self.team_name@,
            series_short: self.series_short@,
            mode: self.mode@,
            d1_name: self.d1_name@,
            d1_level: self.d1_level@,
            d2_name: self.d2_name@,
            d2_level: self.d2_level@,
            d3_name: self.d3_name@,
            d3_level: self.d3_level@,
            d4_name: self.d4_name@,
            d4_level: self.d4_level@,
        }
    }
}

impl DeepView for CatalogRecord {
    type V = CatalogRecordView;

    open spec fn deep_view(&self) -> CatalogRecordView {
        self@
    }
}

// ---------------------------------------------------------------------------
// Trimming
// ---------------------------------------------------------------------------

/// What `str::trim` returns for a text: the text without its leading and
/// trailing white space.
pub uninterp spec fn trimmed(text: Seq<char>) -> Seq<char>;

/// Calls `str::trim`. Trusted: the result is the text that `trimmed` names.
#[verifier::external_body]
fn trim_text(text: &str) -> (res: String)
    ensures
        res@ == trimmed(text@),
{
    text.trim().to_string()
}

// ---------------------------------------------------------------------------
// The identifier index
// ---------------------------------------------------------------------------

/// `indexmap::IndexMap`, a hash map that keeps its entries in the order of
/// their insertion. Nothing of its contents is visible here but through
/// `index_entries`.
#[verifier::external_type_specification]
#[verifier::external_body]
#[verifier::reject_recursive_types(K)]
#[verifier::reject_recursive_types(V)]
#[verifier::reject_recursive_types(S)]
pub struct ExIndexMap<K, V, S>(IndexMap<K, V, S>);

/// What an identifier index holds: the position stored for each identifier.
pub uninterp spec fn index_entries(index: IndexMap<String, usize>) -> Map<Seq<char>, usize>;

/// Calls `IndexMap::new`. Trusted: the new index holds nothing.
#[verifier::external_body]
fn index_new() -> (res: IndexMap<String, usize>)
    ensures
        index_entries(res).dom().is_empty(),
{
    IndexMap::new()
}

/// Calls `IndexMap::get`. Trusted: the result is the position stored for
/// `id`, or `None` if the index holds none for it. Two identifiers are the
/// same key exactly if they are the same text.
#[verifier::external_body]
fn index_get(index: &IndexMap<String, usize>, id: &String) -> (res: Option<usize>)
    ensures
        res == (if index_entries(*index).dom().contains(id@) {
            Some(index_entries(*index)[id@])
        } else {
            None
        }),
{
    index.get(id).copied()
}

/// Calls `IndexMap::insert`. Trusted: afterwards the index holds `position`
/// for `id` and is otherwise unchanged.
#[verifier::external_body]
fn index_insert(index: &mut IndexMap<String, usize>, id: String, position: usize)
    ensures
        index_entries(*final(index)) == index_entries(*old(index)).insert(id@, position),
{
    index.insert(id, position);
}

// ---------------------------------------------------------------------------
// Tiers
// ---------------------------------------------------------------------------

/// The tier that a (name, level) pair of a row gives, if any: both texts must
/// be non-empty and the level, trimmed, must denote a number from 0 to 255.
/// The tier's name is the name trimmed.
pub open spec fn tier_of(name: Seq<char>, level_text: Seq<char>) -> Option<DifficultyView> {
    tier_from(name, level_text, trimmed(name), trimmed(level_text))
}

/// `tier_of`, with the two texts given as they are and trimmed.
pub open spec fn tier_from(
    name: Seq<char>,
    level_text: Seq<char>,
    trimmed_name: Seq<char>,
    trimmed_level: Seq<char>,
) -> Option<DifficultyView> {
    if name.len() > 0 && level_text.len() > 0 {
        match decimal_level(trimmed_level) {
            Some(level) => Some(DifficultyView { name: trimmed_name, level }),
            None => None,
        }
    } else {
        None
    }
}

/// A list of tiers with one more at its end, if there is one more.
pub open spec fn with_tier(tiers: Seq<DifficultyView>, tier: Option<DifficultyView>) -> Seq<
    DifficultyView,
> {
    match tier {
        Some(t) => tiers.push(t),
        None => tiers,
    }
}

/// The tiers of a row, in the order of its four pairs.
pub open spec fn record_tiers(r: CatalogRecordView) -> Seq<DifficultyView> {
    with_tier(
        with_tier(
            with_tier(
                with_tier(Seq::empty(), tier_of(r.d1_name, r.d1_level)),
                tier_of(r.d2_name, r.d2_level),
            ),
            tier_of(r.d3_name, r.d3_level),
        ),
        tier_of(r.d4_name, r.d4_level),
    )
}

/// Builds the tier of a (name, level) pair from the two texts as they are
/// and trimmed.
pub fn tier_from_parts(
    name: &String,
    level_text: &String,
    trimmed_name: String,
    trimmed_level: &String,
) -> (res: Option<Difficulty>)
    ensures
        res.deep_view() == tier_from(name@, level_text@, trimmed_name@, trimmed_level@),
{
    if !name.as_str().is_empty() && !level_text.as_str().is_empty() {
        match parse_level(trimmed_level.as_str()) {
            Some(level) => Some(Difficulty { name: trimmed_name, level }),
            None => None,
        }
    } else {
        None
    }
}

/// Reads the tier of a (name, level) pair.
pub fn parse_tier(name: &String, level_text: &String) -> (res: Option<Difficulty>)
    ensures
        res.deep_view() == tier_of(name@, level_text@),
{
    let trimmed_name = trim_text(name.as_str());
    let trimmed_level = trim_text(level_text.as_str());
    tier_from_parts(name, level_text, trimmed_name, &trimmed_level)
}

/// Reads the tiers of a row.
pub fn parse_record_tiers(record: &CatalogRecord) -> (res: Vec<Difficulty>)
    ensures
        res.deep_view() == record_tiers(record@),
{
    let mut res: Vec<Difficulty> = Vec::new();
    assert(res.deep_view() =~= Seq::<DifficultyView>::empty());
    push_tier(&mut res, parse_tier(&record.d1_name, &record.d1_level));
    push_tier(&mut res, parse_tier(&record.d2_name, &record.d2_level));
    push_tier(&mut res, parse_tier(&record.d3_name, &record.d3_level));
    push_tier(&mut res, parse_tier(&record.d4_name, &record.d4_level));
    res
}

/// Appends a tier to a list, if there is one.
fn push_tier(tiers: &mut Vec<Difficulty>, tier: Option<Difficulty>)
    ensures
        final(tiers).deep_view() == with_tier(old(tiers).deep_view(), tier.deep_view()),
{
    match tier {
        Some(t) => {
            tiers.push(t);
            assert(tiers.deep_view() =~= old(tiers).deep_view().push(t@));
        },
        None => {},
    }
}

// ---------------------------------------------------------------------------
// Opponents
// ---------------------------------------------------------------------------

/// The identifier of the opponent that a row belongs to:
/// `<team> (<series>) - <mode>`.
pub open spec fn record_id(r: CatalogRecordView) -> Seq<char> {
    r.team_name + " ("@ + r.series_short + ") - "@ + r.mode
}

/// The full title of a series, by its short name.
pub open spec fn series_title(short: Seq<char>) -> Seq<char> {
    if short == "IE1"@ {
        "イナズマイレブン"@
    } else if short == "IE2"@ {
        "イナズマイレブン2 脅威の侵略者"@
    } else if short == "IE3"@ {
        "イナズマイレブン3 世界への挑戦!!"@
    } else if short == "GO1"@ {
        "イナズマイレブンGO"@
    } else if short == "GO2"@ {
        "イナズマイレブンGO2 クロノ・ストーン"@
    } else if short == "GO3"@ {
        "イナズマイレブンGO3 ギャラクシー"@
    } else if short == "ALS"@ {
        "イナズマイレブン アレスの天秤"@
    } else if short == "ORI"@ {
        "イナズマイレブン オリオンの刻印"@
    } else if short == "VIC"@ {
        "イナズマイレブン 英雄たちのヴィクトリーロード"@
    } else {
        "不明なシリーズ"@
    }
}

/// The level in force for a list of tiers before any choice is made: that of
/// the first tier, 0 where there is none.
pub open spec fn default_level(tiers: Seq<DifficultyView>) -> u8 {
    if tiers.len() > 0 {
        tiers[0].level
    } else {
        0
    }
}

/// The tier name in force for a list of tiers before any choice is made: that
/// of the first tier, empty where there is none.
pub open spec fn default_tier_name(tiers: Seq<DifficultyView>) -> Seq<char> {
    if tiers.len() > 0 {
        tiers[0].name
    } else {
        Seq::empty()
    }
}

/// The opponent that a row describes when it is the first row of its
/// identifier.
pub open spec fn new_opponent(r: CatalogRecordView) -> OpponentView {
    OpponentView {
        id: record_id(r),
        team_name: r.team_name,
        series_short: r.series_short,
        series_full: series_title(r.series_short),
        source: r.mode,
        difficulties: record_tiers(r),
        level: default_level(record_tiers(r)),
        difficulty_name: default_tier_name(record_tiers(r)),
    }
}

/// An opponent with more tiers at the end of its list.
pub open spec fn with_more_tiers(o: OpponentView, tiers: Seq<DifficultyView>) -> OpponentView {
    OpponentView {
        difficulties: o.difficulties + tiers,
        level: default_level(o.difficulties + tiers),
        difficulty_name: default_tier_name(o.difficulties + tiers),
        ..o
    }
}

/// A catalog after one more row: the row's tiers go to the opponent with the
/// row's identifier, which is added at the end if the catalog has none.
pub open spec fn absorb(catalog: Seq<OpponentView>, r: CatalogRecordView) -> Seq<OpponentView> {
    if has_id(catalog, record_id(r)) {
        let i = position_of(catalog, record_id(r));
        catalog.update(i, with_more_tiers(catalog[i], record_tiers(r)))
    } else {
        catalog.push(new_opponent(r))
    }
}

/// The catalog that a table of rows gives.
pub open spec fn catalog_of(records: Seq<CatalogRecordView>) -> Seq<OpponentView>
    decreases records.len(),
{
    if records.len() == 0 {
        Seq::empty()
    } else {
        absorb(catalog_of(records.drop_last()), records.last())
    }
}

/// Writes the full title of a series.
pub fn series_full_name(short: &String) -> (res: String)
    ensures
        res@ == series_title(short@),
{
    if text_is(short, "IE1") {
        String::from_str("イナズマイレブン")
    } else if text_is(short, "IE2") {
        String::from_str("イナズマイレブン2 脅威の侵略者")
    } else if text_is(short, "IE3") {
        String::from_str("イナズマイレブン3 世界への挑戦!!")
    } else if text_is(short, "GO1") {
        String::from_str("イナズマイレブンGO")
    } else if text_is(short, "GO2") {
        String::from_str("イナズマイレブンGO2 クロノ・ストーン")
    } else if text_is(short, "GO3") {
        String::from_str("イナズマイレブンGO3 ギャラクシー")
    } else if text_is(short, "ALS") {
        String::from_str("イナズマイレブン アレスの天秤")
    } else if text_is(short, "ORI") {
        String::from_str("イナズマイレブン オリオンの刻印")
    } else if text_is(short, "VIC") {
        String::from_str("イナズマイレブン 英雄たちのヴィクトリーロード")
    } else {
        String::from_str("不明なシリーズ")
    }
}

/// Writes the identifier of the opponent that a row belongs to.
pub fn unique_id(record: &CatalogRecord) -> (res: String)
    ensures
        res@ == record_id(record@),
{
    let mut id = record.team_name.clone();
    id.append(" (");
    id.append(record.series_short.as_str());
    id.append(") - ");
    id.append(record.mode.as_str());
    id
}

/// Sets the tier in force to the first tier of the list, if there is one.
fn default_tier(tiers: &Vec<Difficulty>) -> (res: (u8, String))
    ensures
        res.0 == default_level(tiers.deep_view()),
        res.1@ == default_tier_name(tiers.deep_view()),
{
    if tiers.len() > 0 {
        (tiers[0].level, tiers[0].name.clone())
    } else {
        (0, String::new())
    }
}

/// Builds the opponent of a row that is the first of its identifier.
pub fn opponent_from_record(record: &CatalogRecord) -> (res: Opponent)
    ensures
        res@ == new_opponent(record@),
{
    let difficulties = parse_record_tiers(record);
    let (level, difficulty_name) = default_tier(&difficulties);
    Opponent {
        id: unique_id(record),
        team_name: record.team_name.clone(),
        series_short: record.series_short.clone(),
        series_full: series_full_name(&record.series_short),
        source: record.mode.clone(),
        difficulties,
        level,
        difficulty_name,
    }
}

/// Copies an opponent and appends tiers to the copy.
pub fn opponent_with_more_tiers(opponent: &Opponent, tiers: Vec<Difficulty>) -> (res: Opponent)
    ensures
        res@ == with_more_tiers(opponent@, tiers.deep_view()),
{
    let mut tiers = tiers;
    let ghost added = tiers.deep_view();
    let mut res = opponent.clone();
    let mut difficulties = clone_tiers(&opponent.difficulties);
    difficulties.append(&mut tiers);
    assert(difficulties.deep_view() =~= opponent@.difficulties + added);
    let (level, difficulty_name) = default_tier(&difficulties);
    res.difficulties = difficulties;
    res.level = level;
    res.difficulty_name = difficulty_name;
    res
}

/// Builds the catalog of a roster table: one opponent for each distinct
/// identifier, in the order in which the identifiers first appear, each with
/// the tiers of all its rows in the order of the rows.
pub fn get_all_opponents(records: &Vec<CatalogRecord>) -> (res: Vec<Opponent>)
    ensures
        res.deep_view() == catalog_of(records.deep_view()),
        ids_distinct(res.deep_view()),
{
    let mut catalog: Vec<Opponent> = Vec::new();
    let mut index = index_new();
    let mut k: usize = 0;
    assert(records.deep_view().take(0) =~= Seq::<CatalogRecordView>::empty());
    assert(catalog.deep_view() =~= Seq::<OpponentView>::empty());
    while k < records.len()
        invariant
            k <= records.len(),
            catalog.deep_view() == catalog_of(records.deep_view().take(k as int)),
            forall|i: int|
                0 <= i < catalog.len() ==> index_entries(index).dom().contains(
                    #[trigger] catalog[i]@.id,
                ) && index_entries(index)[catalog[i]@.id] == i,
            forall|id: Seq<char>| #[trigger]
                index_entries(index).dom().contains(id) ==> has_id(catalog.deep_view(), id),
        decreases records.len() - k,
    {
        let record = &records[k];
        let id = unique_id(record);
        let ghost before = catalog.deep_view();
        let ghost stored = catalog@;
        let ghost rows = records.deep_view().take(k + 1);
        proof {
            assert(rows.drop_last() =~= records.deep_view().take(k as int));
            assert(rows.last() == record@);
            assert(catalog_of(rows) == absorb(before, record@));
        }
        match index_get(&index, &id) {
            Some(i) => {
                proof {
                    let j = choose|j: int| 0 <= j < before.len() && #[trigger] before[j].id == id@;
                    assert(before[j] == catalog[j]@);
                    assert(i == j);
                    assert forall|h: int| 0 <= h < i implies #[trigger] before[h].id != id@ by {
                        assert(before[h] == catalog[h]@);
                    }
                    assert(position_of(before, id@) == i);
                }
                let tiers = parse_record_tiers(record);
                let updated = opponent_with_more_tiers(&catalog[i], tiers);
                catalog.set(i, updated);
                proof {
                    assert(catalog.deep_view() =~= before.update(i as int, updated@));
                    assert forall|h: int| 0 <= h < catalog.len() implies index_entries(
                        index,
                    ).dom().contains(#[trigger] catalog[h]@.id) && index_entries(
                        index,
                    )[catalog[h]@.id] == h by {
                        assert(before[h] == stored[h]@);
                    }
                    assert forall|other: Seq<char>| #[trigger]
                        index_entries(index).dom().contains(other) implies has_id(
                        catalog.deep_view(),
                        other,
                    ) by {
                        assert(has_id(before, other));
                        let j = choose|j: int|
                            0 <= j < before.len() && #[trigger] before[j].id == other;
                        assert(catalog.deep_view()[j].id == other);
                    }
                }
            },
            None => {
                proof {
                    if has_id(before, id@) {
                        let j = choose|j: int|
                            0 <= j < before.len() && #[trigger] before[j].id == id@;
                        assert(before[j] == catalog[j]@);
                    }
                }
                let ghost known = index_entries(index);
                let position = catalog.len();
                index_insert(&mut index, id, position);
                let opponent = opponent_from_record(record);
                catalog.push(opponent);
                proof {
                    assert(catalog.deep_view() =~= before.push(opponent@));
                    assert forall|other: Seq<char>| #[trigger]
                        index_entries(index).dom().contains(other) implies has_id(
                        catalog.deep_view(),
                        other,
                    ) by {
                        if other == opponent@.id {
                            assert(catalog.deep_view()[position as int].id == other);
                        } else {
                            assert(known.dom().contains(other));
                            assert(has_id(before, other));
                            let j = choose|j: int|
                                0 <= j < before.len() && #[trigger] before[j].id == other;
                            assert(catalog.deep_view()[j].id == other);
                        }
                    }
                }
            },
        }
        k = k + 1;
    }
    assert(records.deep_view().take(k as int) =~= records.deep_view());
    proof {
        let cat = catalog.deep_view();
        assert forall|i: int, j: int| 0 <= i < j < cat.len() implies #[trigger] cat[i].id
            != #[trigger] cat[j].id by {
            assert(cat[i] == catalog[i]@);
            assert(cat[j] == catalog[j]@);
        }
    }
    catalog
}

} // verus!
