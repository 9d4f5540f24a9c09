use tournament::{IndexKind, TeamSlot, TournamentError};

#[test]
fn insufficient_opponents_message_gives_both_numbers() {
    let e = TournamentError::InsufficientOpponents { required: 3, available: 2 };
    assert_eq!(e.message(), "Not enough eligible opponents. Required: 3, Available: 2");
    let e = TournamentError::InsufficientOpponents { required: 254, available: 0 };
    assert_eq!(e.message(), "Not enough eligible opponents. Required: 254, Available: 0");
}

#[test]
fn index_messages_name_the_index() {
    assert_eq!(
        TournamentError::IndexOutOfRange(IndexKind::Round).message(),
        "Round index out of bounds."
    );
    assert_eq!(
        TournamentError::IndexOutOfRange(IndexKind::Match).message(),
        "Match index out of bounds."
    );
}

#[test]
fn team_messages_name_the_team() {
    assert_eq!(TournamentError::TeamNotFound(TeamSlot::First).message(), "Team 1 not found");
    assert_eq!(TournamentError::TeamNotFound(TeamSlot::Second).message(), "Team 2 not found");
}
