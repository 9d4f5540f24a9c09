//! Text helpers: writing and reading decimal numbers, comparing texts, and
//! the reserved words of the engine.

use vstd::prelude::*;
use vstd::string::*;

verus! {

// ---------------------------------------------------------------------------
// Writing numbers
// ---------------------------------------------------------------------------

/// The character that stands for the decimal digit `d`.
pub open spec fn digit_char(d: int) -> char {
    if d == 0 {
        '0'
    } else if d == 1 {
        '1'
    } else if d == 2 {
        '2'
    } else if d == 3 {
        '3'
    } else if d == 4 {
        '4'
    } else if d == 5 {
        '5'
    } else if d == 6 {
        '6'
    } else if d == 7 {
        '7'
    } else if d == 8 {
        '8'
    } else {
        '9'
    }
}

/// The decimal notation of `n`, most significant digit first, without
/// leading zeros (`0` is written `"0"`).
pub open spec fn decimal(n: nat) -> Seq<char>
    decreases n,
{
    if n < 10 {
        seq![digit_char(n as int)]
    } else {
        decimal(n / 10).push(digit_char((n % 10) as int))
    }
}

/// The one-character text of a single decimal digit.
fn digit_text(d: usize) -> (res: &'static str)
    requires
        d < 10,
    ensures
        res@ == seq![digit_char(d as int)],
{
    proof {
        reveal_strlit("0");
        reveal_strlit("1");
        reveal_strlit("2");
        reveal_strlit("3");
        reveal_strlit("4");
        reveal_strlit("5");
        reveal_strlit("6");
        reveal_strlit("7");
        reveal_strlit("8");
        reveal_strlit("9");
    }
    let res = if d == 0 {
        "0"
    } else if d == 1 {
        "1"
    } else if d == 2 {
        "2"
    } else if d == 3 {
        "3"
    } else if d == 4 {
        "4"
    } else if d == 5 {
        "5"
    } else if d == 6 {
        "6"
    } else if d == 7 {
        "7"
    } else if d == 8 {
        "8"
    } else {
        "9"
    };
    assert(res@ =~= seq![digit_char(d as int)]);
    res
}

/// Renders `n` in decimal notation.
pub fn decimal_string(n: usize) -> (res: String)
    ensures
        res@ == decimal(n as nat),
    decreases n,
{
    if n < 10 {
        String::from_str(digit_text(n))
    } else {
        let mut res = decimal_string(n / 10);
        res.append(digit_text(n % 10));
        res
    }
}

/// Every character of a decimal notation is a digit, and there is at least
/// one.
pub proof fn lemma_decimal_digits(n: nat)
    ensures
        decimal(n).len() >= 1,
        forall|i: int|
            0 <= i < decimal(n).len() ==> '0' <= #[trigger] decimal(n)[i] <= '9',
    decreases n,
{
    if n >= 10 {
        lemma_decimal_digits(n / 10);
    }
}

// ---------------------------------------------------------------------------
// Reading numbers
// ---------------------------------------------------------------------------

/// Whether a character is one of the digits `0` to `9`.
pub open spec fn is_digit(c: char) -> bool {
    '0' <= c <= '9'
}

/// The number that a decimal digit stands for.
pub open spec fn digit_value(c: char) -> nat {
    (c as nat - '0' as nat) as nat
}

/// The number that a sequence of decimal digits denotes, 0 for the empty
/// sequence.
pub open spec fn digits_value(digits: Seq<char>) -> nat
    decreases digits.len(),
{
    if digits.len() == 0 {
        0
    } else {
        digits_value(digits.drop_last()) * 10 + digit_value(digits.last())
    }
}

/// Whether every character of a sequence is a decimal digit.
pub open spec fn all_digits(digits: Seq<char>) -> bool {
    forall|i: int| 0 <= i < digits.len() ==> is_digit(#[trigger] digits[i])
}

/// A text without the plus sign that it may start with.
pub open spec fn unsigned_part(text: Seq<char>) -> Seq<char> {
    if text.len() > 0 && text[0] == '+' {
        text.drop_first()
    } else {
        text
    }
}

/// The level that a text denotes: the text is an optional plus sign followed
/// by one or more decimal digits and nothing else, and the number is at most
/// 255. `None` for every other text.
pub open spec fn decimal_level(text: Seq<char>) -> Option<u8> {
    if unsigned_part(text).len() > 0 && all_digits(unsigned_part(text)) && digits_value(
        unsigned_part(text),
    ) <= 255 {
        Some(digits_value(unsigned_part(text)) as u8)
    } else {
        None
    }
}

/// The number that digits denote is at least the number that any of their
/// beginnings denotes.
pub proof fn lemma_digits_value_grows(digits: Seq<char>, k: int)
    requires
        0 <= k <= digits.len(),
    ensures
        digits_value(digits.take(k)) <= digits_value(digits),
    decreases digits.len() - k,
{
    if k < digits.len() {
        lemma_digits_value_grows(digits, k + 1);
        assert(digits.take(k + 1).drop_last() =~= digits.take(k));
    } else {
        assert(digits.take(k) =~= digits);
    }
}

/// Reading a decimal notation gives back the number that was written.
pub proof fn lemma_decimal_round_trip(n: nat)
    ensures
        all_digits(decimal(n)),
        digits_value(decimal(n)) == n,
        unsigned_part(decimal(n)) == decimal(n),
        n <= 255 ==> decimal_level(decimal(n)) == Some(n as u8),
    decreases n,
{
    lemma_decimal_digits(n);
    let last = (n % 10) as int;
    assert(digit_value(digit_char(last)) == last);
    assert(decimal(n).last() == digit_char(last));
    if n >= 10 {
        lemma_decimal_round_trip(n / 10);
        assert(decimal(n).drop_last() =~= decimal(n / 10));
    } else {
        assert(decimal(n).drop_last() =~= Seq::<char>::empty());
        assert(digits_value(decimal(n).drop_last()) == 0);
    }
    assert(decimal(n)[0] != '+');
}

/// Reads the level that a text denotes.
pub fn parse_level(text: &str) -> (res: Option<u8>)
    ensures
        res == decimal_level(text@),
{
    let n = text.unicode_len();
    let start: usize = if n > 0 && text.get_char(0) == '+' {
        1
    } else {
        0
    };
    let ghost digits = unsigned_part(text@);
    assert(digits =~= text@.skip(start as int));
    if start == n {
        return None;
    }
    let mut value: u32 = 0;
    let mut i: usize = start;
    assert(digits.take(0) =~= Seq::<char>::empty());
    while i < n
        invariant
            start <= i <= n,
            n == text@.len(),
            digits == unsigned_part(text@),
            digits == text@.skip(start as int),
            all_digits(digits.take(i - start)),
            value == digits_value(digits.take(i - start)),
            value <= 255,
        decreases n - i,
    {
        let c = text.get_char(i);
        let ghost k = i - start;
        assert(digits[k] == c);
        assert(digits.take(k + 1).drop_last() =~= digits.take(k));
        assert(digits.take(k + 1).last() == c);
        if c < '0' || c > '9' {
            assert(!is_digit(digits[k]));
            return None;
        }
        let digit: u32 = c as u32 - '0' as u32;
        value = value * 10 + digit;
        assert(value == digits_value(digits.take(k + 1)));
        if value > 255 {
            proof {
                if all_digits(digits) {
                    lemma_digits_value_grows(digits, k + 1);
                }
            }
            return None;
        }
        assert forall|j: int| 0 <= j < digits.take(k + 1).len() implies is_digit(
            #[trigger] digits.take(k + 1)[j],
        ) by {
            if j < k {
                assert(digits.take(k + 1)[j] == digits.take(k)[j]);
            }
        }
        i = i + 1;
    }
    assert(digits.take(i - start) =~= digits);
    Some(value as u8)
}

// ---------------------------------------------------------------------------
// Comparing texts
// ---------------------------------------------------------------------------

/// Tells whether a text is exactly the given word.
pub fn text_is(text: &String, word: &str) -> (res: bool)
    ensures
        res == (text@ == word@),
{
    let other = String::from_str(word);
    *text == other
}

/// Whether a text ends with the given word.
pub open spec fn ends_with(text: Seq<char>, word: Seq<char>) -> bool {
    text.len() >= word.len() && text.subrange(text.len() - word.len(), text.len() as int) == word
}

/// Tells whether a text ends with the given word.
pub fn text_ends_with(text: &str, word: &str) -> (res: bool)
    ensures
        res == ends_with(text@, word@),
{
    let n = text.unicode_len();
    let m = word.unicode_len();
    if n < m {
        return false;
    }
    let start = n - m;
    let mut i: usize = 0;
    while i < m
        invariant
            i <= m,
            n == text@.len(),
            m == word@.len(),
            start == n - m,
            forall|k: int| 0 <= k < i ==> text@[start + k] == word@[k],
        decreases m - i,
    {
        if text.get_char(start + i) != word.get_char(i) {
            assert(text@.subrange(start as int, n as int)[i as int] != word@[i as int]);
            return false;
        }
        i = i + 1;
    }
    assert(text@.subrange(start as int, n as int) =~= word@);
    true
}

// ---------------------------------------------------------------------------
// Reserved words
// ---------------------------------------------------------------------------

/// The identifier of the human participant.
pub open spec fn player_name() -> Seq<char> {
    "Player"@
}

/// The status of a tournament whose round `n` is in play.
pub open spec fn round_status(n: nat) -> Seq<char> {
    "Round "@ + decimal(n)
}

/// The status of a tournament that the player has lost.
pub open spec fn game_over_status() -> Seq<char> {
    "Game over"@
}

/// How the status of a decided tournament ends.
pub open spec fn champion_suffix() -> Seq<char> {
    " wins the championship"@
}

/// The status of a tournament that the named team has won.
pub open spec fn champion_status(name: Seq<char>) -> Seq<char> {
    name + champion_suffix()
}

/// Whether a status names a champion.
pub open spec fn is_champion_status(status: Seq<char>) -> bool {
    ends_with(status, champion_suffix())
}

/// Whether a status is final: the player has lost, or a champion is named.
pub open spec fn is_terminal_status(status: Seq<char>) -> bool {
    status == game_over_status() || is_champion_status(status)
}

/// The status that names a champion is a champion status.
pub proof fn lemma_champion_status_is_terminal(name: Seq<char>)
    ensures
        is_champion_status(champion_status(name)),
        is_terminal_status(champion_status(name)),
{
    let status = champion_status(name);
    let suffix = champion_suffix();
    assert(status.subrange(status.len() - suffix.len(), status.len() as int) =~= suffix);
}

/// The status of the lost tournament is final.
pub proof fn lemma_game_over_is_terminal()
    ensures
        is_terminal_status(game_over_status()),
{
}

/// The status of a round in play is not final.
pub proof fn lemma_round_status_is_not_terminal(n: nat)
    ensures
        !is_terminal_status(round_status(n)),
{
    reveal_strlit("Round ");
    reveal_strlit("Game over");
    reveal_strlit(" wins the championship");
    lemma_decimal_digits(n);
    let status = round_status(n);
    let suffix = champion_suffix();
    assert(status[0] == 'R');
    assert(game_over_status()[0] == 'G');
    if is_champion_status(status) {
        let tail = status.subrange(status.len() - suffix.len(), status.len() as int);
        assert(tail[suffix.len() - 1] == suffix[suffix.len() - 1]);
        assert(suffix[suffix.len() - 1] == 'p');
        assert(status[status.len() - 1] == decimal(n)[decimal(n).len() - 1]);
    }
}

/// Writes the identifier of the human participant.
pub fn player_id() -> (res: String)
    ensures
        res@ == player_name(),
{
    String::from_str("Player")
}

/// Tells whether a text is the identifier of the human participant.
pub fn is_player(name: &String) -> (res: bool)
    ensures
        res == (name@ == player_name()),
{
    text_is(name, "Player")
}

/// Writes the status of a tournament whose round `n` is in play.
pub fn round_status_text(n: usize) -> (res: String)
    ensures
        res@ == round_status(n as nat),
{
    let mut status = String::from_str("Round ");
    let number = decimal_string(n);
    status.append(number.as_str());
    status
}

/// Writes the status of a tournament that the player has lost.
pub fn game_over_text() -> (res: String)
    ensures
        res@ == game_over_status(),
{
    String::from_str("Game over")
}

/// Writes the status of a tournament that the named team has won.
pub fn champion_text(name: &String) -> (res: String)
    ensures
        res@ == champion_status(name@),
{
    let mut status = name.clone();
    status.append(" wins the championship");
    status
}

/// Tells whether a status is final.
pub fn is_terminal(status: &String) -> (res: bool)
    ensures
        res == is_terminal_status(status@),
{
    text_is(status, "Game over") || text_ends_with(status.as_str(), " wins the championship")
}

} // verus!
