//! What buttons send back: a command word and, behind a colon, its
//! argument. A card is the argument of a move: eight or nine bytes,
//! written as base64 text.
//!
//! A card's bytes are its rank and then its suit. Each is a four-byte
//! little-endian number that tells the variant; the number on a numeric
//! card follows its rank's number as one more byte.

use crate::primitives::{Card, CardSuit, CardType};
use crate::text::{
    decimal, decimal_string, digit_value, first_of, first_pieces, head_of, index_of_text,
    lemma_decimal_reads_back, lemma_first_of, parse_index, push_char, same_text, second_piece,
};
use vstd::prelude::*;

verus! {

/// The number that stands for a rank.
pub open spec fn rank_tag(rank: CardType) -> u8 {
    match rank {
        CardType::Numeric(_) => 0,
        CardType::King => 1,
        CardType::Queen => 2,
        CardType::Jack => 3,
        CardType::Jolly => 4,
    }
}

/// The number that stands for a suit.
pub open spec fn suit_tag(suit: CardSuit) -> u8 {
    match suit {
        CardSuit::Spade => 0,
        CardSuit::Coppe => 1,
        CardSuit::Denari => 2,
        CardSuit::Bastoni => 3,
    }
}

/// The bytes of a rank.
pub open spec fn rank_bytes(rank: CardType) -> Seq<u8> {
    match rank {
        CardType::Numeric(x) => seq![0u8, 0u8, 0u8, 0u8, x],
        _ => seq![rank_tag(rank), 0u8, 0u8, 0u8],
    }
}

/// The bytes of a card.
pub open spec fn card_bytes(card: Card) -> Seq<u8> {
    rank_bytes(card.0) + seq![suit_tag(card.1), 0u8, 0u8, 0u8]
}

/// Whether a small number is written at `at`: one byte below `limit`
/// followed by three zero bytes.
pub open spec fn tag_at(bytes: Seq<u8>, at: int, limit: u8) -> bool {
    &&& at + 4 <= bytes.len()
    &&& bytes[at] < limit
    &&& bytes[at + 1] == 0
    &&& bytes[at + 2] == 0
    &&& bytes[at + 3] == 0
}

/// The suit that the number `tag` stands for.
pub open spec fn suit_of_tag(tag: u8) -> CardSuit {
    if tag == 0 {
        CardSuit::Spade
    } else if tag == 1 {
        CardSuit::Coppe
    } else if tag == 2 {
        CardSuit::Denari
    } else {
        CardSuit::Bastoni
    }
}

/// The card that a sequence of bytes begins with, if it begins with one.
/// Bytes after the card are not looked at.
pub open spec fn card_of_bytes(bytes: Seq<u8>) -> Option<Card> {
    if !tag_at(bytes, 0, 5) {
        None
    } else if bytes[0] == 0 {
        if tag_at(bytes, 5, 4) {
            Some((CardType::Numeric(bytes[4]), suit_of_tag(bytes[5])))
        } else {
            None
        }
    } else if tag_at(bytes, 4, 4) {
        Some(
            (
                if bytes[0] == 1 {
                    CardType::King
                } else if bytes[0] == 2 {
                    CardType::Queen
                } else if bytes[0] == 3 {
                    CardType::Jack
                } else {
                    CardType::Jolly
                },
                suit_of_tag(bytes[4]),
            ),
        )
    } else {
        None
    }
}

/// Reading a card's bytes gives the card back.
pub proof fn lemma_card_bytes_round_trip(card: Card)
    ensures
        card_of_bytes(card_bytes(card)) == Some(card),
{
}

/// Bytes that read as a card begin with that card's bytes.
pub proof fn lemma_card_of_bytes_is_inverse(bytes: Seq<u8>)
    requires
        card_of_bytes(bytes).is_some(),
    ensures
        card_bytes(card_of_bytes(bytes).unwrap()).len() <= bytes.len(),
        bytes.subrange(0, card_bytes(card_of_bytes(bytes).unwrap()).len() as int) == card_bytes(
            card_of_bytes(bytes).unwrap(),
        ),
{
    let card = card_of_bytes(bytes).unwrap();
    assert(bytes.subrange(0, card_bytes(card).len() as int) =~= card_bytes(card));
}

/// The bytes of a card.
pub fn card_to_bytes(card: &Card) -> (r: Vec<u8>)
    ensures
        r@ == card_bytes(*card),
{
    let mut out: Vec<u8> = Vec::new();
    match card.0 {
        CardType::Numeric(x) => {
            out.push(0);
            out.push(0);
            out.push(0);
            out.push(0);
            out.push(x);
        },
        CardType::King => {
            out.push(1);
            out.push(0);
            out.push(0);
            out.push(0);
        },
        CardType::Queen => {
            out.push(2);
            out.push(0);
            out.push(0);
            out.push(0);
        },
        CardType::Jack => {
            out.push(3);
            out.push(0);
            out.push(0);
            out.push(0);
        },
        CardType::Jolly => {
            out.push(4);
            out.push(0);
            out.push(0);
            out.push(0);
        },
    }
    out.push(
        match card.1 {
            CardSuit::Spade => 0,
            CardSuit::Coppe => 1,
            CardSuit::Denari => 2,
            CardSuit::Bastoni => 3,
        },
    );
    out.push(0);
    out.push(0);
    out.push(0);
    assert(out@ =~= card_bytes(*card));
    out
}

fn has_tag_at(bytes: &Vec<u8>, at: usize, limit: u8) -> (r: bool)
    requires
        at <= 5,
    ensures
        r == tag_at(bytes@, at as int, limit),
{
    bytes.len() >= 4 && at <= bytes.len() - 4 && bytes[at] < limit && bytes[at + 1] == 0
        && bytes[at + 2] == 0 && bytes[at + 3] == 0
}

fn suit_from_tag(tag: u8) -> (r: CardSuit)
    ensures
        r == suit_of_tag(tag),
{
    if tag == 0 {
        CardSuit::Spade
    } else if tag == 1 {
        CardSuit::Coppe
    } else if tag == 2 {
        CardSuit::Denari
    } else {
        CardSuit::Bastoni
    }
}

/// The card that `bytes` begins with, if it begins with one.
pub fn card_from_bytes(bytes: &Vec<u8>) -> (r: Option<Card>)
    ensures
        r == card_of_bytes(bytes@),
{
    if !has_tag_at(bytes, 0, 5) {
        return None;
    }
    if bytes[0] == 0 {
        if has_tag_at(bytes, 5, 4) {
            Some((CardType::Numeric(bytes[4]), suit_from_tag(bytes[5])))
        } else {
            None
        }
    } else if has_tag_at(bytes, 4, 4) {
        let rank = if bytes[0] == 1 {
            CardType::King
        } else if bytes[0] == 2 {
            CardType::Queen
        } else if bytes[0] == 3 {
            CardType::Jack
        } else {
            CardType::Jolly
        };
        Some((rank, suit_from_tag(bytes[4])))
    } else {
        None
    }
}

/// What `base64::encode` returns for a sequence of bytes.
pub uninterp spec fn base64_text(bytes: Seq<u8>) -> Seq<char>;

/// What `base64::decode` finds in a text: the bytes, or nothing where it
/// reports an error.
pub uninterp spec fn base64_bytes(text: Seq<char>) -> Option<Seq<u8>>;

#[verifier::external_type_specification]
#[verifier::external_body]
pub struct ExDecodeError(base64::DecodeError);

/// Writes bytes as base64 text; wraps `base64::encode`.
///
/// The text is made of the letters, digits, `+`, `/` and `=` of the
/// standard alphabet, so it holds no colon, and `base64::decode` reads
/// the same bytes back from it. An input so long that the length of its
/// text would not fit a `usize` is left out.
#[verifier::external_body]
pub(crate) fn base64_encode(bytes: &Vec<u8>) -> (r: String)
    requires
        bytes.len() <= usize::MAX / 2,
    ensures
        r@ == base64_text(bytes@),
        base64_bytes(r@) == Some(bytes@),
        !r@.contains(':'),
{
    base64::encode(bytes)
}

/// Reads base64 text; wraps `base64::decode`.
#[verifier::external_body]
pub(crate) fn base64_decode(text: &str) -> (r: Result<Vec<u8>, base64::DecodeError>)
    ensures
        match r {
            Ok(bytes) => base64_bytes(text@) == Some(bytes@),
            Err(_) => base64_bytes(text@).is_none(),
        },
{
    base64::decode(text)
}

/// The argument of a card's token: the base64 text of its bytes.
pub open spec fn card_text(card: Card) -> Seq<char> {
    base64_text(card_bytes(card))
}

/// The card that a token's argument stands for, if it stands for one.
pub open spec fn card_of_text(text: Seq<char>) -> Option<Card> {
    match base64_bytes(text) {
        Some(bytes) => card_of_bytes(bytes),
        None => None,
    }
}

/// The argument of a card's token. Reading it gives the card back.
pub fn encode_card(card: &Card) -> (r: String)
    ensures
        r@ == card_text(*card),
        card_of_text(r@) == Some(*card),
        !r@.contains(':'),
{
    let bytes = card_to_bytes(card);
    proof {
        lemma_card_bytes_round_trip(*card);
    }
    base64_encode(&bytes)
}

/// The card that a token's argument stands for, if it stands for one.
pub fn decode_card(text: &str) -> (r: Option<Card>)
    ensures
        r == card_of_text(text@),
{
    match base64_decode(text) {
        Ok(bytes) => card_from_bytes(&bytes),
        Err(_) => None,
    }
}

/// What a button asks for.
pub enum ButtonCommand {
    /// Open a session of the game at this place of the menu.
    InitGame(usize),
    /// Start the game of the player's session.
    Start,
    /// Play this card.
    HandleMove(Card),
    /// Nothing that is understood.
    Unknown,
}

/// What the data of a button asks for: the command word stands before
/// the first colon, its argument between the first colon and the second.
pub open spec fn button_command(data: Seq<char>) -> ButtonCommand {
    let word = head_of(data, ':');
    let argument = second_piece(data, ':');
    if word == "init_game"@ {
        match argument {
            Some(text) => match index_of_text(text) {
                Some(index) => ButtonCommand::InitGame(index),
                None => ButtonCommand::Unknown,
            },
            None => ButtonCommand::Unknown,
        }
    } else if word == "start"@ {
        ButtonCommand::Start
    } else if word == "handle_move"@ {
        match argument {
            Some(text) => match card_of_text(text) {
                Some(card) => ButtonCommand::HandleMove(card),
                None => ButtonCommand::Unknown,
            },
            None => ButtonCommand::Unknown,
        }
    } else {
        ButtonCommand::Unknown
    }
}

/// Reads what the data of a button asks for.
pub fn parse_button(data: &str) -> (r: ButtonCommand)
    ensures
        r == button_command(data@),
{
    let pieces = first_pieces(data, ':');
    let word = pieces.0;
    if same_text(word.as_str(), "init_game") {
        match pieces.1 {
            Some(text) => match parse_index(text.as_str()) {
                Some(index) => ButtonCommand::InitGame(index),
                None => ButtonCommand::Unknown,
            },
            None => ButtonCommand::Unknown,
        }
    } else if same_text(word.as_str(), "start") {
        ButtonCommand::Start
    } else if same_text(word.as_str(), "handle_move") {
        match pieces.1 {
            Some(text) => match decode_card(text.as_str()) {
                Some(card) => ButtonCommand::HandleMove(card),
                None => ButtonCommand::Unknown,
            },
            None => ButtonCommand::Unknown,
        }
    } else {
        ButtonCommand::Unknown
    }
}

/// The first separator of a text that has none before its own is the
/// one that is put behind it.
proof fn lemma_first_of_joined(word: Seq<char>, sep: char, rest: Seq<char>)
    requires
        !word.contains(sep),
    ensures
        first_of(word + seq![sep] + rest, sep) == word.len(),
    decreases word.len(),
{
    let all = word + seq![sep] + rest;
    if word.len() == 0 {
        assert(all[0] == sep);
    } else {
        assert(word[0] != sep) by {
            if word[0] == sep {
                assert(word.contains(sep));
            }
        }
        assert(all[0] == word[0]);
        assert(!word.drop_first().contains(sep)) by {
            if word.drop_first().contains(sep) {
                let k = choose|k: int|
                    0 <= k < word.drop_first().len() && word.drop_first()[k] == sep;
                assert(word[k + 1] == sep);
            }
        }
        lemma_first_of_joined(word.drop_first(), sep, rest);
        assert(all.drop_first() =~= word.drop_first() + seq![sep] + rest);
    }
}

/// A text without a separator is its own first piece.
proof fn lemma_first_of_whole(text: Seq<char>, sep: char)
    requires
        !text.contains(sep),
    ensures
        first_of(text, sep) == text.len(),
{
    lemma_first_of(text, sep);
    if first_of(text, sep) < text.len() {
        assert(text.contains(sep));
    }
}

/// A command word, a colon and the argument of the command.
pub open spec fn command_text(word: Seq<char>, argument: Seq<char>) -> Seq<char> {
    word + seq![':'] + argument
}

/// Puts a command word and its argument together. Cutting the token at
/// its colons gives the two back.
pub fn command_token(word: &str, argument: &str) -> (r: String)
    requires
        !word@.contains(':'),
        !argument@.contains(':'),
    ensures
        r@ == command_text(word@, argument@),
        head_of(r@, ':') == word@,
        second_piece(r@, ':') == Some(argument@),
{
    let mut token = String::from_str(word);
    push_char(&mut token, ':');
    token.append(argument);
    proof {
        assert(token@ =~= command_text(word@, argument@));
        lemma_first_of_joined(word@, ':', argument@);
        assert(head_of(token@, ':') =~= word@);
        assert(token@.subrange(word@.len() as int + 1, token@.len() as int) =~= argument@);
        lemma_first_of_whole(argument@, ':');
        assert(head_of(argument@, ':') =~= argument@);
    }
    token
}

/// The token of the button that plays a card.
pub open spec fn card_token(card: Card) -> Seq<char> {
    command_text("handle_move"@, card_text(card))
}

/// The token of the button that opens a session of the game at `index`
/// of the menu.
pub open spec fn game_token(index: nat) -> Seq<char> {
    command_text("init_game"@, decimal(index))
}

/// The command words hold no colon and differ from each other.
proof fn lemma_command_words()
    ensures
        !"handle_move"@.contains(':'),
        !"init_game"@.contains(':'),
        "handle_move"@ != "init_game"@,
        "handle_move"@ != "start"@,
        "init_game"@ != "start"@,
{
    reveal_strlit("handle_move");
    reveal_strlit("init_game");
    reveal_strlit("start");
    let a = "handle_move"@;
    let b = "init_game"@;
    assert(a.len() == 11);
    assert(b.len() == 9);
    assert("start"@.len() == 5);
    if a.contains(':') {
        let k = choose|k: int| 0 <= k < a.len() && a[k] == ':';
        assert(a[k] != ':');
    }
    if b.contains(':') {
        let k = choose|k: int| 0 <= k < b.len() && b[k] == ':';
        assert(b[k] != ':');
    }
}

/// The token of the button that plays a card. Reading the token gives
/// the move with the card back.
pub fn move_token(card: &Card) -> (r: String)
    ensures
        r@ == card_token(*card),
        button_command(r@) == ButtonCommand::HandleMove(*card),
{
    let argument = encode_card(card);
    proof {
        lemma_command_words();
    }
    command_token("handle_move", argument.as_str())
}

/// The token of the button that opens a session of the game at `index`
/// of the menu. Reading the token gives the index back.
pub fn menu_token(index: usize) -> (r: String)
    ensures
        r@ == game_token(index as nat),
        button_command(r@) == ButtonCommand::InitGame(index),
{
    let argument = decimal_string(index as u64);
    proof {
        lemma_command_words();
        lemma_decimal_reads_back(index as nat);
        let digits = decimal(index as nat);
        assert(digit_value(digits[0]).is_some());
        if digits.contains(':') {
            let k = choose|k: int| 0 <= k < digits.len() && digits[k] == ':';
            assert(digit_value(digits[k]).is_some());
        }
    }
    command_token("init_game", argument.as_str())
}

} // verus!
