use cardgames::dispatch::{compact_messages, dispatch_all, dispatch_game_status};
use cardgames::games::{playable_games, GameKind};
use cardgames::primitives::{Card, CardDeckType, CardSuit, CardType, GameStatus, Player};
use cardgames::telegram::{deck_of_buttons, form_body, keyboard_to_json, Button, Message};
use cardgames::text::{
    decimal_string, first_pieces, has_text, letters, parse_index, pick, same_text,
    signed_decimal_string,
};
use cardgames::token::{
    card_from_bytes, card_to_bytes, command_token, decode_card, encode_card, menu_token,
    move_token, parse_button, ButtonCommand,
};
use cardgames::utils::deck_from_order;

fn named(id: i64, name: &str) -> Player {
    Player { id, name: name.to_string() }
}

fn lobby() -> Vec<Player> {
    vec![named(1, "Ada"), named(2, "Bea"), named(3, "Cid")]
}

fn whole_deck(of_type: CardDeckType, size: u8) -> Vec<Card> {
    let order: Vec<u8> = (0..size).collect();
    deck_from_order(of_type, &order)
}

fn texts(message: &Message) -> Vec<Vec<(String, String)>> {
    match &message.keyboard {
        Some(rows) => rows
            .iter()
            .map(|row| row.iter().map(|b| (b.id.clone(), b.text.clone())).collect())
            .collect(),
        None => Vec::new(),
    }
}

#[test]
fn card_bytes_follow_the_layout() {
    assert_eq!(
        card_to_bytes(&(CardType::Numeric(4), CardSuit::Denari)),
        vec![0, 0, 0, 0, 4, 2, 0, 0, 0]
    );
    assert_eq!(card_to_bytes(&(CardType::King, CardSuit::Spade)), vec![1, 0, 0, 0, 0, 0, 0, 0]);
    assert_eq!(card_to_bytes(&(CardType::Queen, CardSuit::Coppe)), vec![2, 0, 0, 0, 1, 0, 0, 0]);
    assert_eq!(card_to_bytes(&(CardType::Jack, CardSuit::Bastoni)), vec![3, 0, 0, 0, 3, 0, 0, 0]);
    assert_eq!(card_to_bytes(&(CardType::Jolly, CardSuit::Bastoni)), vec![4, 0, 0, 0, 3, 0, 0, 0]);
}

#[test]
fn card_bytes_are_what_bincode_writes() {
    let numeric: (u32, u8, u32) = (0, 7, 1);
    assert_eq!(
        card_to_bytes(&(CardType::Numeric(7), CardSuit::Coppe)),
        bincode::serialize(&numeric).unwrap()
    );
    let figure: (u32, u32) = (3, 2);
    assert_eq!(
        card_to_bytes(&(CardType::Jack, CardSuit::Denari)),
        bincode::serialize(&figure).unwrap()
    );
    let read: (u32, u8, u32) =
        bincode::deserialize(&card_to_bytes(&(CardType::Numeric(10), CardSuit::Bastoni))).unwrap();
    assert_eq!(read, (0, 10, 3));
}

#[test]
fn bytes_that_are_no_card_are_refused() {
    assert_eq!(card_from_bytes(&vec![]), None);
    assert_eq!(card_from_bytes(&vec![1, 0, 0, 0]), None);
    assert_eq!(card_from_bytes(&vec![5, 0, 0, 0, 0, 0, 0, 0]), None);
    assert_eq!(card_from_bytes(&vec![1, 1, 0, 0, 0, 0, 0, 0]), None);
    assert_eq!(card_from_bytes(&vec![1, 0, 0, 0, 4, 0, 0, 0]), None);
    assert_eq!(card_from_bytes(&vec![0, 0, 0, 0, 9, 1, 0, 0]), None);
    assert_eq!(
        card_from_bytes(&vec![0, 0, 0, 0, 9, 1, 0, 0, 0]),
        Some((CardType::Numeric(9), CardSuit::Coppe))
    );
    assert_eq!(
        card_from_bytes(&vec![2, 0, 0, 0, 0, 0, 0, 0, 77, 78]),
        Some((CardType::Queen, CardSuit::Spade))
    );
}

#[test]
fn every_card_comes_back_from_its_token() {
    let mut cards = whole_deck(CardDeckType::Briscola, 40);
    cards.extend(whole_deck(CardDeckType::Poker, 54));
    assert_eq!(cards.len(), 94);
    for card in cards {
        assert_eq!(card_from_bytes(&card_to_bytes(&card)), Some(card));
        let text = encode_card(&card);
        assert_eq!(decode_card(&text), Some(card));
        let token = move_token(&card);
        assert!(token.starts_with("handle_move:"));
        assert!(matches!(parse_button(&token), ButtonCommand::HandleMove(c) if c == card));
    }
}

#[test]
fn tokens_are_base64() {
    assert_eq!(encode_card(&(CardType::Numeric(4), CardSuit::Denari)), "AAAAAAQCAAAA");
    assert_eq!(encode_card(&(CardType::King, CardSuit::Spade)), "AQAAAAAAAAA=");
    assert_eq!(
        move_token(&(CardType::King, CardSuit::Spade)),
        "handle_move:AQAAAAAAAAA="
    );
    assert_eq!(decode_card("AQAAAAAAAAA="), Some((CardType::King, CardSuit::Spade)));
    assert_eq!(decode_card("not base64!"), None);
    assert_eq!(decode_card(""), None);
    assert_eq!(decode_card("AQAA"), None);
}

#[test]
fn buttons_are_read() {
    assert!(matches!(parse_button("start"), ButtonCommand::Start));
    assert!(matches!(parse_button("start:whatever"), ButtonCommand::Start));
    assert!(matches!(parse_button("init_game:0"), ButtonCommand::InitGame(0)));
    assert!(matches!(parse_button("init_game:12"), ButtonCommand::InitGame(12)));
    assert!(matches!(parse_button("init_game:+3:x"), ButtonCommand::InitGame(3)));
    assert!(matches!(parse_button("init_game"), ButtonCommand::Unknown));
    assert!(matches!(parse_button("init_game:"), ButtonCommand::Unknown));
    assert!(matches!(parse_button("init_game:one"), ButtonCommand::Unknown));
    assert!(matches!(parse_button("init_game:-1"), ButtonCommand::Unknown));
    assert!(matches!(
        parse_button("init_game:99999999999999999999999999"),
        ButtonCommand::Unknown
    ));
    assert!(matches!(parse_button("handle_move"), ButtonCommand::Unknown));
    assert!(matches!(parse_button("handle_move:???"), ButtonCommand::Unknown));
    assert!(matches!(parse_button("stop"), ButtonCommand::Unknown));
    assert!(matches!(parse_button(""), ButtonCommand::Unknown));
}

#[test]
fn numbers_are_written_and_read() {
    assert_eq!(decimal_string(0), "0");
    assert_eq!(decimal_string(7), "7");
    assert_eq!(decimal_string(10), "10");
    assert_eq!(decimal_string(18446744073709551615), "18446744073709551615");
    assert_eq!(signed_decimal_string(0), "0");
    assert_eq!(signed_decimal_string(-1), "-1");
    assert_eq!(signed_decimal_string(-9223372036854775808), "-9223372036854775808");
    assert_eq!(signed_decimal_string(9223372036854775807), "9223372036854775807");
    assert_eq!(parse_index("0"), Some(0));
    assert_eq!(parse_index("007"), Some(7));
    assert_eq!(parse_index("+42"), Some(42));
    assert_eq!(parse_index(""), None);
    assert_eq!(parse_index("+"), None);
    assert_eq!(parse_index("4 2"), None);
    assert_eq!(parse_index("18446744073709551615"), "18446744073709551615".parse::<usize>().ok());
    assert_eq!(parse_index("18446744073709551616"), None);
}

#[test]
fn texts_are_cut_and_searched() {
    assert_eq!(first_pieces("/start", ' '), ("/start".to_string(), None));
    assert_eq!(
        first_pieces("/start ABC DEF", ' '),
        ("/start".to_string(), Some("ABC".to_string()))
    );
    assert_eq!(first_pieces("a::b", ':'), ("a".to_string(), Some("".to_string())));
    assert_eq!(first_pieces("", ':'), ("".to_string(), None));
    assert!(has_text("please /start now", "/start"));
    assert!(has_text("/start", "/start"));
    assert!(!has_text("/star", "/start"));
    assert!(has_text("anything", ""));
    assert!(same_text("città", "città"));
    assert!(!same_text("citta", "città"));
    assert_eq!(letters("a1 b-c!È"), "abcÈ");
}

#[test]
fn hands_become_rows_of_three() {
    let hand = vec![
        (CardType::Numeric(1), CardSuit::Coppe),
        (CardType::King, CardSuit::Spade),
        (CardType::Numeric(7), CardSuit::Denari),
    ];
    let grid = deck_of_buttons(&hand);
    assert_eq!(grid.len(), 1);
    assert_eq!(grid[0].len(), 3);
    assert_eq!(grid[0][0].text, "Asso di 🏆");
    assert_eq!(grid[0][1].id, "handle_move:AQAAAAAAAAA=");
    let four = deck_of_buttons(&hand[..].iter().chain(hand[..1].iter()).cloned().collect());
    assert_eq!(four.iter().map(|r| r.len()).collect::<Vec<usize>>(), vec![3, 1]);
    let ten = deck_of_buttons(&whole_deck(CardDeckType::Briscola, 10));
    assert_eq!(
        ten.iter().map(|r| r.len()).collect::<Vec<usize>>(),
        vec![3, 3, 3, 1, 0, 0, 0, 0]
    );
    let none = deck_of_buttons(&Vec::new());
    assert_eq!(none.iter().map(|r| r.len()).collect::<Vec<usize>>(), vec![0]);
}

#[test]
fn every_status_has_its_text() {
    let ada = named(1, "Ada");
    let hand = vec![(CardType::King, CardSuit::Spade)];
    let cases: Vec<(GameStatus, &str, bool)> = vec![
        (GameStatus::GameEnded, "La partita è finita!", false),
        (GameStatus::RoundWon(ada.clone()), "Ada ha vinto questo round", false),
        (GameStatus::InProgress(ada.clone()), "Tocca a Ada", false),
        (GameStatus::WaitingForPlayers(false, ada.clone()), "Ada si è unito alla partita", false),
        (GameStatus::WaitingForPlayers(true, ada.clone()), "Ada si è unito alla partita", true),
        (GameStatus::WaitingForChoice(ada.clone(), hand.clone()), "Scegli una carta:", true),
        (GameStatus::InvalidMove("Perché no"), "Questa mossa non è valida! Perché no", false),
        (
            GameStatus::WaitingForChoiceCustomMessage(ada.clone(), hand.clone(), "Scegli"),
            "Scegli",
            true,
        ),
        (GameStatus::NotifyUser(ada.clone(), "solo a te".to_string()), "solo a te", false),
        (GameStatus::NotifyRoom("a tutti".to_string()), "a tutti", false),
        (
            GameStatus::CardPlayed(ada.clone(), (CardType::King, CardSuit::Spade)),
            "Ada ha giocato 🤴 di 🗡 ",
            false,
        ),
    ];
    for (status, text, buttons) in cases {
        let message = Message::from_status(&named(9, "Zoe"), &status);
        assert_eq!(message.chat_id, 9);
        assert_eq!(message.text, text);
        assert_eq!(message.keyboard.is_some(), buttons);
    }
    let ready = Message::from_status(&ada, &GameStatus::WaitingForPlayers(true, ada.clone()));
    assert_eq!(texts(&ready), vec![vec![("start".to_string(), "Avvia partita".to_string())]]);
}

#[test]
fn the_menu_offers_the_games() {
    let menu = Message::menu("Ciao! A che gioco vuoi giocare?", 5, &playable_games());
    assert_eq!(menu.chat_id, 5);
    assert_eq!(menu.text, "Ciao! A che gioco vuoi giocare?");
    assert_eq!(
        texts(&menu),
        vec![
            vec![("init_game:0".to_string(), "Briscola (2 - 4 giocatori)".to_string())],
            vec![("init_game:1".to_string(), "Beccaccino (4 giocatori)".to_string())],
        ]
    );
    let other = Message::menu("x", 5, &vec![GameKind::Scala40]);
    assert_eq!(
        texts(&other),
        vec![vec![("init_game:0".to_string(), "Scala 40 (2 - 6 giocatori)".to_string())]]
    );
}

#[test]
fn messages_become_form_bodies() {
    let plain = Message::plain("Ciao, Ada!", -12);
    assert_eq!(plain.get_raw(), "chat_id=-12&text=Ciao%2C%20Ada%21");
    let with_buttons = Message {
        chat_id: 7,
        text: "a&b".to_string(),
        keyboard: Some(vec![
            vec![
                Button { id: "start".to_string(), text: "Via".to_string() },
                Button { id: "x".to_string(), text: "y".to_string() },
            ],
            vec![],
        ]),
    };
    let json = "{\"inline_keyboard\":[[{\"text\": \"Via\", \"callback_data\": \"start\"}, {\"text\": \"y\", \"callback_data\": \"x\"}], []]}";
    let encoded = pct_str::PctString::encode(json.chars(), pct_str::URIReserved);
    assert_eq!(
        with_buttons.get_raw(),
        format!("chat_id=7&text=a%26b&reply_markup={}", encoded.as_str())
    );
    assert!(with_buttons
        .get_raw()
        .contains("&reply_markup={\"inline_keyboard\"%3A%5B%5B{\"text\"%3A%20\"Via\"%2C%20"));
}

#[test]
fn a_request_for_a_card_goes_to_one_player() {
    let bea = named(2, "Bea");
    let hand = vec![(CardType::King, CardSuit::Spade)];
    for status in [
        GameStatus::WaitingForChoice(bea.clone(), hand.clone()),
        GameStatus::WaitingForChoiceCustomMessage(bea.clone(), hand.clone(), "Scegli"),
        GameStatus::NotifyUser(bea.clone(), "psst".to_string()),
    ] {
        let out = dispatch_game_status(&status, &lobby());
        assert_eq!(out.len(), 1);
        assert_eq!(out[0].chat_id, 2);
    }
}

#[test]
fn news_go_to_everyone() {
    for status in [
        GameStatus::RoundWon(named(2, "Bea")),
        GameStatus::GameEnded,
        GameStatus::InProgress(named(2, "Bea")),
        GameStatus::InvalidMove("no"),
        GameStatus::NotifyRoom("news".to_string()),
        GameStatus::CardPlayed(named(2, "Bea"), (CardType::King, CardSuit::Spade)),
    ] {
        let out = dispatch_game_status(&status, &lobby());
        assert_eq!(out.iter().map(|m| m.chat_id).collect::<Vec<i64>>(), vec![1, 2, 3]);
        assert!(out.iter().all(|m| m.text == out[0].text && m.keyboard.is_none()));
        assert_eq!(status.dispatch(&lobby()).len(), 3);
    }
    assert!(dispatch_game_status(&GameStatus::GameEnded, &Vec::new()).is_empty());
}

#[test]
fn only_the_initiator_gets_the_start_button() {
    let status = GameStatus::WaitingForPlayers(true, named(3, "Cid"));
    let out = dispatch_game_status(&status, &lobby());
    assert_eq!(out.iter().map(|m| m.chat_id).collect::<Vec<i64>>(), vec![1, 3, 2]);
    assert_eq!(texts(&out[0]), vec![vec![("start".to_string(), "Avvia partita".to_string())]]);
    assert!(out[1].keyboard.is_none());
    assert!(out[2].keyboard.is_none());
    assert_eq!(out[0].text, "Cid si è unito alla partita");
    assert_eq!(out[1].text, out[0].text);
    assert_eq!(out[2].text, out[0].text);
    let waiting = dispatch_game_status(&GameStatus::WaitingForPlayers(false, named(2, "Bea")), &lobby());
    assert!(waiting.iter().all(|m| m.keyboard.is_none()));
    assert!(dispatch_game_status(&status, &Vec::new()).is_empty());
}

#[test]
fn messages_are_compacted_per_recipient() {
    let list = vec![
        Message::plain("uno", 1),
        Message {
            chat_id: 2,
            text: "due".to_string(),
            keyboard: Some(vec![vec![Button { id: "a".to_string(), text: "A".to_string() }]]),
        },
        Message::plain("tre", 1),
        Message {
            chat_id: 2,
            text: "quattro".to_string(),
            keyboard: Some(vec![
                vec![Button { id: "b".to_string(), text: "B".to_string() }],
                vec![Button { id: "c".to_string(), text: "C".to_string() }],
            ]),
        },
        Message::plain("cinque", 3),
        Message::plain("sei", 2),
    ];
    let out = compact_messages(list);
    assert_eq!(out.len(), 3);
    assert_eq!(out[0].chat_id, 1);
    assert_eq!(out[0].text, "uno\ntre");
    assert!(out[0].keyboard.is_none());
    assert_eq!(out[1].chat_id, 2);
    assert_eq!(out[1].text, "due\nquattro\nsei");
    assert_eq!(
        texts(&out[1]),
        vec![
            vec![("a".to_string(), "A".to_string())],
            vec![("b".to_string(), "B".to_string())],
            vec![("c".to_string(), "C".to_string())],
        ]
    );
    assert_eq!(out[2].chat_id, 3);
    assert_eq!(out[2].text, "cinque");
    assert!(compact_messages(Vec::new()).is_empty());
}

#[test]
fn a_batch_is_routed_status_by_status() {
    let statuses = vec![
        GameStatus::WaitingForChoice(named(2, "Bea"), vec![(CardType::King, CardSuit::Spade)]),
        GameStatus::InProgress(named(2, "Bea")),
    ];
    let out = dispatch_all(&statuses, &lobby());
    assert_eq!(out.iter().map(|m| m.chat_id).collect::<Vec<i64>>(), vec![2, 1, 2, 3]);
    let compact = compact_messages(out);
    assert_eq!(compact.iter().map(|m| m.chat_id).collect::<Vec<i64>>(), vec![2, 1, 3]);
    assert_eq!(compact[0].text, "Scegli una carta:\nTocca a Bea");
    assert_eq!(compact[0].keyboard.as_ref().unwrap().len(), 1);
    assert_eq!(compact[1].text, "Tocca a Bea");
}

#[test]
fn tokens_are_a_word_and_an_argument() {
    assert_eq!(command_token("start", ""), "start:");
    assert_eq!(command_token("handle_move", "AQAA"), "handle_move:AQAA");
    assert_eq!(menu_token(0), "init_game:0");
    assert_eq!(menu_token(17), "init_game:17");
    for index in [0usize, 1, 9, 10, 123456] {
        assert!(matches!(parse_button(&menu_token(index)), ButtonCommand::InitGame(i) if i == index));
    }
}

#[test]
fn marked_characters_are_picked() {
    let chars: Vec<char> = "a1b2".chars().collect();
    assert_eq!(pick(&chars, &vec![true, false, true, false]), "ab");
    assert_eq!(pick(&chars, &vec![false, true, false, true]), "12");
    assert_eq!(pick(&Vec::new(), &Vec::new()), "");
}

#[test]
fn form_bodies_are_put_together() {
    assert_eq!(form_body("1", "ciao", None), "chat_id=1&text=ciao");
    assert_eq!(form_body("1", "ciao", Some("{}")), "chat_id=1&text=ciao&reply_markup={}");
    let rows = vec![vec![Button { id: "start".to_string(), text: "Via".to_string() }]];
    assert_eq!(
        keyboard_to_json(&rows),
        "{\"inline_keyboard\":[[{\"text\": \"Via\", \"callback_data\": \"start\"}]]}"
    );
    assert_eq!(keyboard_to_json(&Vec::new()), "{\"inline_keyboard\":[]}");
}
