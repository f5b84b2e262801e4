use cardgames::games::beccaccino::{announce, Beccaccino};
use cardgames::games::briscola::Briscola;
use cardgames::games::scala40::Scala40;
use cardgames::games::{playable_games, summary, winning_play, write_score_line, GameKind};
use cardgames::primitives::{
    Card, CardDeckType, CardSuit, CardType, Game, GameStatus, Player,
};
use cardgames::score::{one, zero, Score};
use cardgames::utils::{deck_from_order, get_card_name, get_user_name, random_deck};

fn player(id: i64, name: &str) -> Player {
    Player { id, name: name.to_string() }
}

fn ordered_deck() -> Vec<Card> {
    let order: Vec<u8> = (0..40).collect();
    deck_from_order(CardDeckType::Briscola, &order)
}

/// The ordered deck with the ace of Denari and the ace of Spade swapped.
fn mixed_deck() -> Vec<Card> {
    let mut order: Vec<u8> = (0..40).collect();
    order.swap(20, 30);
    deck_from_order(CardDeckType::Briscola, &order)
}

fn briscola_for(names: &[&str]) -> Briscola {
    let mut game = Briscola::default();
    game.init_with_deck(ordered_deck());
    for (i, name) in names.iter().enumerate() {
        assert!(game.add_player(player(i as i64 + 1, name)).is_ok());
    }
    game
}

fn beccaccino_with(deck: Vec<Card>) -> Beccaccino {
    let mut game = Beccaccino::default();
    for (i, name) in ["Ada", "Bea", "Cid", "Dan"].iter().enumerate() {
        assert!(game.add_player(player(i as i64 + 1, name)).is_ok());
    }
    assert!(game.is_startable());
    game.start_with_deck(deck);
    game
}

#[test]
fn it_works() {
    assert_eq!(2 + 2, 4);
}

#[test]
fn ordered_deck_runs_through_the_suits() {
    let deck = ordered_deck();
    assert_eq!(deck.len(), 40);
    assert_eq!(deck[0], (CardType::Numeric(1), CardSuit::Bastoni));
    assert_eq!(deck[6], (CardType::Numeric(7), CardSuit::Bastoni));
    assert_eq!(deck[7], (CardType::Jack, CardSuit::Bastoni));
    assert_eq!(deck[8], (CardType::Queen, CardSuit::Bastoni));
    assert_eq!(deck[9], (CardType::King, CardSuit::Bastoni));
    assert_eq!(deck[10], (CardType::Numeric(1), CardSuit::Coppe));
    assert_eq!(deck[23], (CardType::Numeric(4), CardSuit::Denari));
    assert_eq!(deck[39], (CardType::King, CardSuit::Spade));
}

#[test]
fn poker_deck_has_ten_numbers_three_figures_and_two_jokers() {
    let order: Vec<u8> = (0..54).collect();
    let deck = deck_from_order(CardDeckType::Poker, &order);
    assert_eq!(deck.len(), 54);
    assert_eq!(deck[0], (CardType::Numeric(1), CardSuit::Bastoni));
    assert_eq!(deck[9], (CardType::Numeric(10), CardSuit::Bastoni));
    assert_eq!(deck[10], (CardType::Jack, CardSuit::Bastoni));
    assert_eq!(deck[11], (CardType::Queen, CardSuit::Bastoni));
    assert_eq!(deck[12], (CardType::King, CardSuit::Bastoni));
    assert_eq!(deck[13], (CardType::Numeric(1), CardSuit::Coppe));
    assert_eq!(deck[51], (CardType::King, CardSuit::Spade));
    assert_eq!(deck[52], (CardType::Jolly, CardSuit::Bastoni));
    assert_eq!(deck[53], (CardType::Jolly, CardSuit::Bastoni));
}

#[test]
fn random_deck_holds_every_card_once() {
    let deck = random_deck(CardDeckType::Briscola);
    assert_eq!(deck.len(), 40);
    for card in ordered_deck() {
        assert_eq!(deck.iter().filter(|c| **c == card).count(), 1);
    }
    let poker = random_deck(CardDeckType::Poker);
    assert_eq!(poker.len(), 54);
    let jokers = poker.iter().filter(|c| c.0 == CardType::Jolly).count();
    assert_eq!(jokers, 2);
}

#[test]
fn random_deck_is_shuffled() {
    let ordered = ordered_deck();
    let mut moved = false;
    for _ in 0..8 {
        if random_deck(CardDeckType::Briscola) != ordered {
            moved = true;
        }
    }
    assert!(moved);
}

#[test]
fn cards_have_names() {
    assert_eq!(get_card_name(&(CardType::Numeric(1), CardSuit::Coppe)), "Asso di 🏆");
    assert_eq!(get_card_name(&(CardType::Numeric(7), CardSuit::Denari)), "7 di 💰");
    assert_eq!(get_card_name(&(CardType::Numeric(10), CardSuit::Spade)), "10 di 🗡 ");
    assert_eq!(get_card_name(&(CardType::Jack, CardSuit::Bastoni)), "🚶‍♂️ di 🥢");
    assert_eq!(get_card_name(&(CardType::Queen, CardSuit::Bastoni)), "🐴 di 🥢");
    assert_eq!(get_card_name(&(CardType::King, CardSuit::Bastoni)), "🤴 di 🥢");
    assert_eq!(get_card_name(&(CardType::Jolly, CardSuit::Bastoni)), "🃏 di 🥢");
}

#[test]
fn users_have_names() {
    assert_eq!(get_user_name("Ada", &None), "Ada");
    assert_eq!(get_user_name("Ada", &Some("Byron".to_string())), "Ada Byron");
}

#[test]
fn players_are_equal_by_id() {
    assert_eq!(player(7, "Ada"), player(7, "Augusta"));
    assert_ne!(player(7, "Ada"), player(8, "Ada"));
}

#[test]
fn scores_are_in_lowest_terms() {
    assert_eq!(zero(), Score { numer: 0, denom: 1 });
    assert_eq!(one(), Score { numer: 1, denom: 1 });
    assert_eq!(Score::whole(11), Score { numer: 11, denom: 1 });
    assert_eq!(Score::whole(255), Score { numer: 255, denom: 1 });
}

#[test]
fn scores_are_written_as_fractions() {
    assert_eq!(Score::whole(11).to_text(), "11");
    assert_eq!(Score::whole(0).to_text(), "0");
    assert_eq!(Score { numer: 4, denom: 3 }.to_text(), "4/3");
    assert_eq!(Score { numer: 1, denom: 3 }.to_text(), "1/3");
    assert_eq!(Beccaccino::get_card_rank(&CardType::King).to_text(), "1/3");
}

#[test]
fn briscola_ranks() {
    assert_eq!(Briscola::get_card_rank(&CardType::Numeric(1)), Score { numer: 11, denom: 1 });
    assert_eq!(Briscola::get_card_rank(&CardType::Numeric(3)), Score { numer: 10, denom: 1 });
    assert_eq!(Briscola::get_card_rank(&CardType::King), Score { numer: 4, denom: 1 });
    assert_eq!(Briscola::get_card_rank(&CardType::Queen), Score { numer: 3, denom: 1 });
    assert_eq!(Briscola::get_card_rank(&CardType::Jack), Score { numer: 2, denom: 1 });
    assert_eq!(Briscola::get_card_rank(&CardType::Numeric(7)), Score { numer: 0, denom: 1 });
    assert_eq!(Briscola::get_card_rank(&CardType::Jolly), Score { numer: 0, denom: 1 });
    let strengths: Vec<u8> = [
        CardType::Numeric(1),
        CardType::Numeric(3),
        CardType::King,
        CardType::Queen,
        CardType::Jack,
        CardType::Numeric(7),
        CardType::Numeric(6),
        CardType::Numeric(5),
        CardType::Numeric(4),
        CardType::Numeric(2),
        CardType::Jolly,
    ]
    .iter()
    .map(Briscola::get_card_sorting_rank)
    .collect();
    assert_eq!(strengths, vec![10, 9, 8, 7, 6, 5, 4, 3, 2, 1, 0]);
}

#[test]
fn beccaccino_ranks() {
    assert_eq!(Beccaccino::get_card_rank(&CardType::Numeric(1)), Score { numer: 1, denom: 1 });
    assert_eq!(Beccaccino::get_card_rank(&CardType::Numeric(2)), Score { numer: 1, denom: 3 });
    assert_eq!(Beccaccino::get_card_rank(&CardType::Numeric(3)), Score { numer: 1, denom: 3 });
    assert_eq!(Beccaccino::get_card_rank(&CardType::King), Score { numer: 1, denom: 3 });
    assert_eq!(Beccaccino::get_card_rank(&CardType::Queen), Score { numer: 1, denom: 3 });
    assert_eq!(Beccaccino::get_card_rank(&CardType::Jack), Score { numer: 1, denom: 3 });
    assert_eq!(Beccaccino::get_card_rank(&CardType::Numeric(4)), Score { numer: 0, denom: 1 });
    assert_eq!(Beccaccino::get_card_rank(&CardType::Jolly), Score { numer: 0, denom: 1 });
    let strengths: Vec<u8> = [
        CardType::Numeric(3),
        CardType::Numeric(2),
        CardType::Numeric(1),
        CardType::King,
        CardType::Queen,
        CardType::Jack,
        CardType::Numeric(7),
        CardType::Numeric(6),
        CardType::Numeric(5),
        CardType::Numeric(4),
        CardType::Jolly,
    ]
    .iter()
    .map(Beccaccino::get_card_sorting_rank)
    .collect();
    assert_eq!(strengths, vec![10, 9, 8, 7, 6, 5, 4, 3, 2, 1, 0]);
}

#[test]
fn a_trump_beats_the_led_suit() {
    let plays = vec![
        (CardSuit::Coppe, 10),
        (CardSuit::Denari, 1),
        (CardSuit::Coppe, 9),
        (CardSuit::Denari, 3),
    ];
    assert_eq!(winning_play(&plays, CardSuit::Denari), 3);
    assert_eq!(winning_play(&plays, CardSuit::Coppe), 0);
    assert_eq!(winning_play(&plays, CardSuit::Spade), 0);
}

#[test]
fn the_first_of_equal_cards_wins() {
    let plays = vec![(CardSuit::Coppe, 4), (CardSuit::Coppe, 4), (CardSuit::Bastoni, 10)];
    assert_eq!(winning_play(&plays, CardSuit::Spade), 0);
    let trumps = vec![(CardSuit::Coppe, 4), (CardSuit::Spade, 0), (CardSuit::Spade, 0)];
    assert_eq!(winning_play(&trumps, CardSuit::Spade), 1);
}

#[test]
fn the_same_trick_has_the_same_winner() {
    let plays = vec![(CardSuit::Coppe, 2), (CardSuit::Bastoni, 7), (CardSuit::Coppe, 5)];
    let first = winning_play(&plays, CardSuit::Denari);
    for _ in 0..10 {
        assert_eq!(winning_play(&plays, CardSuit::Denari), first);
    }
    assert_eq!(first, 2);
}

#[test]
fn briscola_two_players_play_a_trick() {
    let mut game = briscola_for(&["Ada", "Bea"]);
    let ada = player(1, "Ada");
    let bea = player(2, "Bea");
    assert!(game.is_startable());
    let king = (CardType::King, CardSuit::Spade);
    let queen = (CardType::Queen, CardSuit::Spade);
    let jack = (CardType::Jack, CardSuit::Spade);
    let seven = (CardType::Numeric(7), CardSuit::Spade);
    match game.start() {
        GameStatus::WaitingForChoice(p, hand) => {
            assert_eq!(p, ada);
            assert_eq!(hand, vec![king, queen, jack]);
        },
        other => panic!("unexpected {:?}", other),
    }
    assert!(game.accepts_move(&ada, &king));
    let told = game.handle_move(&ada, king);
    assert_eq!(told.len(), 2);
    match &told[0] {
        GameStatus::WaitingForChoice(p, hand) => {
            assert_eq!(*p, bea);
            assert_eq!(
                *hand,
                vec![
                    seven,
                    (CardType::Numeric(6), CardSuit::Spade),
                    (CardType::Numeric(5), CardSuit::Spade),
                ]
            );
        },
        other => panic!("unexpected {:?}", other),
    }
    assert!(matches!(&told[1], GameStatus::InProgress(p) if *p == bea));
    assert!(game.accepts_move(&bea, &seven));
    let told = game.handle_move(&bea, seven);
    assert_eq!(told.len(), 3);
    assert!(matches!(&told[0], GameStatus::CardPlayed(p, c) if *p == bea && *c == seven));
    match &told[1] {
        GameStatus::WaitingForChoice(p, hand) => {
            assert_eq!(*p, ada);
            assert_eq!(*hand, vec![queen, jack, (CardType::Numeric(4), CardSuit::Spade)]);
        },
        other => panic!("unexpected {:?}", other),
    }
    assert!(matches!(&told[2], GameStatus::RoundWon(p) if *p == ada));
    let scores = game.get_scores();
    assert_eq!(scores.len(), 2);
    assert_eq!(scores[0].0, vec![bea.clone()]);
    assert_eq!(scores[0].1, Score { numer: 0, denom: 1 });
    assert_eq!(scores[1].0, vec![ada.clone()]);
    assert_eq!(scores[1].1, Score { numer: 4, denom: 1 });
    assert_eq!(game.get_next_player(), Some(ada));
    assert_eq!(
        game.get_status(),
        "Partita di Briscola\nPunteggi:\nBea: 0 punti\nAda: 4 punti\nBriscola è: 🥢\nTocca a: Ada\nCarte sul tavolo:\n"
    );
}

#[test]
fn briscola_status_lists_the_table() {
    let mut game = briscola_for(&["Ada", "Bea"]);
    game.start();
    game.handle_move(&player(1, "Ada"), (CardType::King, CardSuit::Spade));
    assert_eq!(
        game.get_status(),
        "Partita di Briscola\nPunteggi:\nBea: 0 punti\nAda: 0 punti\nBriscola è: 🥢\nTocca a: Bea\nCarte sul tavolo:\n- 🤴 di 🗡  (Ada)"
    );
}

#[test]
fn briscola_start_twice_is_refused() {
    let mut game = briscola_for(&["Ada", "Bea"]);
    game.start();
    let before = game.get_status();
    match game.start() {
        GameStatus::InvalidMove(reason) => {
            assert_eq!(reason, "Il gioco è già iniziato, non puoi farlo reiniziare!")
        },
        other => panic!("unexpected {:?}", other),
    }
    assert_eq!(game.get_status(), before);
    let ada = player(1, "Ada");
    assert!(game.accepts_move(&ada, &(CardType::King, CardSuit::Spade)));
    assert!(!game.accepts_move(&ada, &(CardType::Numeric(6), CardSuit::Spade)));
}

#[test]
fn briscola_turns_latecomers_away() {
    let mut game = briscola_for(&["Ada", "Bea"]);
    game.start();
    assert_eq!(
        game.add_player(player(3, "Cid")).err(),
        Some("Non è possibile aggiungersi ad una partita già cominciata!")
    );
    assert_eq!(game.get_players().len(), 2);
}

#[test]
fn briscola_is_full_with_four() {
    let mut game = briscola_for(&["Ada", "Bea", "Cid"]);
    match game.add_player(player(4, "Dan")) {
        Ok(GameStatus::WaitingForPlayers(ready, p)) => {
            assert!(ready);
            assert_eq!(p, player(4, "Dan"));
        },
        other => panic!("unexpected {:?}", other),
    }
    assert_eq!(game.add_player(player(5, "Eve")).err(), Some("Il gioco è pieno"));
    assert_eq!(game.get_players().len(), 4);
}

#[test]
fn briscola_is_ready_with_two() {
    let mut game = Briscola::default();
    game.init();
    assert!(matches!(
        game.add_player(player(1, "Ada")),
        Ok(GameStatus::WaitingForPlayers(false, _))
    ));
    assert!(matches!(
        game.add_player(player(2, "Bea")),
        Ok(GameStatus::WaitingForPlayers(true, _))
    ));
    assert_eq!(game.get_next_player(), Some(player(1, "Ada")));
}

#[test]
fn briscola_without_a_deck_takes_nobody() {
    let mut game = Briscola::default();
    assert!(game.add_player(player(1, "Ada")).is_err());
    assert!(!game.is_startable());
    assert_eq!(game.get_next_player(), None);
    let told = game.handle_move(&player(1, "Ada"), (CardType::King, CardSuit::Spade));
    assert_eq!(told.len(), 1);
    assert!(matches!(told[0], GameStatus::InvalidMove("La partita non è ancora iniziata")));
}

#[test]
fn briscola_out_of_turn_changes_nothing() {
    let mut game = briscola_for(&["Ada", "Bea", "Cid", "Dan"]);
    game.start();
    let before = game.get_status();
    let cid = player(3, "Cid");
    let card = (CardType::Numeric(4), CardSuit::Spade);
    assert!(game.accepts_move(&cid, &card));
    let told = game.handle_move(&cid, card);
    assert_eq!(told.len(), 1);
    assert!(matches!(told[0], GameStatus::InvalidMove("Non è ancora il tuo turno!")));
    assert_eq!(game.get_status(), before);
    assert_eq!(game.get_next_player(), Some(player(1, "Ada")));
}

#[test]
fn briscola_of_three_drops_a_two_and_splits_the_teams() {
    let mut game = briscola_for(&["Ada", "Bea", "Cid"]);
    match game.start() {
        GameStatus::WaitingForChoice(p, hand) => {
            assert_eq!(p, player(1, "Ada"));
            assert_eq!(hand.len(), 3);
        },
        other => panic!("unexpected {:?}", other),
    }
    let scores = game.get_scores();
    assert_eq!(scores.len(), 3);
    assert_eq!(scores[0].0, vec![player(2, "Bea")]);
    assert_eq!(scores[1].0, vec![player(1, "Ada")]);
    assert_eq!(scores[2].0, vec![player(3, "Cid")]);
    // The two of Bastoni has left the bottom of the deck: the ace below
    // it still shows the trump.
    assert!(game.get_status().contains("Briscola è: 🥢"));
}

#[test]
fn briscola_plays_to_the_end() {
    let mut game = briscola_for(&["Ada", "Bea"]);
    let mut prompt = game.start();
    let mut ended = false;
    let mut moves = 0;
    let mut led: Option<CardSuit> = None;
    while !ended {
        let (who, hand) = match &prompt {
            GameStatus::WaitingForChoice(p, hand) => (p.clone(), hand.clone()),
            other => panic!("unexpected {:?}", other),
        };
        assert!(!hand.is_empty());
        let card = match led {
            Some(suit) => *hand.iter().find(|c| c.1 == suit).unwrap_or(&hand[0]),
            None => hand[0],
        };
        led = match led {
            Some(_) => None,
            None => Some(card.1),
        };
        assert!(game.accepts_move(&who, &card));
        let told = game.handle_move(&who, card);
        assert!(!told.iter().any(|s| matches!(s, GameStatus::InvalidMove(_))));
        moves += 1;
        ended = told.iter().any(|s| matches!(s, GameStatus::GameEnded));
        prompt = told
            .into_iter()
            .find(|s| matches!(s, GameStatus::WaitingForChoice(_, _)))
            .unwrap();
    }
    assert_eq!(moves, 40);
    let scores = game.get_scores();
    let total: u32 = scores.iter().map(|s| s.1.numer as u32).sum();
    assert_eq!(total, 120);
    assert!(scores.iter().all(|s| s.1.denom == 1));
}

/// The ordered deck with the three cards that the second player is dealt
/// swapped for the first `swapped` cards of the deck.
fn deck_for_second_hand(swapped: usize) -> Vec<Card> {
    let mut order: Vec<u8> = (0..40).collect();
    for i in 0..swapped {
        order.swap(i, 34 + i);
    }
    deck_from_order(CardDeckType::Briscola, &order)
}

#[test]
fn briscola_the_led_suit_must_be_followed() {
    let mut game = Briscola::default();
    game.init_with_deck(deck_for_second_hand(1));
    let ada = player(1, "Ada");
    let bea = player(2, "Bea");
    game.add_player(ada.clone()).unwrap();
    game.add_player(bea.clone()).unwrap();
    game.start();
    let hand = vec![
        (CardType::Numeric(7), CardSuit::Spade),
        (CardType::Numeric(6), CardSuit::Spade),
        (CardType::Numeric(1), CardSuit::Bastoni),
    ];
    let told = game.handle_move(&ada, (CardType::King, CardSuit::Spade));
    assert!(matches!(&told[0], GameStatus::WaitingForChoice(p, h) if *p == bea && *h == hand));
    let before = game.get_status();
    let ace = (CardType::Numeric(1), CardSuit::Bastoni);
    assert!(game.accepts_move(&bea, &ace));
    let told = game.handle_move(&bea, ace);
    assert_eq!(told.len(), 2);
    assert!(matches!(
        told[0],
        GameStatus::InvalidMove("Devi giocare una carta dello stesso seme della prima!")
    ));
    assert!(matches!(&told[1], GameStatus::WaitingForChoice(p, h) if *p == bea && *h == hand));
    assert_eq!(game.get_status(), before);
    assert_eq!(game.get_next_player(), Some(bea.clone()));
    // A card that is not held is not even looked at when the suit is wrong.
    assert!(game.accepts_move(&bea, &(CardType::King, CardSuit::Coppe)));
    assert!(!game.accepts_move(&bea, &(CardType::Numeric(2), CardSuit::Spade)));
    let six = (CardType::Numeric(6), CardSuit::Spade);
    assert!(game.accepts_move(&bea, &six));
    let told = game.handle_move(&bea, six);
    assert_eq!(told.len(), 3);
    assert!(matches!(&told[0], GameStatus::CardPlayed(p, c) if *p == bea && *c == six));
    assert!(matches!(&told[2], GameStatus::RoundWon(p) if *p == ada));
}

#[test]
fn briscola_a_player_without_the_led_suit_plays_anything() {
    let mut game = Briscola::default();
    game.init_with_deck(deck_for_second_hand(3));
    let ada = player(1, "Ada");
    let bea = player(2, "Bea");
    game.add_player(ada.clone()).unwrap();
    game.add_player(bea.clone()).unwrap();
    game.start();
    let told = game.handle_move(&ada, (CardType::Jack, CardSuit::Spade));
    match &told[0] {
        GameStatus::WaitingForChoice(p, hand) => {
            assert_eq!(*p, bea);
            assert!(hand.iter().all(|c| c.1 == CardSuit::Bastoni));
        },
        other => panic!("unexpected {:?}", other),
    }
    let three = (CardType::Numeric(3), CardSuit::Bastoni);
    assert!(game.accepts_move(&bea, &three));
    let told = game.handle_move(&bea, three);
    assert_eq!(told.len(), 3);
    assert!(matches!(&told[0], GameStatus::CardPlayed(p, c) if *p == bea && *c == three));
    assert!(matches!(&told[2], GameStatus::RoundWon(p) if *p == ada));
    // The jack and the three: twelve points for Ada.
    assert_eq!(game.get_scores()[1].1, Score { numer: 12, denom: 1 });
}

#[test]
fn beccaccino_takes_four_players() {
    let mut game = Beccaccino::default();
    for (i, name) in ["Ada", "Bea", "Cid"].iter().enumerate() {
        assert!(matches!(
            game.add_player(player(i as i64 + 1, name)),
            Ok(GameStatus::WaitingForPlayers(false, _))
        ));
        assert!(!game.is_startable());
        assert!(!game.is_reportable());
    }
    assert!(matches!(
        game.add_player(player(4, "Dan")),
        Ok(GameStatus::WaitingForPlayers(true, _))
    ));
    assert_eq!(game.add_player(player(5, "Eve")).err(), Some("La partita è al completo"));
    assert!(game.is_startable());
    assert!(game.is_reportable());
    assert_eq!(game.get_players().len(), 4);
    assert_eq!(game.get_next_player(), None);
}

#[test]
fn beccaccino_asks_the_holder_of_the_four_of_denari() {
    let mut game = Beccaccino::default();
    for (i, name) in ["Ada", "Bea", "Cid", "Dan"].iter().enumerate() {
        game.add_player(player(i as i64 + 1, name)).unwrap();
    }
    match game.start_with_deck(ordered_deck()) {
        GameStatus::WaitingForChoiceCustomMessage(p, hand, prompt) => {
            assert_eq!(p, player(3, "Cid"));
            assert_eq!(hand, ordered_deck()[20..30].to_vec());
            assert_eq!(prompt, "Scegli quale sarà il seme seme di briscola");
        },
        other => panic!("unexpected {:?}", other),
    }
    assert_eq!(game.get_choosing_player(), 2);
    assert_eq!(game.get_next_player(), Some(player(3, "Cid")));
}

#[test]
fn beccaccino_random_start_deals_ten_cards_each() {
    let mut game = Beccaccino::default();
    for (i, name) in ["Ada", "Bea", "Cid", "Dan"].iter().enumerate() {
        game.add_player(player(i as i64 + 1, name)).unwrap();
    }
    match game.start() {
        GameStatus::WaitingForChoiceCustomMessage(p, hand, _) => {
            assert_eq!(hand.len(), 10);
            assert!(hand.contains(&(CardType::Numeric(4), CardSuit::Denari)));
            assert_eq!(game.get_next_player(), Some(p));
        },
        other => panic!("unexpected {:?}", other),
    }
}

#[test]
fn beccaccino_start_twice_is_refused() {
    let mut game = beccaccino_with(ordered_deck());
    let before = game.get_status();
    assert!(game.is_startable());
    match game.start() {
        GameStatus::InvalidMove(reason) => {
            assert_eq!(reason, "Il gioco è già iniziato, non puoi farlo reiniziare!")
        },
        other => panic!("unexpected {:?}", other),
    }
    assert_eq!(game.get_status(), before);
    assert_eq!(game.add_player(player(9, "Zoe")).err(), Some("La partita è al completo"));
}

#[test]
fn beccaccino_only_the_chooser_names_the_trump() {
    let mut game = beccaccino_with(ordered_deck());
    let before = game.get_status();
    assert!(before.contains("Briscola è: non ancora scelta"));
    let ada = player(1, "Ada");
    let card = (CardType::Numeric(1), CardSuit::Bastoni);
    assert!(game.accepts_move(&ada, &card));
    let told = game.handle_move(&ada, card);
    assert_eq!(told.len(), 1);
    assert!(matches!(told[0], GameStatus::InvalidMove("Non tocca a te scegliere la briscola!")));
    assert_eq!(game.get_status(), before);
    let cid = player(3, "Cid");
    let told = game.handle_move(&cid, (CardType::Numeric(1), CardSuit::Coppe));
    assert_eq!(told.len(), 1);
    match &told[0] {
        GameStatus::WaitingForChoice(p, hand) => {
            assert_eq!(*p, cid);
            assert_eq!(*hand, ordered_deck()[20..30].to_vec());
        },
        other => panic!("unexpected {:?}", other),
    }
    assert!(game.get_status().contains("Briscola è: 🏆"));
}

#[test]
fn beccaccino_out_of_turn_changes_nothing() {
    let mut game = beccaccino_with(ordered_deck());
    let cid = player(3, "Cid");
    game.handle_move(&cid, (CardType::Numeric(1), CardSuit::Denari));
    let before = game.get_status();
    let bea = player(2, "Bea");
    let card = (CardType::Numeric(1), CardSuit::Coppe);
    assert!(game.accepts_move(&bea, &card));
    let told = game.handle_move(&bea, card);
    assert_eq!(told.len(), 1);
    assert!(matches!(told[0], GameStatus::InvalidMove("Non è ancora il tuo turno!")));
    assert_eq!(game.get_status(), before);
    assert_eq!(game.get_next_player(), Some(cid));
}

#[test]
fn beccaccino_the_led_suit_must_be_followed() {
    let mut game = beccaccino_with(mixed_deck());
    let cid = player(3, "Cid");
    let dan = player(4, "Dan");
    let two = (CardType::Numeric(2), CardSuit::Denari);
    game.handle_move(&cid, two);
    let told = game.handle_move(&cid, two);
    assert_eq!(told.len(), 2);
    match &told[0] {
        GameStatus::WaitingForChoice(p, hand) => {
            assert_eq!(*p, dan);
            assert_eq!(hand.len(), 10);
            assert_eq!(hand[0], (CardType::Numeric(1), CardSuit::Denari));
        },
        other => panic!("unexpected {:?}", other),
    }
    assert!(matches!(&told[1], GameStatus::NotifyUser(p, _) if *p == dan));
    let before = game.get_status();
    let spade = (CardType::Numeric(2), CardSuit::Spade);
    assert!(game.accepts_move(&dan, &spade));
    let told = game.handle_move(&dan, spade);
    assert_eq!(told.len(), 2);
    assert!(matches!(
        told[0],
        GameStatus::InvalidMove("Devi giocare una carta dello stesso seme della prima!")
    ));
    match &told[1] {
        GameStatus::WaitingForChoice(p, hand) => {
            assert_eq!(*p, dan);
            assert_eq!(*hand, mixed_deck()[30..40].to_vec());
        },
        other => panic!("unexpected {:?}", other),
    }
    assert_eq!(game.get_status(), before);
    // The ace of Denari follows suit and is taken.
    let ace = (CardType::Numeric(1), CardSuit::Denari);
    assert!(game.accepts_move(&dan, &ace));
    let told = game.handle_move(&dan, ace);
    assert!(matches!(&told[0], GameStatus::WaitingForChoice(p, hand) if *p == player(1, "Ada") && hand.len() == 10));
    assert!(game.get_status().contains("- Asso di 💰 (Dan)"));
}

#[test]
fn beccaccino_a_player_without_the_led_suit_plays_anything() {
    let mut game = beccaccino_with(ordered_deck());
    let cid = player(3, "Cid");
    let dan = player(4, "Dan");
    let lead = (CardType::Numeric(1), CardSuit::Denari);
    game.handle_move(&cid, lead);
    game.handle_move(&cid, lead);
    let spade = (CardType::King, CardSuit::Spade);
    assert!(game.accepts_move(&dan, &spade));
    let told = game.handle_move(&dan, spade);
    assert!(matches!(&told[0], GameStatus::WaitingForChoice(p, _) if *p == player(1, "Ada")));
    let status = game.get_status();
    assert!(status.contains("- Asso di 💰 (Cid)\n- 🤴 di 🗡  (Dan)"));
}

#[test]
fn beccaccino_a_card_that_is_not_held_is_not_accepted() {
    let mut game = beccaccino_with(ordered_deck());
    let cid = player(3, "Cid");
    game.handle_move(&cid, (CardType::Numeric(1), CardSuit::Denari));
    assert!(!game.accepts_move(&cid, &(CardType::Numeric(1), CardSuit::Spade)));
    assert!(game.accepts_move(&cid, &(CardType::Numeric(1), CardSuit::Denari)));
    let fresh = Beccaccino::default();
    assert!(!fresh.accepts_move(&cid, &(CardType::Numeric(1), CardSuit::Denari)));
}

#[test]
fn beccaccino_a_trick_goes_to_the_winners_team() {
    let mut game = beccaccino_with(ordered_deck());
    let players: Vec<Player> = game.get_players();
    let cid = players[2].clone();
    // Cid names Denari and leads the three; nobody else holds Denari.
    game.handle_move(&cid, (CardType::Numeric(1), CardSuit::Denari));
    game.handle_move(&cid, (CardType::Numeric(3), CardSuit::Denari));
    game.handle_move(&players[3], (CardType::Numeric(1), CardSuit::Spade));
    game.handle_move(&players[0], (CardType::Numeric(1), CardSuit::Bastoni));
    let told = game.handle_move(&players[1], (CardType::Numeric(1), CardSuit::Coppe));
    assert_eq!(told.len(), 2);
    assert!(matches!(&told[0], GameStatus::WaitingForChoice(p, hand) if *p == cid && hand.len() == 9));
    assert_eq!(game.get_next_player(), Some(cid.clone()));
    let scores = game.get_scores();
    assert_eq!(scores[0].0, vec![players[0].clone(), players[2].clone()]);
    assert_eq!(scores[1].0, vec![players[1].clone(), players[3].clone()]);
    // Three aces and the three: ten thirds of a point.
    assert_eq!(scores[0].1, Score { numer: 10, denom: 3 });
    assert_eq!(scores[1].1, Score { numer: 0, denom: 1 });
    let status = game.get_status();
    assert!(status.starts_with(
        "Partita di Beccaccino\nPunteggi:\nAda, Cid: 10/3 punti\nBea, Dan: 0 punti\nBriscola è: 💰\nTocca a: Cid\n"
    ));
}

#[test]
fn beccaccino_plays_to_the_end() {
    let mut game = beccaccino_with(ordered_deck());
    let players = game.get_players();
    let deck = ordered_deck();
    game.handle_move(&players[2], (CardType::Numeric(1), CardSuit::Denari));
    let mut hands: Vec<Vec<Card>> = (0..4).map(|i| deck[i * 10..i * 10 + 10].to_vec()).collect();
    let mut last = Vec::new();
    for _ in 0..40 {
        let who = game.get_next_player().unwrap();
        let seat = players.iter().position(|p| *p == who).unwrap();
        let card = hands[seat].remove(0);
        assert!(game.accepts_move(&who, &card));
        last = game.handle_move(&who, card);
    }
    assert_eq!(last.len(), 3);
    assert!(matches!(&last[0], GameStatus::RoundWon(_)));
    assert!(matches!(&last[1], GameStatus::GameEnded));
    assert!(matches!(&last[2], GameStatus::NotifyRoom(_)));
    let scores = game.get_scores();
    // All cards are worth 32 thirds; the last trick is worth one point.
    let thirds: u32 = scores.iter().map(|s| s.1.numer as u32 * (3 / s.1.denom as u32)).sum();
    assert_eq!(thirds, 35);
}

#[test]
fn beccaccino_hears_three_words() {
    let game = Beccaccino::default();
    let ada = player(1, "Ada");
    let told = game.handle_message("BuSsO!!".to_string(), ada.clone());
    assert!(matches!(&told[0], GameStatus::NotifyRoom(text) if text == "Ada ha detto: Busso"));
    let told = game.handle_message("s t r i s c i o".to_string(), ada.clone());
    assert!(matches!(&told[0], GameStatus::NotifyRoom(text) if text == "Ada ha detto: Striscio"));
    let told = game.handle_message("Volo 3".to_string(), ada.clone());
    assert!(matches!(&told[0], GameStatus::NotifyRoom(text) if text == "Ada ha detto: Volo"));
    let told = game.handle_message("ciao".to_string(), ada.clone());
    assert_eq!(told.len(), 1);
    assert!(matches!(
        &told[0],
        GameStatus::NotifyUser(p, text) if *p == ada && text == "Puoi dire solo busso, striscio o volo."
    ));
}

#[test]
fn briscola_passes_every_text_on() {
    let game = Briscola::default();
    let told = game.handle_message("ciao a tutti".to_string(), player(1, "Ada"));
    assert_eq!(told.len(), 1);
    assert!(matches!(&told[0], GameStatus::NotifyRoom(text) if text == "Ada ha detto: ciao a tutti"));
}

#[test]
fn games_know_their_names_and_decks() {
    let briscola = Briscola::default();
    assert_eq!(briscola.get_name(), "Briscola");
    assert_eq!(briscola.get_card_set(), CardDeckType::Briscola);
    assert_eq!(briscola.get_num_players(), 2..4);
    let beccaccino = Beccaccino::default();
    assert_eq!(beccaccino.get_name(), "Beccaccino");
    assert_eq!(beccaccino.get_card_set(), CardDeckType::Briscola);
    assert_eq!(beccaccino.get_num_players(), 4..4);
    let fresh = beccaccino.get_new_instance();
    assert_eq!(fresh.get_players().len(), 0);
}

#[test]
fn scala40_is_a_placeholder() {
    let mut game = Scala40::default();
    game.init();
    assert_eq!(game.get_name(), "Scala 40");
    assert_eq!(game.get_card_set(), CardDeckType::Poker);
    assert_eq!(game.get_num_players(), 2..6);
    assert!(!game.game_has_been_won());
    assert!(!game.is_card_stackable(player(1, "Ada"), (CardType::Jolly, CardSuit::Bastoni)));
    assert_eq!(Scala40::get_card_sorting_rank(&CardType::Numeric(7)), 7);
    assert_eq!(Scala40::get_card_sorting_rank(&CardType::King), 10);
    assert_eq!(Scala40::get_card_sorting_rank(&CardType::Jolly), 0);
    assert_eq!(Scala40::get_card_rank(&CardType::Queen), Score { numer: 10, denom: 1 });
    assert!(matches!(
        game.add_player(player(1, "Ada")),
        Ok(GameStatus::WaitingForPlayers(false, _))
    ));
    assert!(matches!(
        game.add_player(player(2, "Bea")),
        Ok(GameStatus::WaitingForPlayers(true, _))
    ));
    for id in 3..7 {
        assert!(game.add_player(player(id, "x")).is_ok());
    }
    assert_eq!(game.add_player(player(7, "Gil")).err(), Some("The game is full"));
    let told = game.handle_message("ciao".to_string(), player(1, "Ada"));
    assert!(matches!(&told[0], GameStatus::NotifyRoom(text) if text == "Ada ha detto: ciao"));
    assert!(!GameKind::Scala40.is_playable());
    assert_eq!(playable_games(), vec![GameKind::Briscola, GameKind::Beccaccino]);
}

#[test]
fn beccaccino_announces_the_three_calls() {
    let ada = player(1, "Ada");
    let told = announce("busso", ada.clone());
    assert!(matches!(&told[0], GameStatus::NotifyRoom(text) if text == "Ada ha detto: Busso"));
    let told = announce("striscio", ada.clone());
    assert!(matches!(&told[0], GameStatus::NotifyRoom(text) if text == "Ada ha detto: Striscio"));
    let told = announce("volo", ada.clone());
    assert!(matches!(&told[0], GameStatus::NotifyRoom(text) if text == "Ada ha detto: Volo"));
    let told = announce("Busso", ada.clone());
    assert!(matches!(&told[0], GameStatus::NotifyUser(p, _) if *p == ada));
    let told = announce("", ada.clone());
    assert!(matches!(&told[0], GameStatus::NotifyUser(p, _) if *p == ada));
}

#[test]
fn summaries_are_put_together() {
    let names = vec!["Ada".to_string(), "Cid".to_string()];
    assert_eq!(write_score_line(&names, "10/3"), "Ada, Cid: 10/3 punti");
    assert_eq!(write_score_line(&Vec::new(), "0"), ": 0 punti");
    let lines = vec!["Ada, Cid: 10/3 punti".to_string(), "Bea, Dan: 0 punti".to_string()];
    let table = vec![
        (player(3, "Cid"), (CardType::Numeric(3), CardSuit::Denari)),
        (player(4, "Dan"), (CardType::King, CardSuit::Spade)),
    ];
    assert_eq!(
        summary("Beccaccino", &lines, "💰", "Ada", &table),
        "Partita di Beccaccino\nPunteggi:\nAda, Cid: 10/3 punti\nBea, Dan: 0 punti\nBriscola è: 💰\nTocca a: Ada\nCarte sul tavolo:\n- 3 di 💰 (Cid)\n- 🤴 di 🗡  (Dan)"
    );
    assert_eq!(
        summary("Briscola", &Vec::new(), "🏆", "", &Vec::new()),
        "Partita di Briscola\nPunteggi:\n\nBriscola è: 🏆\nTocca a: \nCarte sul tavolo:\n"
    );
}

#[test]
fn only_a_game_that_has_not_begun_takes_a_deck() {
    let mut game = briscola_for(&["Ada", "Bea"]);
    assert!(game.is_initialisable());
    game.start();
    assert!(!game.is_initialisable());
    assert!(Beccaccino::default().is_initialisable());
}

#[test]
fn beccaccino_the_winner_of_a_trick_leads_the_next() {
    let mut game = beccaccino_with(mixed_deck());
    let players = game.get_players();
    let (ada, bea, cid, dan) =
        (players[0].clone(), players[1].clone(), players[2].clone(), players[3].clone());
    // Cid names Spade and leads the four of Denari; Dan has to follow with
    // the ace and takes the trick, though Cid sits next to the last player.
    game.handle_move(&cid, (CardType::Numeric(1), CardSuit::Spade));
    game.handle_move(&cid, (CardType::Numeric(4), CardSuit::Denari));
    game.handle_move(&dan, (CardType::Numeric(1), CardSuit::Denari));
    game.handle_move(&ada, (CardType::Numeric(1), CardSuit::Bastoni));
    let told = game.handle_move(&bea, (CardType::Numeric(1), CardSuit::Coppe));
    assert_eq!(told.len(), 2);
    assert!(matches!(&told[0], GameStatus::WaitingForChoice(p, hand) if *p == dan && hand.len() == 9));
    assert!(matches!(&told[1], GameStatus::NotifyUser(p, _) if *p == dan));
    assert_eq!(game.get_next_player(), Some(dan.clone()));
    let scores = game.get_scores();
    assert_eq!(scores[0].1, Score { numer: 0, denom: 1 });
    assert_eq!(scores[1].1, Score { numer: 3, denom: 1 });
    assert!(game.get_status().contains("Ada, Cid: 0 punti\nBea, Dan: 3 punti\n"));
    let refused = game.handle_move(&cid, (CardType::Numeric(2), CardSuit::Denari));
    assert!(matches!(refused[0], GameStatus::InvalidMove("Non è ancora il tuo turno!")));
}
