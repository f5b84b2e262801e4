use cardgames::bot::{get_dead_games, Action, Event, Probe, Registry, MAX_GAME_DURATION, WARNING_AFTER};
use cardgames::game_agent::{Agent, Delivery, Outcome, Phase};
use cardgames::games::beccaccino::Beccaccino;
use cardgames::games::briscola::Briscola;
use cardgames::primitives::{CardSuit, CardType, GameStatus, Player};
use cardgames::threading::ThreadMessage;
use cardgames::token::move_token;

fn user(id: i64, name: &str) -> Player {
    Player { id, name: name.to_string() }
}

fn reply_texts(actions: &[Action]) -> Vec<(i64, String)> {
    actions
        .iter()
        .filter_map(|a| match a {
            Action::Reply(m) => Some((m.chat_id, m.text.clone())),
            _ => None,
        })
        .collect()
}

fn open_session(registry: &mut Registry, token: &str, who: &Player, now: u64) {
    let actions = registry.init_game_as(token.to_string(), 0, who.clone(), now, "bot");
    assert_eq!(actions.len(), 2);
}

fn by_recipient(deliveries: &[Delivery]) -> Vec<(i64, String, Option<i64>, bool)> {
    deliveries
        .iter()
        .map(|d| (d.message.chat_id, d.message.text.clone(), d.replaces, d.recorded))
        .collect()
}

#[test]
fn opening_a_session_registers_it() {
    let mut registry = Registry::new();
    let ada = user(1, "Ada");
    let actions = registry.init_game_as("S1".to_string(), 1, ada.clone(), 100, "cardbot");
    assert_eq!(actions.len(), 2);
    match &actions[0] {
        Action::Open(token, game, ThreadMessage::AddPlayer(p)) => {
            assert_eq!(token, "S1");
            assert_eq!(*game, 1);
            assert_eq!(*p, ada);
        },
        other => panic!("unexpected {:?}", other),
    }
    assert_eq!(
        reply_texts(&actions),
        vec![(
            1,
            "Per invitare altre persone condividi questo link: https://t.me/cardbot?start=S1"
                .to_string()
        )]
    );
    assert!(registry.is_open("S1"));
    assert_eq!(registry.session_of(1), Some("S1".to_string()));
    assert_eq!(registry.last_played("S1"), Some(100));
    assert_eq!(registry.session_ids(), vec!["S1".to_string()]);
}

#[test]
fn a_game_off_the_menu_opens_nothing() {
    let mut registry = Registry::new();
    assert!(registry.init_game_as("S1".to_string(), 2, user(1, "Ada"), 0, "bot").is_empty());
    assert!(!registry.is_open("S1"));
    assert_eq!(registry.session_of(1), None);
}

#[test]
fn new_sessions_get_new_tokens() {
    let mut registry = Registry::new();
    registry.init_game(0, user(1, "Ada"), 0, "bot");
    registry.init_game(0, user(2, "Bea"), 0, "bot");
    let ids = registry.session_ids();
    assert_eq!(ids.len(), 2);
    assert_ne!(ids[0], ids[1]);
    assert_eq!(ids[0].len(), 26);
    assert_eq!(registry.session_of(2), Some(ids[1].clone()));
}

#[test]
fn a_player_is_in_one_session_at_most() {
    let mut registry = Registry::new();
    let ada = user(1, "Ada");
    let bea = user(2, "Bea");
    open_session(&mut registry, "S1", &ada, 0);
    open_session(&mut registry, "S2", &bea, 0);
    let actions = registry.add_player_to_game("S2".to_string(), ada.clone());
    assert_eq!(
        reply_texts(&actions),
        vec![
            (1, "Provo ad aggiungerti alla partita...".to_string()),
            (1, "Non puoi unirti a più partite contemporaneamente".to_string()),
        ]
    );
    assert_eq!(registry.session_of(1), Some("S1".to_string()));
    // Opening another session moves the player there.
    open_session(&mut registry, "S3", &ada, 5);
    assert_eq!(registry.session_of(1), Some("S3".to_string()));
    assert!(registry.is_open("S1"));
}

#[test]
fn joining_goes_by_the_token() {
    let mut registry = Registry::new();
    open_session(&mut registry, "S1", &user(1, "Ada"), 0);
    let bea = user(2, "Bea");
    let actions = registry.add_player_to_game("S1".to_string(), bea.clone());
    assert_eq!(actions.len(), 2);
    assert!(matches!(
        &actions[1],
        Action::Forward(token, ThreadMessage::AddPlayer(p)) if token == "S1" && *p == bea
    ));
    assert_eq!(registry.session_of(2), Some("S1".to_string()));
    let cid = user(3, "Cid");
    let actions = registry.add_player_to_game("nowhere".to_string(), cid);
    assert_eq!(
        reply_texts(&actions),
        vec![
            (3, "Provo ad aggiungerti alla partita...".to_string()),
            (3, "Gioco non trovato!".to_string()),
        ]
    );
    assert_eq!(registry.session_of(3), None);
}

#[test]
fn texts_are_understood() {
    let mut registry = Registry::new();
    let ada = user(1, "Ada");
    let menu = registry.handle_update(Event::Text(ada.clone(), "/start".to_string()), 0, "bot", "v1");
    assert_eq!(menu.len(), 1);
    match &menu[0] {
        Action::Reply(m) => {
            assert_eq!(m.text, "Ciao! A che gioco vuoi giocare?");
            assert_eq!(m.keyboard.as_ref().unwrap().len(), 2);
        },
        other => panic!("unexpected {:?}", other),
    }
    let version =
        registry.handle_update(Event::Text(ada.clone(), "/commit".to_string()), 0, "bot", "v1");
    assert_eq!(reply_texts(&version), vec![(1, "This instance is running on v1".to_string())]);
    let nothing =
        registry.handle_update(Event::Text(ada.clone(), "busso".to_string()), 0, "bot", "v1");
    assert!(nothing.is_empty());
    open_session(&mut registry, "S1", &ada, 0);
    let talk = registry.handle_update(Event::Text(ada.clone(), "busso".to_string()), 9, "bot", "v1");
    assert_eq!(talk.len(), 1);
    assert!(matches!(
        &talk[0],
        Action::Forward(token, ThreadMessage::HandleStringMessage(p, text))
            if token == "S1" && *p == ada && text == "busso"
    ));
    assert_eq!(registry.last_played("S1"), Some(0));
    let join = registry.handle_update(
        Event::Text(user(2, "Bea"), "/start S1".to_string()),
        0,
        "bot",
        "v1",
    );
    assert!(matches!(&join[1], Action::Forward(token, ThreadMessage::AddPlayer(_)) if token == "S1"));
}

#[test]
fn buttons_are_understood() {
    let mut registry = Registry::new();
    let ada = user(1, "Ada");
    let lost = registry.handle_callback_query_as(ada.clone(), "start", "T".to_string(), 0, "bot");
    assert_eq!(reply_texts(&lost), vec![(1, "Gioco non trovato".to_string())]);
    let opened =
        registry.handle_callback_query_as(ada.clone(), "init_game:0", "T".to_string(), 10, "bot");
    assert!(matches!(&opened[0], Action::Open(token, 0, _) if token == "T"));
    let started = registry.handle_callback_query_as(ada.clone(), "start", "U".to_string(), 20, "bot");
    assert_eq!(started.len(), 1);
    assert!(matches!(&started[0], Action::Forward(token, ThreadMessage::Start) if token == "T"));
    assert_eq!(registry.last_played("T"), Some(20));
    let card = (CardType::King, CardSuit::Spade);
    let moved = registry.handle_callback_query_as(
        ada.clone(),
        &move_token(&card),
        "U".to_string(),
        30,
        "bot",
    );
    assert!(matches!(
        &moved[0],
        Action::Forward(token, ThreadMessage::HandleMove(p, c)) if token == "T" && *p == ada && *c == card
    ));
    assert_eq!(registry.last_played("T"), Some(30));
    assert!(!registry.is_open("U"));
    let unknown = registry.handle_update(Event::Button(ada.clone(), "dance".to_string()), 40, "bot", "v");
    assert!(unknown.is_empty());
    assert_eq!(registry.last_played("T"), Some(30));
    let lost = registry.try_handle_move(card, user(2, "Bea"), 50);
    assert_eq!(reply_texts(&lost), vec![(2, "Gioco non trovato".to_string())]);
    let lost = registry.try_start_game(2, 50);
    assert_eq!(reply_texts(&lost), vec![(2, "Gioco non trovato".to_string())]);
}

#[test]
fn idle_sessions_are_warned_and_then_stopped() {
    assert_eq!(MAX_GAME_DURATION, 600);
    assert_eq!(WARNING_AFTER, 540);
    let mut registry = Registry::new();
    let ada = user(1, "Ada");
    open_session(&mut registry, "S1", &ada, 1000);
    registry.add_player_to_game("S1".to_string(), user(2, "Bea"));
    open_session(&mut registry, "S2", &user(3, "Cid"), 1500);
    assert!(registry.handle_game_termination(1000).is_empty());
    assert!(registry.handle_game_termination(1540).is_empty());
    assert!(registry.handle_game_termination(900).is_empty());
    let warned = registry.handle_game_termination(1541);
    assert_eq!(warned.len(), 1);
    assert!(matches!(&warned[0], Action::Signal(token, ThreadMessage::AboutToKill) if token == "S1"));
    let still = registry.handle_game_termination(1600);
    assert_eq!(still.len(), 1);
    assert!(matches!(&still[0], Action::Signal(token, ThreadMessage::AboutToKill) if token == "S1"));
    let stopped = registry.handle_game_termination(1601);
    assert_eq!(stopped.len(), 1);
    assert!(matches!(&stopped[0], Action::Signal(token, ThreadMessage::Kill) if token == "S1"));
    let both = registry.handle_game_termination(2041);
    assert_eq!(both.len(), 2);
    assert!(matches!(&both[0], Action::Signal(token, ThreadMessage::Kill) if token == "S1"));
    assert!(matches!(&both[1], Action::Signal(token, ThreadMessage::AboutToKill) if token == "S2"));
    // The session is still in the books until its mailbox is found closed.
    assert!(registry.is_open("S1"));
    let dead = get_dead_games(&vec![
        ("S1".to_string(), Probe::Closed),
        ("S2".to_string(), Probe::Busy),
    ]);
    assert_eq!(dead, vec!["S1".to_string()]);
    registry.purge_dead_games(&dead);
    assert!(!registry.is_open("S1"));
    assert_eq!(registry.last_played("S1"), None);
    assert_eq!(registry.session_of(1), None);
    assert_eq!(registry.session_of(2), None);
    assert!(registry.is_open("S2"));
    assert_eq!(registry.session_of(3), Some("S2".to_string()));
    assert_eq!(registry.last_played("S2"), Some(1500));
    assert_eq!(registry.session_ids(), vec!["S2".to_string()]);
}

#[test]
fn only_a_closed_mailbox_is_dead() {
    let probes = vec![
        ("A".to_string(), Probe::Delivered),
        ("B".to_string(), Probe::Closed),
        ("C".to_string(), Probe::Busy),
        ("D".to_string(), Probe::Closed),
    ];
    assert_eq!(get_dead_games(&probes), vec!["B".to_string(), "D".to_string()]);
    assert!(get_dead_games(&Vec::new()).is_empty());
}

#[test]
fn a_session_warns_once_per_warning_and_goes_on() {
    let mut agent = Agent::new_agent(&Briscola::default());
    assert_eq!(agent.get_phase(), Phase::Idle);
    agent.handle(ThreadMessage::AddPlayer(user(1, "Ada")));
    agent.handle(ThreadMessage::AddPlayer(user(2, "Bea")));
    assert_eq!(agent.get_phase(), Phase::Active);
    let step = agent.handle(ThreadMessage::AboutToKill);
    assert_eq!(step.outcome, Outcome::Running);
    assert_eq!(agent.get_phase(), Phase::Warned);
    assert_eq!(step.statuses.len(), 1);
    assert!(matches!(
        &step.statuses[0],
        GameStatus::NotifyRoom(text) if text == "Questo gioco sarà terminato per inattività a breve!"
    ));
    assert_eq!(
        by_recipient(&step.deliveries),
        vec![
            (1, "Questo gioco sarà terminato per inattività a breve!".to_string(), None, true),
            (2, "Questo gioco sarà terminato per inattività a breve!".to_string(), None, true),
        ]
    );
    let probe = agent.handle(ThreadMessage::Ping);
    assert_eq!(probe.outcome, Outcome::Running);
    assert!(probe.deliveries.is_empty());
    assert_eq!(agent.get_phase(), Phase::Warned);
    let stop = agent.handle(ThreadMessage::Kill);
    assert_eq!(stop.outcome, Outcome::Finished);
    assert!(stop.deliveries.is_empty());
    assert_eq!(agent.get_phase(), Phase::Terminated);
    let after = agent.handle(ThreadMessage::Start);
    assert_eq!(after.outcome, Outcome::Finished);
    assert!(after.statuses.is_empty());
    assert!(after.deliveries.is_empty());
}

#[test]
fn a_session_tells_the_lobby_who_joined() {
    let mut agent = Agent::new_agent(&Briscola::default());
    let first = agent.handle(ThreadMessage::AddPlayer(user(1, "Ada")));
    assert_eq!(first.outcome, Outcome::Running);
    assert_eq!(
        by_recipient(&first.deliveries),
        vec![(1, "Ada si è unito alla partita".to_string(), None, true)]
    );
    assert!(first.deliveries[0].message.keyboard.is_none());
    agent.record(1, 500);
    let second = agent.handle(ThreadMessage::AddPlayer(user(2, "Bea")));
    assert_eq!(
        by_recipient(&second.deliveries),
        vec![
            (1, "Bea si è unito alla partita".to_string(), Some(500), true),
            (2, "Bea si è unito alla partita".to_string(), None, true),
        ]
    );
    let start = &second.deliveries[0].message.keyboard.as_ref().unwrap()[0][0];
    assert_eq!(start.id, "start");
    assert!(second.deliveries[1].message.keyboard.is_none());
    agent.record(1, 501);
    agent.record(2, 502);
    let third = agent.handle(ThreadMessage::AddPlayer(user(3, "Cid")));
    assert_eq!(
        by_recipient(&third.deliveries),
        vec![
            (1, "Cid si è unito alla partita".to_string(), Some(501), true),
            (3, "Cid si è unito alla partita".to_string(), None, true),
            (2, "Cid si è unito alla partita".to_string(), Some(502), true),
        ]
    );
    assert!(third.deliveries[0].message.keyboard.is_some());
    assert!(third.deliveries[1].message.keyboard.is_none());
    assert!(third.deliveries[2].message.keyboard.is_none());
    assert_eq!(agent.get_players().len(), 3);
}

#[test]
fn a_session_answers_a_refused_join_in_private() {
    let mut agent = Agent::new_agent(&Beccaccino::default());
    for id in 1..5 {
        agent.handle(ThreadMessage::AddPlayer(user(id, "x")));
    }
    let step = agent.handle(ThreadMessage::AddPlayer(user(5, "Eve")));
    assert_eq!(step.outcome, Outcome::Running);
    assert!(matches!(
        &step.statuses[0],
        GameStatus::NotifyUser(p, text) if *p == user(5, "Eve") && text == "La partita è al completo"
    ));
    assert_eq!(
        by_recipient(&step.deliveries),
        vec![(5, "La partita è al completo".to_string(), None, true)]
    );
}

#[test]
fn a_session_plays_briscola() {
    let mut agent = Agent::new_agent(&Briscola::default());
    let ada = user(1, "Ada");
    let bea = user(2, "Bea");
    agent.handle(ThreadMessage::AddPlayer(ada.clone()));
    agent.handle(ThreadMessage::AddPlayer(bea.clone()));
    let started = agent.handle(ThreadMessage::Start);
    assert_eq!(started.outcome, Outcome::Running);
    assert_eq!(started.statuses.len(), 2);
    let hand = match &started.statuses[0] {
        GameStatus::WaitingForChoice(p, hand) => {
            assert_eq!(*p, ada);
            hand.clone()
        },
        other => panic!("unexpected {:?}", other),
    };
    assert!(matches!(&started.statuses[1], GameStatus::NotifyRoom(_)));
    assert_eq!(started.deliveries.len(), 2);
    assert_eq!(started.deliveries[0].message.chat_id, 1);
    assert!(started.deliveries[0].message.text.starts_with("Scegli una carta:\nPartita di Briscola\n"));
    assert_eq!(started.deliveries[0].message.keyboard.as_ref().unwrap()[0].len(), 3);
    assert_eq!(started.deliveries[1].message.chat_id, 2);
    assert!(started.deliveries[1].message.keyboard.is_none());
    let again = agent.handle(ThreadMessage::Start);
    assert_eq!(again.outcome, Outcome::Running);
    assert!(matches!(&again.statuses[0], GameStatus::InvalidMove(_)));
    let wrong = agent.handle(ThreadMessage::HandleMove(bea.clone(), hand[0]));
    assert_eq!(wrong.outcome, Outcome::Running);
    assert_eq!(wrong.statuses.len(), 2);
    assert!(matches!(&wrong.statuses[0], GameStatus::InvalidMove("Non è ancora il tuo turno!")));
    let moved = agent.handle(ThreadMessage::HandleMove(ada.clone(), hand[0]));
    assert_eq!(moved.outcome, Outcome::Running);
    assert_eq!(moved.statuses.len(), 3);
    assert!(matches!(&moved.statuses[0], GameStatus::WaitingForChoice(p, _) if *p == bea));
    assert!(matches!(&moved.statuses[1], GameStatus::InProgress(p) if *p == bea));
    assert!(matches!(&moved.statuses[2], GameStatus::NotifyRoom(_)));
    assert_eq!(agent.get_phase(), Phase::Active);
}

#[test]
fn a_session_fails_on_a_card_that_is_not_held() {
    let mut agent = Agent::new_agent(&Briscola::default());
    let ada = user(1, "Ada");
    agent.handle(ThreadMessage::AddPlayer(ada.clone()));
    let step = agent.handle(ThreadMessage::HandleMove(ada.clone(), (CardType::Jolly, CardSuit::Bastoni)));
    assert_eq!(step.outcome, Outcome::Failed);
    assert!(step.deliveries.is_empty());
    assert_eq!(agent.get_phase(), Phase::Terminated);
    let mut empty = Agent::new_agent(&Beccaccino::default());
    assert_eq!(empty.handle(ThreadMessage::Start).outcome, Outcome::Failed);
    assert_eq!(empty.get_phase(), Phase::Terminated);
}

#[test]
fn a_session_ends_with_the_game() {
    let mut agent = Agent::new_agent(&Briscola::default());
    let players = vec![user(1, "Ada"), user(2, "Bea")];
    for p in &players {
        agent.handle(ThreadMessage::AddPlayer(p.clone()));
    }
    let mut step = agent.handle(ThreadMessage::Start);
    let mut moves = 0;
    let mut led = None;
    while step.outcome == Outcome::Running {
        let (who, hand) = step
            .statuses
            .iter()
            .find_map(|s| match s {
                GameStatus::WaitingForChoice(p, hand) => Some((p.clone(), hand.clone())),
                _ => None,
            })
            .unwrap();
        let card = match led {
            Some(suit) => *hand.iter().find(|c| c.1 == suit).unwrap_or(&hand[0]),
            None => hand[0],
        };
        led = match led {
            Some(_) => None,
            None => Some(card.1),
        };
        step = agent.handle(ThreadMessage::HandleMove(who, card));
        assert!(!step.statuses.iter().any(|s| matches!(s, GameStatus::InvalidMove(_))));
        moves += 1;
    }
    assert_eq!(moves, 40);
    assert_eq!(step.outcome, Outcome::Finished);
    assert_eq!(agent.get_phase(), Phase::Terminated);
    assert!(step.statuses.iter().any(|s| matches!(s, GameStatus::GameEnded)));
    assert_eq!(step.deliveries.len(), 2);
    assert!(step.deliveries.iter().all(|d| d.message.text.contains("La partita è finita!")));
}

#[test]
fn a_session_passes_talk_on_without_a_trace() {
    let mut agent = Agent::new_agent(&Beccaccino::default());
    let ada = user(1, "Ada");
    agent.handle(ThreadMessage::AddPlayer(ada.clone()));
    agent.handle(ThreadMessage::AddPlayer(user(2, "Bea")));
    agent.record(1, 77);
    let step = agent.handle(ThreadMessage::HandleStringMessage(ada.clone(), "Busso!".to_string()));
    assert_eq!(step.outcome, Outcome::Running);
    assert!(step.statuses.is_empty());
    assert_eq!(
        by_recipient(&step.deliveries),
        vec![
            (1, "Ada ha detto: Busso".to_string(), None, false),
            (2, "Ada ha detto: Busso".to_string(), None, false),
        ]
    );
    let step = agent.handle(ThreadMessage::HandleStringMessage(ada.clone(), "boh".to_string()));
    assert_eq!(
        by_recipient(&step.deliveries),
        vec![(1, "Puoi dire solo busso, striscio o volo.".to_string(), None, false)]
    );
}

#[test]
fn a_pressed_button_opens_a_session_under_a_new_token() {
    let mut registry = Registry::new();
    let ada = user(1, "Ada");
    let actions = registry.handle_callback_query(ada.clone(), "init_game:1", 3, "bot");
    assert_eq!(actions.len(), 2);
    let token = match &actions[0] {
        Action::Open(token, 1, ThreadMessage::AddPlayer(p)) => {
            assert_eq!(*p, ada);
            token.clone()
        },
        other => panic!("unexpected {:?}", other),
    };
    assert_eq!(registry.session_of(1), Some(token.clone()));
    assert_eq!(registry.last_played(&token), Some(3));
    let started = registry.handle_callback_query(ada, "start", 4, "bot");
    assert!(matches!(&started[0], Action::Forward(t, ThreadMessage::Start) if *t == token));
    assert_eq!(registry.session_ids(), vec![token]);
}

#[test]
fn a_session_asks_again_when_the_led_suit_is_not_followed() {
    let mut agent = Agent::new_agent(&Briscola::default());
    let ada = user(1, "Ada");
    let bea = user(2, "Bea");
    agent.handle(ThreadMessage::AddPlayer(ada.clone()));
    agent.handle(ThreadMessage::AddPlayer(bea.clone()));
    let mut step = agent.handle(ThreadMessage::Start);
    // Play until the second player of a trick holds the led suit and a
    // card of another suit.
    for _ in 0..40 {
        let (who, hand) = step
            .statuses
            .iter()
            .find_map(|s| match s {
                GameStatus::WaitingForChoice(p, hand) => Some((p.clone(), hand.clone())),
                _ => None,
            })
            .unwrap();
        step = agent.handle(ThreadMessage::HandleMove(who.clone(), hand[0]));
        if step.outcome != Outcome::Running {
            return;
        }
        let (next, held) = step
            .statuses
            .iter()
            .find_map(|s| match s {
                GameStatus::WaitingForChoice(p, hand) => Some((p.clone(), hand.clone())),
                _ => None,
            })
            .unwrap();
        assert_ne!(next, who);
        let led = hand[0].1;
        let follows = held.iter().find(|c| c.1 == led);
        let strays = held.iter().find(|c| c.1 != led);
        if let (Some(_), Some(stray)) = (follows, strays) {
            let refused = agent.handle(ThreadMessage::HandleMove(next.clone(), *stray));
            assert_eq!(refused.outcome, Outcome::Running);
            assert_eq!(refused.statuses.len(), 3);
            assert!(matches!(
                refused.statuses[0],
                GameStatus::InvalidMove("Devi giocare una carta dello stesso seme della prima!")
            ));
            assert!(matches!(
                &refused.statuses[1],
                GameStatus::WaitingForChoice(p, h) if *p == next && *h == held
            ));
            assert!(matches!(&refused.statuses[2], GameStatus::NotifyRoom(_)));
            return;
        }
        let card = *follows.unwrap_or(&held[0]);
        step = agent.handle(ThreadMessage::HandleMove(next, card));
        if step.outcome != Outcome::Running {
            return;
        }
    }
}
