//! Beccaccino: four players in two teams play ten tricks with the
//! regional deck. Whoever is dealt the four of Denari names the trump
//! before the first card is led, and every card after the lead has to
//! follow the led suit if its player can.

use crate::games::{
    cards_of, find_card, find_seat, has_suit, holds_suit, lemma_empty_piles, lemma_pile_arrangement,
    lemma_pile_concat, lemma_pile_push, lemma_pile_remove, lemma_piles_bound,
    lemma_piles_update, lemma_place_of, lemma_seat_of, lemma_trick_lead_in_range, pile_value,
    piles_value, piles_view, place_of, plays_of, report, report_text, seat_of,
    table_cards, take_from_pile, trick_winner, winning_play,
};
use crate::primitives::{
    copy_cards, copy_players, one_status, roster_view, standings_view, statuses_view, table_view,
    three_statuses, two_statuses, Card, CardDeckType, CardSuit, CardType, Game, GameStatus,
    Player, PlayerView, StatusView,
};
use crate::score::Score;
use crate::text::{letters, letters_of, lowercase, lowercased, same_text};
use crate::utils::{full_deck, is_shuffled_deck, random_deck, suit_string, suit_symbol};
use vstd::prelude::*;
use vstd::seq_lib::group_to_multiset_ensures;

verus! {

/// A game of Beccaccino.
#[derive(Debug)]
pub struct Beccaccino {
    players: Vec<Player>,
    in_hand: Vec<Vec<Card>>,
    briscola: Option<CardSuit>,
    table: Vec<(Player, Card)>,
    won_cards: Vec<(Vec<Card>, bool)>,
    next_player: Option<usize>,
}

/// Mathematical value of a game of [`Beccaccino`].
pub struct BeccaccinoView {
    /// The players, in the order in which they joined; seats `0` and `2`
    /// play against seats `1` and `3`.
    pub players: Seq<PlayerView>,
    /// The hand of each seat.
    pub in_hand: Seq<Seq<Card>>,
    /// The trump, once it has been named.
    pub briscola: Option<CardSuit>,
    /// The cards of the trick that is being played, with who played them.
    pub table: Seq<(PlayerView, Card)>,
    /// For each team the cards it has won, and whether it took the last
    /// trick.
    pub won_cards: Seq<(Seq<Card>, bool)>,
    /// The seat whose turn it is, once the cards have been dealt.
    pub next_player: Option<usize>,
}

/// The card whose holder names the trump.
pub open spec fn marker() -> Card {
    (CardType::Numeric(4), CardSuit::Denari)
}

/// The worth of a rank, in thirds of a point: three for the ace, one for
/// the two, the three and the figures.
pub open spec fn thirds(rank: CardType) -> nat {
    match rank {
        CardType::Jack => 1,
        CardType::Queen => 1,
        CardType::King => 1,
        CardType::Numeric(x) => if x == 1 {
            3
        } else if x == 2 || x == 3 {
            1
        } else {
            0
        },
        CardType::Jolly => 0,
    }
}

/// The worth of a rank in points: one for the ace, a third for the two,
/// the three and the figures, nothing for the rest.
pub open spec fn worth(rank: CardType) -> Score {
    if thirds(rank) == 3 {
        Score { numer: 1, denom: 1 }
    } else if thirds(rank) == 1 {
        Score { numer: 1, denom: 3 }
    } else {
        Score { numer: 0, denom: 1 }
    }
}

/// [`thirds`] as a function.
pub open spec fn thirds_fn() -> spec_fn(CardType) -> nat {
    |rank: CardType| thirds(rank)
}

/// The strength of a rank: three, two, ace, king, queen, jack, then seven
/// down to four.
pub open spec fn strength(rank: CardType) -> u8 {
    match rank {
        CardType::Jack => 5,
        CardType::Queen => 6,
        CardType::King => 7,
        CardType::Numeric(x) => if x == 1 {
            8
        } else if x == 2 {
            9
        } else if x == 3 {
            10
        } else if x == 7 {
            4
        } else if x == 6 {
            3
        } else if x == 5 {
            2
        } else {
            1
        },
        CardType::Jolly => 0,
    }
}

/// [`strength`] as a function.
pub open spec fn strength_fn() -> spec_fn(CardType) -> u8 {
    |rank: CardType| strength(rank)
}

/// The thirds of a point in the whole deck.
pub open spec fn deck_thirds() -> nat {
    32
}

/// The score of a team: the worth of its cards, and one point more for
/// the last trick.
pub open spec fn team_score(won: (Seq<Card>, bool)) -> Score {
    Score::lowest_terms(
        pile_value(won.0, thirds_fn()) + if won.1 {
            3nat
        } else {
            0nat
        },
        3,
    )
}

impl BeccaccinoView {
    /// Whether the cards have been dealt.
    pub open spec fn started(self) -> bool {
        self.next_player.is_some()
    }

    /// The piles of won cards.
    pub open spec fn won_piles(self) -> Seq<Seq<Card>> {
        self.won_cards.map_values(|w: (Seq<Card>, bool)| w.0)
    }

    /// The worth, in thirds, of all cards in hands, on the table and won.
    pub open spec fn thirds_in_play(self) -> nat {
        piles_value(self.in_hand, thirds_fn()) + pile_value(cards_of(self.table), thirds_fn())
            + piles_value(self.won_piles(), thirds_fn())
    }

    /// The first seat that holds the [`marker`], or `4` if none does.
    pub open spec fn choosing_seat(self) -> int {
        if self.in_hand[0].contains(marker()) {
            0
        } else if self.in_hand[1].contains(marker()) {
            1
        } else if self.in_hand[2].contains(marker()) {
            2
        } else if self.in_hand[3].contains(marker()) {
            3
        } else {
            4
        }
    }

    /// Whether every hand is empty.
    pub open spec fn hands_empty(self) -> bool {
        forall|i: int| 0 <= i < self.in_hand.len() ==> (#[trigger] self.in_hand[i]).len() == 0
    }

    /// The invariant of a game.
    pub open spec fn wf(self) -> bool {
        &&& self.in_hand.len() == 4
        &&& self.won_cards.len() == 2
        &&& self.players.len() <= 4
        &&& self.table.len() < 4
        &&& self.thirds_in_play() == if self.started() {
            deck_thirds()
        } else {
            0
        }
        &&& forall|k: int|
            0 <= k < self.table.len() ==> seat_of(self.players, (#[trigger] self.table[k]).0.id)
                < self.players.len()
        &&& match self.next_player {
            Some(seat) => {
                &&& seat < 4
                &&& self.players.len() == 4
                &&& self.briscola.is_none() ==> self.choosing_seat() < 4 && self.table.len() == 0
            },
            None => {
                &&& self.briscola.is_none()
                &&& self.table.len() == 0
                &&& self.hands_empty()
                &&& self.won_cards[0] == (Seq::<Card>::empty(), false)
                &&& self.won_cards[1] == (Seq::<Card>::empty(), false)
            },
        }
    }

    /// The suit of the first card of the trick.
    pub open spec fn lead_suit(self) -> CardSuit {
        self.table[0].1.1
    }

    /// Whether the card is refused because the seat holds the led suit and
    /// the card is of another.
    pub open spec fn refuses(self, seat: int, card: Card) -> bool {
        &&& self.table.len() > 0
        &&& card.1 != self.lead_suit()
        &&& holds_suit(self.in_hand[seat], self.lead_suit())
    }

    /// Whether it is the turn of the player with this id to play a card.
    pub open spec fn is_turn_of(self, id: i64) -> bool {
        &&& self.briscola.is_some()
        &&& self.next_player.is_some()
        &&& self.players[self.next_player.unwrap() as int].id == id
    }

    /// Whether `handle_move` may be called: the cards have been dealt,
    /// and a card that is about to be played is in its player's hand.
    pub open spec fn can_move(self, by: PlayerView, card: Card) -> bool {
        let seat = seat_of(self.players, by.id);
        &&& self.started()
        &&& self.is_turn_of(by.id) && !self.refuses(seat, card) ==> self.in_hand[seat].contains(
            card,
        )
    }

    /// Whether the scores can be told: all four seats are taken.
    pub open spec fn can_report(self) -> bool {
        self.players.len() == 4
    }

    /// Whether `start` may be called: the roster is complete, or play has
    /// begun and the call will be refused.
    pub open spec fn can_start(self) -> bool {
        self.started() || self.players.len() == 4
    }

    /// The two teams with their scores.
    pub open spec fn standings(self) -> Seq<(Seq<PlayerView>, Score)> {
        seq![
            (seq![self.players[0], self.players[2]], team_score(self.won_cards[0])),
            (seq![self.players[1], self.players[3]], team_score(self.won_cards[1])),
        ]
    }

    /// The player whose turn it is.
    pub open spec fn turn(self) -> Option<PlayerView> {
        match self.next_player {
            Some(seat) => Some(self.players[seat as int]),
            None => None,
        }
    }

    /// The summary of the game.
    pub open spec fn status_text(self) -> Seq<char> {
        report_text(
            "Beccaccino"@,
            self.standings(),
            match self.briscola {
                Some(suit) => suit_symbol(suit),
                None => "non ancora scelta"@,
            },
            match self.turn() {
                Some(p) => p.name,
                None => Seq::empty(),
            },
            self.table,
        )
    }

    /// The game after `player` has asked to join, and the answer.
    pub open spec fn after_join(self, player: PlayerView) -> (
        BeccaccinoView,
        Result<StatusView, Seq<char>>,
    ) {
        if self.players.len() >= 4 {
            (self, Err("La partita è al completo"@))
        } else if self.started() {
            (self, Err("La partita è già cominciata"@))
        } else {
            (
                BeccaccinoView { players: self.players.push(player), ..self },
                Ok(StatusView::WaitingForPlayers(self.players.len() == 3, player)),
            )
        }
    }

    /// The game after `deck` has been dealt, ten cards to each seat, and
    /// the request to the holder of the [`marker`] to name the trump.
    pub open spec fn after_deal(self, deck: Seq<Card>) -> (BeccaccinoView, StatusView) {
        let dealt = BeccaccinoView {
            in_hand: seq![
                deck.subrange(0, 10),
                deck.subrange(10, 20),
                deck.subrange(20, 30),
                deck.subrange(30, 40),
            ],
            ..self
        };
        let seat = dealt.choosing_seat();
        (
            BeccaccinoView { next_player: Some(seat as usize), ..dealt },
            StatusView::WaitingForChoiceCustomMessage(
                self.players[seat],
                dealt.in_hand[seat],
                "Scegli quale sarà il seme seme di briscola"@,
            ),
        )
    }

    /// The game after the seat has put `card` on the table.
    pub open spec fn after_play(self, seat: int, by: PlayerView, card: Card) -> BeccaccinoView {
        BeccaccinoView {
            in_hand: self.in_hand.update(
                seat,
                self.in_hand[seat].remove(place_of(self.in_hand[seat], card)),
            ),
            table: self.table.push((by, card)),
            next_player: Some(((seat + 1) % 4) as usize),
            ..self
        }
    }

    /// The seat of the player who wins the trick on the table.
    pub open spec fn winning_seat(self) -> int {
        let winner = trick_winner(
            plays_of(cards_of(self.table), strength_fn()),
            self.briscola.unwrap(),
        );
        seat_of(self.players, self.table[winner].0.id)
    }

    /// The game after the full trick on the table has gone to the team of
    /// its winner: the winner leads next, unless that was the last trick,
    /// which is noted for the team.
    pub open spec fn after_trick(self) -> BeccaccinoView {
        let seat = self.winning_seat();
        let team = seat % 2;
        let pile = self.won_cards[team].0 + cards_of(self.table);
        if self.hands_empty() {
            BeccaccinoView {
                won_cards: self.won_cards.update(team, (pile, true)),
                table: Seq::empty(),
                ..self
            }
        } else {
            BeccaccinoView {
                won_cards: self.won_cards.update(team, (pile, self.won_cards[team].1)),
                table: Seq::empty(),
                next_player: Some(seat as usize),
                ..self
            }
        }
    }

    /// The game after `by` has asked to play `card`, and what the players
    /// are told.
    ///
    /// As long as no trump is named, the holder of the four of Denari
    /// names it by the suit of the card and is asked for the lead; nobody
    /// else may move. After that only the player whose turn it is may
    /// move, and a card that does not follow the led suit is refused if
    /// the player holds the suit. A card that is played goes to the table.
    /// The fourth card completes the trick, which goes to the team of its
    /// winner. Then the player whose turn it is now is asked for a card,
    /// unless the last trick has ended the game.
    pub open spec fn after_move(self, by: PlayerView, card: Card) -> (
        BeccaccinoView,
        Seq<StatusView>,
    ) {
        if self.briscola.is_none() {
            let chooser = self.choosing_seat();
            if self.players[chooser].id == by.id {
                (
                    BeccaccinoView { briscola: Some(card.1), ..self },
                    seq![StatusView::WaitingForChoice(by, self.in_hand[chooser])],
                )
            } else {
                (self, seq![StatusView::InvalidMove("Non tocca a te scegliere la briscola!"@)])
            }
        } else if self.next_player.is_none() {
            (self, seq![StatusView::InvalidMove("La partita non è ancora iniziata"@)])
        } else if self.players[self.next_player.unwrap() as int].id != by.id {
            (self, seq![StatusView::InvalidMove("Non è ancora il tuo turno!"@)])
        } else {
            let seat = seat_of(self.players, by.id);
            let next = (seat + 1) % 4;
            if self.refuses(seat, card) {
                (
                    self,
                    seq![
                        StatusView::InvalidMove(
                            "Devi giocare una carta dello stesso seme della prima!"@,
                        ),
                        StatusView::WaitingForChoice(by, self.in_hand[seat]),
                    ],
                )
            } else {
                let played = self.after_play(seat, by, card);
                if played.table.len() < 4 {
                    (
                        played,
                        seq![
                            StatusView::WaitingForChoice(self.players[next], played.in_hand[next]),
                            StatusView::NotifyUser(self.players[next], played.status_text()),
                        ],
                    )
                } else {
                    let taken = played.after_trick();
                    if played.hands_empty() {
                        (
                            taken,
                            seq![
                                StatusView::RoundWon(self.players[played.winning_seat()]),
                                StatusView::GameEnded,
                                StatusView::NotifyRoom(taken.status_text()),
                            ],
                        )
                    } else {
                        let leader = played.winning_seat();
                        (
                            taken,
                            seq![
                                StatusView::WaitingForChoice(
                                    self.players[leader],
                                    taken.in_hand[leader],
                                ),
                                StatusView::NotifyUser(self.players[leader], taken.status_text()),
                            ],
                        )
                    }
                }
            }
        }
    }
}

/// What is answered to a text: one of the three calls of the game is
/// announced to the table, anything else is answered to the sender alone.
/// Only the letters of the text count, whatever their case.
pub open spec fn answer_to(message: Seq<char>, from: PlayerView) -> Seq<StatusView> {
    answer_to_word(letters_of(lowercased(message)), from)
}

/// What is answered to a word: one of the three calls of the game is
/// announced to the table, anything else is answered to the sender alone.
pub open spec fn answer_to_word(word: Seq<char>, from: PlayerView) -> Seq<StatusView> {
    if word == "busso"@ {
        seq![StatusView::NotifyRoom(from.name + " ha detto: Busso"@)]
    } else if word == "striscio"@ {
        seq![StatusView::NotifyRoom(from.name + " ha detto: Striscio"@)]
    } else if word == "volo"@ {
        seq![StatusView::NotifyRoom(from.name + " ha detto: Volo"@)]
    } else {
        seq![StatusView::NotifyUser(from, "Puoi dire solo busso, striscio o volo."@)]
    }
}

/// The views of the piles of won cards.
pub open spec fn won_view(won: Seq<(Vec<Card>, bool)>) -> Seq<(Seq<Card>, bool)> {
    Seq::new(won.len(), |i: int| (won[i].0@, won[i].1))
}

impl View for Beccaccino {
    type V = BeccaccinoView;

    closed spec fn view(&self) -> BeccaccinoView {
        BeccaccinoView {
            players: roster_view(self.players@),
            in_hand: piles_view(self.in_hand@),
            briscola: self.briscola,
            table: table_view(self.table@),
            won_cards: won_view(self.won_cards@),
            next_player: self.next_player,
        }
    }
}

/// The worth, in thirds, of the first `k` cards of the ordered deck.
pub open spec fn thirds_up_to(k: nat) -> nat
    decreases k,
{
    if k == 0 {
        0
    } else {
        thirds_up_to((k - 1) as nat) + thirds(crate::utils::briscola_card((k - 1) as nat).0)
    }
}

proof fn lemma_thirds_up_to(k: nat)
    requires
        k <= 40,
    ensures
        pile_value(full_deck(CardDeckType::Briscola).subrange(0, k as int), thirds_fn())
            == thirds_up_to(k),
    decreases k,
{
    let deck = full_deck(CardDeckType::Briscola);
    if k > 0 {
        lemma_thirds_up_to((k - 1) as nat);
        assert(deck.subrange(0, k as int).drop_last() =~= deck.subrange(0, k - 1));
    }
}

proof fn lemma_suit_thirds(k: nat)
    requires
        k == 0 || k == 10 || k == 20 || k == 30,
    ensures
        thirds_up_to(k + 10) == thirds_up_to(k) + 8,
{
    reveal_with_fuel(thirds_up_to, 11);
}

/// The whole deck is worth thirty-two thirds of a point, however it is
/// shuffled.
pub proof fn lemma_deck_thirds(deck: Seq<Card>)
    requires
        is_shuffled_deck(CardDeckType::Briscola, deck),
    ensures
        pile_value(deck, thirds_fn()) == deck_thirds(),
        deck.len() == 40,
        deck.contains(marker()),
{
    broadcast use group_to_multiset_ensures;

    let full = full_deck(CardDeckType::Briscola);
    assert(deck.len() == deck.to_multiset().len());
    assert(full.len() == full.to_multiset().len());
    lemma_pile_arrangement(deck, full, thirds_fn());
    lemma_thirds_up_to(40);
    assert(full.subrange(0, 40) =~= full);
    lemma_suit_thirds(0);
    lemma_suit_thirds(10);
    lemma_suit_thirds(20);
    lemma_suit_thirds(30);
    assert(thirds_up_to(0) == 0);
    assert(full[23] == marker());
    assert(full.contains(marker()));
    assert(deck.to_multiset().count(marker()) > 0);
}

/// The four hands dealt from a deck are worth what the deck is worth.
proof fn lemma_deal_thirds(deck: Seq<Card>)
    requires
        deck.len() == 40,
    ensures
        piles_value(
            seq![
                deck.subrange(0, 10),
                deck.subrange(10, 20),
                deck.subrange(20, 30),
                deck.subrange(30, 40),
            ],
            thirds_fn(),
        ) == pile_value(deck, thirds_fn()),
{
    let a = deck.subrange(0, 10);
    let b = deck.subrange(10, 20);
    let c = deck.subrange(20, 30);
    let d = deck.subrange(30, 40);
    let hands = seq![a, b, c, d];
    reveal_with_fuel(piles_value, 5);
    assert(hands.drop_last() =~= seq![a, b, c]);
    assert(seq![a, b, c].drop_last() =~= seq![a, b]);
    assert(seq![a, b].drop_last() =~= seq![a]);
    assert(seq![a].drop_last() =~= Seq::<Seq<Card>>::empty());
    lemma_pile_concat(a, b, thirds_fn());
    lemma_pile_concat(a + b, c, thirds_fn());
    lemma_pile_concat(a + b + c, d, thirds_fn());
    assert(a + b + c + d =~= deck);
}

fn copy_range(cards: &Vec<Card>, from: usize, to: usize) -> (r: Vec<Card>)
    requires
        from <= to <= cards.len(),
    ensures
        r@ == cards@.subrange(from as int, to as int),
{
    let mut out: Vec<Card> = Vec::new();
    let mut i: usize = from;
    while i < to
        invariant
            from <= i <= to <= cards.len(),
            out@ == cards@.subrange(from as int, i as int),
        decreases to - i,
    {
        out.push(cards[i]);
        i = i + 1;
        assert(out@ =~= cards@.subrange(from as int, i as int));
    }
    out
}

fn rank_strength(rank: &CardType) -> (r: u8)
    ensures
        r == strength(*rank),
{
    match rank {
        CardType::Jack => 5,
        CardType::Queen => 6,
        CardType::King => 7,
        CardType::Numeric(x) => if *x == 1 {
            8
        } else if *x == 2 {
            9
        } else if *x == 3 {
            10
        } else if *x == 7 {
            4
        } else if *x == 6 {
            3
        } else if *x == 5 {
            2
        } else {
            1
        },
        CardType::Jolly => 0,
    }
}

fn card_plays(cards: &Vec<Card>) -> (plays: Vec<(CardSuit, u8)>)
    ensures
        plays@ == plays_of(cards@, strength_fn()),
{
    let mut plays: Vec<(CardSuit, u8)> = Vec::new();
    let mut i: usize = 0;
    while i < cards.len()
        invariant
            i <= cards.len(),
            plays.len() == i,
            forall|j: int|
                0 <= j < i ==> #[trigger] plays[j] == (cards[j].1, strength(cards[j].0)),
        decreases cards.len() - i,
    {
        plays.push((cards[i].1, rank_strength(&cards[i].0)));
        i = i + 1;
    }
    assert(plays@ =~= plays_of(cards@, strength_fn()));
    plays
}

/// The worth of a rank is its thirds, in lowest terms.
proof fn lemma_worth(rank: CardType)
    ensures
        worth(rank) == Score::lowest_terms(thirds(rank), 3),
{
    crate::score::lemma_thirds_in_lowest_terms(thirds(rank));
}

/// The worth of a pile: the sum of the worth of its cards.
fn pile_score(cards: &Vec<Card>) -> (r: Score)
    requires
        pile_value(cards@, thirds_fn()) <= 80,
    ensures
        r == Score::lowest_terms(pile_value(cards@, thirds_fn()), 3),
{
    let mut total = crate::score::zero();
    proof {
        crate::score::lemma_thirds_in_lowest_terms(0);
    }
    let mut i: usize = 0;
    while i < cards.len()
        invariant
            i <= cards.len(),
            pile_value(cards@, thirds_fn()) <= 80,
            total == Score::lowest_terms(pile_value(cards@.subrange(0, i as int), thirds_fn()), 3),
        decreases cards.len() - i,
    {
        proof {
            assert(cards@.subrange(0, i + 1).drop_last() =~= cards@.subrange(0, i as int));
            crate::games::lemma_pile_prefix(cards@, i + 1, thirds_fn());
            lemma_worth(cards[i as int].0);
            crate::score::lemma_sum_of_thirds(
                pile_value(cards@.subrange(0, i as int), thirds_fn()),
                thirds(cards[i as int].0),
            );
        }
        total = Score::sum(total, card_worth(&cards[i].0));
        i = i + 1;
    }
    assert(cards@.subrange(0, cards.len() as int) =~= cards@);
    total
}

/// The worth of a rank in points.
fn card_worth(rank: &CardType) -> (r: Score)
    ensures
        r == worth(*rank),
{
    proof {
        crate::score::lemma_thirds_in_lowest_terms(0);
        crate::score::lemma_thirds_in_lowest_terms(1);
        crate::score::lemma_whole_in_lowest_terms(0);
        crate::score::lemma_whole_in_lowest_terms(1);
    }
    match rank {
        CardType::Jack => Score::reduced(1, 3),
        CardType::Queen => Score::reduced(1, 3),
        CardType::King => Score::reduced(1, 3),
        CardType::Numeric(x) => if *x == 1 {
            Score::reduced(1, 1)
        } else if *x == 2 || *x == 3 {
            Score::reduced(1, 3)
        } else {
            Score::reduced(0, 3)
        },
        CardType::Jolly => Score::reduced(0, 1),
    }
}

impl Default for Beccaccino {
    fn default() -> (r: Self)
        ensures
            r@.wf(),
            r@.players.len() == 0,
            !r@.started(),
    {
        let mut in_hand: Vec<Vec<Card>> = Vec::new();
        in_hand.push(Vec::new());
        in_hand.push(Vec::new());
        in_hand.push(Vec::new());
        in_hand.push(Vec::new());
        let mut won_cards: Vec<(Vec<Card>, bool)> = Vec::new();
        won_cards.push((Vec::new(), false));
        won_cards.push((Vec::new(), false));
        let r = Beccaccino {
            players: Vec::new(),
            in_hand,
            briscola: None,
            table: Vec::new(),
            won_cards,
            next_player: None,
        };
        proof {
            lemma_empty_piles(r@.in_hand, thirds_fn());
            lemma_empty_piles(r@.won_piles(), thirds_fn());
            assert(cards_of(r@.table) =~= Seq::<Card>::empty());
            assert(r@.won_cards[0] == (Seq::<Card>::empty(), false));
            assert(r@.won_cards[1] == (Seq::<Card>::empty(), false));
        }
        r
    }
}

impl Beccaccino {
    /// The seat of the player who names the trump: the first that holds
    /// the four of Denari.
    pub fn get_choosing_player(&self) -> (seat: usize)
        requires
            self@.in_hand.len() == 4,
            self@.choosing_seat() < 4,
        ensures
            seat == self@.choosing_seat(),
    {
        let target: Card = (CardType::Numeric(4), CardSuit::Denari);
        let mut i: usize = 0;
        while i < 4
            invariant
                i <= 4,
                self@.in_hand.len() == 4,
                self@.choosing_seat() < 4,
                target == marker(),
                forall|j: int| 0 <= j < i ==> !(#[trigger] self@.in_hand[j]).contains(marker()),
            decreases 4 - i,
        {
            proof {
                lemma_place_of(self.in_hand[i as int]@, target);
            }
            if find_card(&self.in_hand[i], &target) < self.in_hand[i].len() {
                return i;
            }
            i = i + 1;
        }
        0
    }

    /// Deals `deck`, ten cards to each seat in joining order, and asks the
    /// holder of the four of Denari for the trump.
    pub fn start_with_deck(&mut self, deck: Vec<Card>) -> (out: GameStatus)
        requires
            old(self)@.wf(),
            !old(self)@.started(),
            old(self)@.players.len() == 4,
            is_shuffled_deck(CardDeckType::Briscola, deck@),
        ensures
            final(self)@.wf(),
            (final(self)@, out@) == old(self)@.after_deal(deck@),
    {
        proof {
            lemma_deck_thirds(deck@);
            lemma_deal_thirds(deck@);
            lemma_empty_piles(self@.won_piles(), thirds_fn());
            assert(cards_of(self@.table) =~= Seq::<Card>::empty());
        }
        let mut i: usize = 0;
        while i < 4
            invariant
                i <= 4,
                deck.len() == 40,
                self.in_hand.len() == 4,
                self.players == old(self).players,
                self.briscola == old(self).briscola,
                self.table == old(self).table,
                self.won_cards == old(self).won_cards,
                self.next_player == old(self).next_player,
                forall|j: int|
                    0 <= j < i ==> (#[trigger] self.in_hand[j])@ == deck@.subrange(
                        10 * j,
                        10 * j + 10,
                    ),
            decreases 4 - i,
        {
            let hand = copy_range(&deck, i * 10, i * 10 + 10);
            self.in_hand.set(i, hand);
            i = i + 1;
        }
        let ghost dealt = BeccaccinoView {
            in_hand: seq![
                deck@.subrange(0, 10),
                deck@.subrange(10, 20),
                deck@.subrange(20, 30),
                deck@.subrange(30, 40),
            ],
            ..old(self)@
        };
        proof {
            assert(self.in_hand[0]@ == deck@.subrange(0, 10));
            assert(self.in_hand[1]@ == deck@.subrange(10, 20));
            assert(self.in_hand[2]@ == deck@.subrange(20, 30));
            assert(self.in_hand[3]@ == deck@.subrange(30, 40));
            assert(self@.in_hand =~= dealt.in_hand);
            assert(self@ == dealt);
            let k = choose|k: int| 0 <= k < deck@.len() && deck@[k] == marker();
            if k < 10 {
                assert(deck@.subrange(0, 10)[k] == marker());
            } else if k < 20 {
                assert(deck@.subrange(10, 20)[k - 10] == marker());
            } else if k < 30 {
                assert(deck@.subrange(20, 30)[k - 20] == marker());
            } else {
                assert(deck@.subrange(30, 40)[k - 30] == marker());
            }
            assert(dealt.choosing_seat() < 4);
            assert(dealt.won_piles() == old(self)@.won_piles());
        }
        let seat = self.get_choosing_player();
        self.next_player = Some(seat);
        GameStatus::WaitingForChoiceCustomMessage(
            self.players[seat].clone(),
            copy_cards(&self.in_hand[seat]),
            "Scegli quale sarà il seme seme di briscola",
        )
    }

    /// Lets the holder of the four of Denari name the trump by the suit of
    /// the card they show; everyone else is turned away.
    fn name_trump(&mut self, by: &Player, card: Card) -> (out: Vec<GameStatus>)
        requires
            old(self)@.wf(),
            old(self)@.started(),
            old(self)@.briscola.is_none(),
        ensures
            final(self)@.wf(),
            (final(self)@, statuses_view(out@)) == old(self)@.after_move(by@, card),
    {
        let chooser = self.get_choosing_player();
        if self.players[chooser].id == by.id {
            self.briscola = Some(card.1);
            proof {
                assert(self@.won_piles() == old(self)@.won_piles());
            }
            one_status(GameStatus::WaitingForChoice(by.clone(), copy_cards(&self.in_hand[chooser])))
        } else {
            one_status(GameStatus::InvalidMove("Non tocca a te scegliere la briscola!"))
        }
    }

    /// Moves `card` from the hand of `seat` to the table and passes the
    /// turn to the next seat.
    fn play_card(&mut self, seat: usize, by: &Player, card: Card)
        requires
            old(self)@.wf(),
            old(self)@.is_turn_of(by.id),
            seat == seat_of(old(self)@.players, by.id),
            old(self)@.in_hand[seat as int].contains(card),
        ensures
            final(self)@ == old(self)@.after_play(seat as int, by@, card),
            seat < 4,
            final(self)@.thirds_in_play() == deck_thirds(),
            forall|k: int|
                0 <= k < final(self)@.table.len() ==> seat_of(
                    final(self)@.players,
                    (#[trigger] final(self)@.table[k]).0.id,
                ) < 4,
            final(self)@.table.len() < 4 ==> final(self)@.wf(),
    {
        proof {
            lemma_after_play(self@, by@, card);
            lemma_place_of(self.in_hand[seat as int]@, card);
        }
        let place = find_card(&self.in_hand[seat], &card);
        take_from_pile(&mut self.in_hand, seat, place);
        self.table.push((by.clone(), card));
        self.next_player = Some((seat + 1) % 4);
        proof {
            let played = old(self)@.after_play(seat as int, by@, card);
            assert(self@.table =~= played.table);
        }
    }

    /// Whether every hand is empty.
    fn hands_are_empty(&self) -> (r: bool)
        requires
            self@.in_hand.len() == 4,
        ensures
            r == self@.hands_empty(),
    {
        let r = self.in_hand[0].len() == 0 && self.in_hand[1].len() == 0
            && self.in_hand[2].len() == 0 && self.in_hand[3].len() == 0;
        proof {
            assert(self@.in_hand[0] == self.in_hand[0]@);
            assert(self@.in_hand[1] == self.in_hand[1]@);
            assert(self@.in_hand[2] == self.in_hand[2]@);
            assert(self@.in_hand[3] == self.in_hand[3]@);
        }
        r
    }

    /// Hands the full trick on the table to the team of its winner.
    fn take_trick(&mut self) -> (seat: usize)
        requires
            old(self)@.in_hand.len() == 4,
            old(self)@.won_cards.len() == 2,
            old(self)@.players.len() == 4,
            old(self)@.table.len() == 4,
            old(self)@.briscola.is_some(),
            old(self)@.next_player.is_some(),
            old(self)@.next_player.unwrap() < 4,
            old(self)@.thirds_in_play() == deck_thirds(),
            forall|k: int|
                0 <= k < old(self)@.table.len() ==> seat_of(
                    old(self)@.players,
                    (#[trigger] old(self)@.table[k]).0.id,
                ) < 4,
        ensures
            final(self)@ == old(self)@.after_trick(),
            final(self)@.wf(),
            seat == old(self)@.winning_seat(),
            seat < 4,
    {
        proof {
            lemma_after_trick(self@);
        }
        let ended = self.hands_are_empty();
        let cards = table_cards(&self.table);
        let plays = card_plays(&cards);
        let winner = winning_play(&plays, self.briscola.unwrap());
        let seat = find_seat(&self.players, self.table[winner].0.id);
        let team = seat % 2;
        let mut pile = copy_cards(&self.won_cards[team].0);
        let mut taken = cards;
        pile.append(&mut taken);
        let last = ended || self.won_cards[team].1;
        self.won_cards.set(team, (pile, last));
        self.table.clear();
        if !ended {
            self.next_player = Some(seat);
        }
        proof {
            let after = old(self)@.after_trick();
            assert(self@.won_cards =~= after.won_cards);
            assert(self@.table =~= after.table);
        }
        seat
    }
}

/// Playing a card from a hand to the table keeps the cards' worth and
/// leaves every card on the table with a player of the roster.
proof fn lemma_after_play(v: BeccaccinoView, by: PlayerView, card: Card)
    requires
        v.wf(),
        v.is_turn_of(by.id),
        v.in_hand[seat_of(v.players, by.id)].contains(card),
    ensures
        ({
            let seat = seat_of(v.players, by.id);
            let p = v.after_play(seat, by, card);
            &&& 0 <= seat < 4
            &&& p.thirds_in_play() == v.thirds_in_play()
            &&& forall|k: int|
                0 <= k < p.table.len() ==> seat_of(p.players, (#[trigger] p.table[k]).0.id) < 4
            &&& p.table.len() < 4 ==> p.wf()
        }),
{
    let seat = seat_of(v.players, by.id);
    lemma_seat_of(v.players, by.id);
    let n = v.next_player.unwrap() as int;
    if seat >= 4 {
        assert(v.players[n].id != by.id);
    }
    let p = v.after_play(seat, by, card);
    let hand = v.in_hand[seat];
    let place = place_of(hand, card);
    lemma_place_of(hand, card);
    lemma_piles_update(v.in_hand, seat, hand.remove(place), thirds_fn());
    lemma_pile_remove(hand, place, thirds_fn());
    assert(cards_of(p.table) =~= cards_of(v.table).push(card));
    lemma_pile_push(cards_of(v.table), card, thirds_fn());
    assert(p.won_piles() == v.won_piles());
    assert forall|k: int| 0 <= k < p.table.len() implies seat_of(
        p.players,
        (#[trigger] p.table[k]).0.id,
    ) < 4 by {
        if k < v.table.len() {
            assert(p.table[k] == v.table[k]);
        }
    }
}

/// Handing a full trick to its winner's team keeps the cards' worth.
proof fn lemma_after_trick(p: BeccaccinoView)
    requires
        p.in_hand.len() == 4,
        p.won_cards.len() == 2,
        p.players.len() == 4,
        p.table.len() == 4,
        p.briscola.is_some(),
        p.next_player.is_some(),
        p.next_player.unwrap() < 4,
        p.thirds_in_play() == deck_thirds(),
        forall|k: int|
            0 <= k < p.table.len() ==> seat_of(p.players, (#[trigger] p.table[k]).0.id) < 4,
    ensures
        0 <= p.winning_seat() < 4,
        p.after_trick().wf(),
{
    let cards = cards_of(p.table);
    let plays = plays_of(cards, strength_fn());
    lemma_trick_lead_in_range(plays, p.briscola.unwrap(), 4);
    let winner = trick_winner(plays, p.briscola.unwrap());
    lemma_seat_of(p.players, p.table[winner].0.id);
    let seat = p.winning_seat();
    let team = seat % 2;
    let t = p.after_trick();
    let pile = p.won_cards[team].0 + cards;
    assert(t.won_piles() =~= p.won_piles().update(team, pile));
    lemma_piles_update(p.won_piles(), team, pile, thirds_fn());
    lemma_pile_concat(p.won_cards[team].0, cards, thirds_fn());
    assert(p.won_piles()[team] == p.won_cards[team].0);
    assert(cards_of(t.table) =~= Seq::<Card>::empty());
}

impl Game for Beccaccino {
    open spec fn wf(&self) -> bool {
        self@.wf()
    }

    open spec fn roster(&self) -> Seq<PlayerView> {
        self@.players
    }

    open spec fn turn(&self) -> Option<PlayerView> {
        self@.turn()
    }

    open spec fn standings(&self) -> Seq<(Seq<PlayerView>, Score)> {
        self@.standings()
    }

    open spec fn status_text(&self) -> Seq<char> {
        self@.status_text()
    }

    open spec fn name() -> Seq<char> {
        "Beccaccino"@
    }

    open spec fn worth(rank: CardType) -> Score {
        worth(rank)
    }

    open spec fn strength(rank: CardType) -> u8 {
        strength(rank)
    }

    open spec fn can_init(&self) -> bool {
        true
    }

    open spec fn can_start(&self) -> bool {
        self@.can_start()
    }

    open spec fn can_move(&self, by: PlayerView, card: Card) -> bool {
        self@.can_move(by, card)
    }

    open spec fn can_report(&self) -> bool {
        self@.can_report()
    }

    open spec fn initialised(pre: &Self, post: &Self) -> bool {
        post@ == pre@
    }

    open spec fn joined(
        pre: &Self,
        player: PlayerView,
        post: &Self,
        out: Result<StatusView, Seq<char>>,
    ) -> bool {
        (post@, out) == pre@.after_join(player)
    }

    open spec fn started(pre: &Self, post: &Self, out: StatusView) -> bool {
        if pre@.started() {
            &&& post@ == pre@
            &&& out == StatusView::InvalidMove(
                "Il gioco è già iniziato, non puoi farlo reiniziare!"@,
            )
        } else {
            exists|deck: Seq<Card>|
                is_shuffled_deck(CardDeckType::Briscola, deck) && (post@, out)
                    == #[trigger] pre@.after_deal(deck)
        }
    }

    open spec fn moved(
        pre: &Self,
        by: PlayerView,
        card: Card,
        post: &Self,
        out: Seq<StatusView>,
    ) -> bool {
        (post@, out) == pre@.after_move(by, card)
    }

    open spec fn answer(&self, message: Seq<char>, from: PlayerView) -> Seq<StatusView> {
        answer_to(message, from)
    }

    fn get_num_players(&self) -> (r: std::ops::Range<u8>)
        ensures
            r.start == 4,
            r.end == 4,
    {
        std::ops::Range { start: 4, end: 4 }
    }

    fn get_card_set(&self) -> (r: CardDeckType)
        ensures
            r == CardDeckType::Briscola,
    {
        CardDeckType::Briscola
    }

    fn get_name(&self) -> (r: &'static str) {
        "Beccaccino"
    }

    fn init(&mut self) {
    }

    fn is_initialisable(&self) -> (r: bool) {
        true
    }

    fn add_player(&mut self, player: Player) -> (out: Result<GameStatus, &'static str>) {
        if self.players.len() >= 4 {
            Err("La partita è al completo")
        } else if self.next_player.is_some() {
            Err("La partita è già cominciata")
        } else {
            let shown = player.clone();
            self.players.push(player);
            proof {
                assert(self@.players =~= old(self)@.players.push(player@));
                assert forall|k: int| 0 <= k < self@.table.len() implies seat_of(
                    self@.players,
                    (#[trigger] self@.table[k]).0.id,
                ) < self@.players.len() by {}
            }
            Ok(GameStatus::WaitingForPlayers(self.players.len() == 4, shown))
        }
    }

    fn get_card_rank(card: &CardType) -> (r: Score) {
        card_worth(card)
    }

    fn get_card_sorting_rank(card: &CardType) -> (r: u8) {
        rank_strength(card)
    }

    fn start(&mut self) -> (out: GameStatus) {
        if self.next_player.is_some() {
            return GameStatus::InvalidMove("Il gioco è già iniziato, non puoi farlo reiniziare!");
        }
        let deck = random_deck(CardDeckType::Briscola);
        self.start_with_deck(deck)
    }

    fn is_startable(&self) -> (r: bool) {
        self.next_player.is_some() || self.players.len() == 4
    }

    fn get_next_player(&self) -> (r: Option<Player>) {
        match self.next_player {
            Some(seat) => Some(self.players[seat].clone()),
            None => None,
        }
    }

    fn get_scores(&self) -> (r: Vec<(Vec<Player>, Score)>) {
        let mut r: Vec<(Vec<Player>, Score)> = Vec::new();
        let mut team: usize = 0;
        while team < 2
            invariant
                team <= 2,
                self@.wf(),
                self@.can_report(),
                r.len() == team,
                forall|j: int|
                    0 <= j < team ==> (roster_view((#[trigger] r[j]).0@), r[j].1)
                        == self@.standings()[j],
            decreases 2 - team,
        {
            let mut members: Vec<Player> = Vec::new();
            members.push(self.players[team].clone());
            members.push(self.players[team + 2].clone());
            proof {
                lemma_piles_bound(self@.won_piles(), team as int, thirds_fn());
                assert(self@.won_piles()[team as int] == self.won_cards[team as int].0@);
                assert(roster_view(members@) =~= self@.standings()[team as int].0);
            }
            let bonus = if self.won_cards[team].1 {
                crate::score::one()
            } else {
                crate::score::zero()
            };
            let cards = pile_score(&self.won_cards[team].0);
            proof {
                let thirds_won = pile_value(self.won_cards[team as int].0@, thirds_fn());
                crate::score::lemma_thirds_in_lowest_terms(0);
                crate::score::lemma_thirds_in_lowest_terms(3);
                if self.won_cards[team as int].1 {
                    crate::score::lemma_sum_of_thirds(3, thirds_won);
                } else {
                    crate::score::lemma_sum_of_thirds(0, thirds_won);
                }
            }
            r.push((members, Score::sum(bonus, cards)));
            team = team + 1;
        }
        assert(standings_view(r@) =~= self@.standings());
        r
    }

    fn get_status(&self) -> (r: String) {
        let scores = self.get_scores();
        let trump = match self.briscola {
            Some(suit) => suit_string(&suit),
            None => String::from_str("non ancora scelta"),
        };
        let turn = match self.next_player {
            Some(seat) => self.players[seat].name.clone(),
            None => String::new(),
        };
        proof {
            assert(standings_view(scores@).len() == scores.len());
            assert forall|i: int| 0 <= i < scores.len() implies (#[trigger] scores[i]).1.denom
                != 0 by {
                assert(standings_view(scores@)[i] == self@.standings()[i]);
                crate::score::lemma_lowest_terms_denominator(
                    pile_value(self@.won_cards[i].0, thirds_fn()) + if self@.won_cards[i].1 {
                        3nat
                    } else {
                        0nat
                    },
                    3,
                );
            }
        }
        report("Beccaccino", &scores, trump.as_str(), turn.as_str(), &self.table)
    }

    fn is_reportable(&self) -> (r: bool) {
        self.players.len() == 4
    }

    fn accepts_move(&self, by: &Player, card: &Card) -> (r: bool) {
        match self.next_player {
            None => false,
            Some(n) => {
                if self.briscola.is_none() || self.players[n].id != by.id {
                    return true;
                }
                let seat = find_seat(&self.players, by.id);
                proof {
                    lemma_seat_of(self@.players, by.id);
                    if seat >= 4 {
                        assert(self@.players[n as int].id != by.id);
                    }
                    lemma_place_of(self.in_hand[seat as int]@, *card);
                }
                if self.table.len() > 0 && card.1 != self.table[0].1.1 && has_suit(
                    &self.in_hand[seat],
                    self.table[0].1.1,
                ) {
                    return true;
                }
                find_card(&self.in_hand[seat], card) < self.in_hand[seat].len()
            },
        }
    }

    fn handle_move(&mut self, by: &Player, card: Card) -> (out: Vec<GameStatus>) {
        if self.briscola.is_none() {
            return self.name_trump(by, card);
        }
        let turn = match self.next_player {
            Some(n) => n,
            None => {
                return one_status(GameStatus::InvalidMove("La partita non è ancora iniziata"));
            },
        };
        if self.players[turn].id != by.id {
            return one_status(GameStatus::InvalidMove("Non è ancora il tuo turno!"));
        }
        let seat = find_seat(&self.players, by.id);
        proof {
            lemma_seat_of(self@.players, by.id);
            if seat >= 4 {
                assert(self@.players[turn as int].id != by.id);
            }
        }
        let next = (seat + 1) % 4;
        if self.table.len() > 0 && card.1 != self.table[0].1.1 && has_suit(
            &self.in_hand[seat],
            self.table[0].1.1,
        ) {
            return two_statuses(
                GameStatus::InvalidMove("Devi giocare una carta dello stesso seme della prima!"),
                GameStatus::WaitingForChoice(by.clone(), copy_cards(&self.in_hand[seat])),
            );
        }
        self.play_card(seat, by, card);
        let mut turn = next;
        if self.table.len() == 4 {
            let ended = self.hands_are_empty();
            let winning_seat = self.take_trick();
            if ended {
                let status = self.get_status();
                return three_statuses(
                    GameStatus::RoundWon(self.players[winning_seat].clone()),
                    GameStatus::GameEnded,
                    GameStatus::NotifyRoom(status),
                );
            }
            turn = winning_seat;
        }
        let status = self.get_status();
        two_statuses(
            GameStatus::WaitingForChoice(
                self.players[turn].clone(),
                copy_cards(&self.in_hand[turn]),
            ),
            GameStatus::NotifyUser(self.players[turn].clone(), status),
        )
    }

    fn get_players(&self) -> (r: Vec<Player>) {
        copy_players(&self.players)
    }

    fn get_new_instance(&self) -> (r: Self) {
        Self::default()
    }

    fn handle_message(&self, message: String, from: Player) -> (out: Vec<GameStatus>) {
        let lower = lowercase(message.as_str());
        let word = letters(lower.as_str());
        announce(word.as_str(), from)
    }
}

/// Answers a word that a player said: the three calls of the game go to
/// the table, anything else is answered to the player alone.
pub fn announce(word: &str, from: Player) -> (out: Vec<GameStatus>)
    ensures
        statuses_view(out@) == answer_to_word(word@, from@),
{
    if same_text(word, "busso") {
        let mut text = from.name.clone();
        text.append(" ha detto: Busso");
        one_status(GameStatus::NotifyRoom(text))
    } else if same_text(word, "striscio") {
        let mut text = from.name.clone();
        text.append(" ha detto: Striscio");
        one_status(GameStatus::NotifyRoom(text))
    } else if same_text(word, "volo") {
        let mut text = from.name.clone();
        text.append(" ha detto: Volo");
        one_status(GameStatus::NotifyRoom(text))
    } else {
        one_status(
            GameStatus::NotifyUser(
                from,
                String::from_str("Puoi dire solo busso, striscio o volo."),
            ),
        )
    }
}

/// Who holds a card of the led suit must follow it: a card of another
/// suit is refused, whoever asks and whenever, and nothing in the game
/// changes, the player's hand included.
pub proof fn lemma_must_follow_suit(game: BeccaccinoView, by: PlayerView, card: Card)
    requires
        game.wf(),
        game.table.len() > 0,
        card.1 != game.lead_suit(),
        holds_suit(game.in_hand[seat_of(game.players, by.id)], game.lead_suit()),
    ensures
        game.after_move(by, card).0 == game,
        game.after_move(by, card).1[0] is InvalidMove,
{
}

/// What a move does depends on nothing but the game, the player and the
/// card: two games with the same value, asked for the same move, tell
/// the players the same and have the same value afterwards.
pub proof fn lemma_move_is_determined(
    first: Beccaccino,
    second: Beccaccino,
    by: PlayerView,
    card: Card,
    first_after: Beccaccino,
    first_told: Seq<StatusView>,
    second_after: Beccaccino,
    second_told: Seq<StatusView>,
)
    requires
        first@ == second@,
        Beccaccino::moved(&first, by, card, &first_after, first_told),
        Beccaccino::moved(&second, by, card, &second_after, second_told),
    ensures
        first_after@ == second_after@,
        first_told == second_told,
{
}

/// A move by anyone but the player whose turn it is gets one refusal and
/// changes nothing.
pub proof fn lemma_out_of_turn(game: BeccaccinoView, by: PlayerView, card: Card)
    requires
        game.wf(),
        game.briscola.is_some(),
        game.turn().is_some(),
        game.turn().unwrap().id != by.id,
    ensures
        game.after_move(by, card) == (
            game,
            seq![StatusView::InvalidMove("Non è ancora il tuo turno!"@)],
        ),
{
}

/// Starting twice is starting once: whatever the first call did, the
/// second changes nothing and is refused.
pub proof fn lemma_start_is_idempotent(
    before: Beccaccino,
    once: Beccaccino,
    first: StatusView,
    twice: Beccaccino,
    second: StatusView,
)
    requires
        before.wf(),
        before.can_start(),
        Beccaccino::started(&before, &once, first),
        Beccaccino::started(&once, &twice, second),
    ensures
        twice@ == once@,
        second is InvalidMove,
{
}

/// No card is ever lost: once all hands are played, with nothing left on
/// the table, the two teams hold all the thirds of the deck between
/// them.
pub proof fn lemma_all_cards_are_won(game: BeccaccinoView)
    requires
        game.wf(),
        game.started(),
        game.hands_empty(),
        game.table.len() == 0,
    ensures
        piles_value(game.won_piles(), thirds_fn()) == deck_thirds(),
{
    lemma_empty_piles(game.in_hand, thirds_fn());
    assert(cards_of(game.table) =~= Seq::<Card>::empty());
}

} // verus!
