//! Briscola: two to four players take tricks with three cards in hand,
//! drawing from the deck after every trick. The suit of the card at the
//! bottom of the deck is trump, and every card after the lead has to
//! follow the led suit if its player can.

use crate::games::{
    cards_of, find_card, find_seat, has_suit, holds_suit, lemma_empty_piles,
    lemma_pile_arrangement, lemma_pile_concat, lemma_pile_prefix, lemma_pile_push,
    lemma_pile_remove, lemma_piles_bound, lemma_piles_push, lemma_piles_update, lemma_place_of,
    lemma_seat_of, lemma_seat_of_member, lemma_seat_of_push, lemma_trick_lead_in_range,
    pile_value, piles_value, piles_view, place_of, plays_of, put_on_pile, report, report_text,
    seat_of, table_cards, take_from_pile, trick_winner, winning_play,
};
use crate::primitives::{
    copy_cards, copy_players, one_status, roster_view, standings_view, statuses_view, table_view,
    two_statuses, Card, CardDeckType, CardSuit, CardType, Game, GameStatus, Player, PlayerView,
    StatusView,
};
use crate::score::Score;
use crate::utils::{full_deck, is_shuffled_deck, random_deck, suit_string, suit_symbol};
use vstd::prelude::*;
use vstd::seq_lib::group_to_multiset_ensures;

verus! {

/// A game of Briscola.
#[derive(Debug)]
pub struct Briscola {
    table: Vec<(Player, Card)>,
    players: Vec<Player>,
    in_hand: Vec<Vec<Card>>,
    teams: Vec<Vec<Player>>,
    player_team: Vec<usize>,
    won_cards: Vec<Vec<Card>>,
    deck: Vec<Card>,
    briscola: CardSuit,
    next_player: Option<Player>,
    started: bool,
}

/// Mathematical value of a game of [`Briscola`].
///
/// A player is known by its id. Hands and teams are kept by seat, and the
/// hand and the team of a player are those of the first seat with the
/// player's id.
pub struct BriscolaView {
    /// The cards of the trick that is being played, with who played them.
    pub table: Seq<(PlayerView, Card)>,
    /// The players, in the order in which they joined.
    pub players: Seq<PlayerView>,
    /// The hand of each seat.
    pub in_hand: Seq<Seq<Card>>,
    /// The members of each team.
    pub teams: Seq<Seq<PlayerView>>,
    /// The team of each seat.
    pub player_team: Seq<usize>,
    /// The cards that each team has won.
    pub won_cards: Seq<Seq<Card>>,
    /// The deck; cards are drawn from its end.
    pub deck: Seq<Card>,
    /// The trump.
    pub briscola: CardSuit,
    /// The player whose turn it is.
    pub next_player: Option<PlayerView>,
    /// Whether the cards have been dealt.
    pub started: bool,
}

/// The points of a rank: eleven for the ace, ten for the three, four,
/// three and two for king, queen and jack.
pub open spec fn points(rank: CardType) -> nat {
    match rank {
        CardType::Jack => 2,
        CardType::Queen => 3,
        CardType::King => 4,
        CardType::Numeric(x) => if x == 1 {
            11
        } else if x == 3 {
            10
        } else {
            0
        },
        CardType::Jolly => 0,
    }
}

/// [`points`] as a function.
pub open spec fn points_fn() -> spec_fn(CardType) -> nat {
    |rank: CardType| points(rank)
}

/// The strength of a rank: ace, three, king, queen, jack, then seven down
/// to two.
pub open spec fn strength(rank: CardType) -> u8 {
    match rank {
        CardType::Jack => 6,
        CardType::Queen => 7,
        CardType::King => 8,
        CardType::Numeric(x) => if x == 1 {
            10
        } else if x == 3 {
            9
        } else if x == 7 {
            5
        } else if x == 6 {
            4
        } else if x == 5 {
            3
        } else if x == 4 {
            2
        } else if x == 2 {
            1
        } else {
            0
        },
        CardType::Jolly => 0,
    }
}

/// [`strength`] as a function.
pub open spec fn strength_fn() -> spec_fn(CardType) -> u8 {
    |rank: CardType| strength(rank)
}

/// The points in the whole deck.
pub open spec fn deck_points() -> nat {
    120
}

/// The place of the first two in a pile, or the pile's length when it
/// holds none.
pub open spec fn first_two(cards: Seq<Card>) -> int
    decreases cards.len(),
{
    if cards.len() == 0 {
        0
    } else if cards[0].0 == CardType::Numeric(2) {
        0
    } else {
        1 + first_two(cards.drop_first())
    }
}

/// The seats that draw after a trick: every player once, from the winner
/// on in joining order.
pub open spec fn drawing_order(players: Seq<PlayerView>, winner: int) -> Seq<int> {
    Seq::new(
        players.len(),
        |i: int| seat_of(players, players[(i + winner) % (players.len() as int)].id),
    )
}

impl BriscolaView {
    /// The hand of the player with this id.
    pub open spec fn hand_of(self, id: i64) -> Seq<Card> {
        self.in_hand[seat_of(self.players, id)]
    }

    /// The points of all cards in the deck, in hands, on the table and won.
    pub open spec fn points_in_play(self) -> nat {
        pile_value(self.deck, points_fn()) + piles_value(self.in_hand, points_fn()) + pile_value(
            cards_of(self.table),
            points_fn(),
        ) + piles_value(self.won_cards, points_fn())
    }

    /// Whether every hand is empty.
    pub open spec fn hands_empty(self) -> bool {
        forall|i: int| 0 <= i < self.in_hand.len() ==> (#[trigger] self.in_hand[i]).len() == 0
    }

    /// What holds of a game at every step, also in the middle of a deal.
    pub open spec fn shape(self) -> bool {
        &&& self.teams.len() == self.won_cards.len()
        &&& 2 <= self.won_cards.len() <= 3
        &&& self.in_hand.len() == self.players.len()
        &&& self.player_team.len() == self.players.len()
        &&& self.players.len() <= 4
        &&& forall|s: int|
            0 <= s < self.player_team.len() ==> (#[trigger] self.player_team[s])
                < self.won_cards.len()
        &&& (self.players.len() == 0) == self.next_player.is_none()
        &&& self.next_player.is_some() ==> seat_of(self.players, self.next_player.unwrap().id)
            < self.players.len()
        &&& forall|k: int|
            0 <= k < self.table.len() ==> seat_of(self.players, (#[trigger] self.table[k]).0.id)
                < self.players.len()
        &&& forall|t: int, m: int|
            0 <= t < self.teams.len() && 0 <= m < self.teams[t].len() ==> seat_of(
                self.players,
                (#[trigger] self.teams[t][m]).id,
            ) < self.players.len()
        &&& self.points_in_play() <= deck_points()
        &&& self.table.len() <= self.players.len()
    }

    /// What holds of a game whatever the number of cards on its table.
    pub open spec fn inv(self) -> bool {
        &&& self.shape()
        &&& self.started ==> self.deck.len() < 40
        &&& self.started || self.deck.len() == 40 ==> self.points_in_play() == deck_points()
        &&& !self.started ==> {
            &&& self.hands_empty()
            &&& self.table.len() == 0
            &&& self.won_cards.len() == 2
            &&& self.won_cards[0].len() == 0
            &&& self.won_cards[1].len() == 0
            &&& self.teams[0].len() == self.players.len() / 2
            &&& self.teams[1].len() == (self.players.len() + 1) / 2
            &&& self.deck.len() == 0 || self.deck.len() == 40
            &&& self.players.len() > 0 ==> self.deck.len() == 40
        }
    }

    /// The invariant of a game.
    pub open spec fn wf(self) -> bool {
        &&& self.inv()
        &&& self.players.len() > 0 ==> self.table.len() < self.players.len()
    }

    /// Whether `start` may be called: somebody has joined, or play has
    /// begun and the call will be refused.
    pub open spec fn can_start(self) -> bool {
        self.started || self.players.len() > 0
    }

    /// The suit of the first card of the trick.
    pub open spec fn lead_suit(self) -> CardSuit {
        self.table[0].1.1
    }

    /// Whether the card is refused because the player holds the led suit
    /// and the card is of another.
    pub open spec fn refuses(self, id: i64, card: Card) -> bool {
        &&& self.table.len() > 0
        &&& card.1 != self.lead_suit()
        &&& holds_suit(self.hand_of(id), self.lead_suit())
    }

    /// Whether it is the turn of the player with this id.
    pub open spec fn is_turn_of(self, id: i64) -> bool {
        self.next_player.is_some() && self.next_player.unwrap().id == id
    }

    /// Whether `handle_move` may be called: a card that is about to be
    /// played is in its player's hand.
    pub open spec fn can_move(self, by: PlayerView, card: Card) -> bool {
        self.is_turn_of(by.id) && !self.refuses(by.id, card) ==> self.hand_of(by.id).contains(
            card,
        )
    }

    /// The teams with their scores.
    pub open spec fn standings(self) -> Seq<(Seq<PlayerView>, Score)> {
        Seq::new(
            self.teams.len(),
            |i: int|
                (
                    self.teams[i],
                    Score { numer: pile_value(self.won_cards[i], points_fn()) as u8, denom: 1 },
                ),
        )
    }

    /// The summary of the game.
    pub open spec fn status_text(self) -> Seq<char> {
        report_text(
            "Briscola"@,
            self.standings(),
            suit_symbol(self.briscola),
            match self.next_player {
                Some(p) => p.name,
                None => Seq::empty(),
            },
            self.table,
        )
    }

    /// The game with a new deck, whose bottom card shows the trump.
    pub open spec fn with_deck(self, deck: Seq<Card>) -> BriscolaView {
        BriscolaView { deck, briscola: deck[0].1, ..self }
    }

    /// The game after `player` has asked to join, and the answer. Teams
    /// are filled in turn, the first player going to the second team.
    pub open spec fn after_join(self, player: PlayerView) -> (
        BriscolaView,
        Result<StatusView, Seq<char>>,
    ) {
        if self.deck.len() < 40 {
            (self, Err("Non è possibile aggiungersi ad una partita già cominciata!"@))
        } else if self.players.len() >= 4 {
            (self, Err("Il gioco è pieno"@))
        } else {
            let players = self.players.push(player);
            let team = (players.len() % 2) as int;
            let seat = seat_of(players, player.id);
            (
                BriscolaView {
                    players,
                    next_player: if self.players.len() == 0 {
                        Some(player)
                    } else {
                        self.next_player
                    },
                    in_hand: self.in_hand.push(Seq::empty()).update(seat, Seq::empty()),
                    teams: self.teams.update(team, self.teams[team].push(player)),
                    player_team: self.player_team.push(team as usize).update(seat, team as usize),
                    ..self
                },
                Ok(StatusView::WaitingForPlayers(players.len() >= 2, player)),
            )
        }
    }

    /// The game after the top card of the deck has gone to the seat.
    pub open spec fn give(self, seat: int) -> BriscolaView {
        BriscolaView {
            in_hand: self.in_hand.update(seat, self.in_hand[seat].push(self.deck.last())),
            deck: self.deck.drop_last(),
            ..self
        }
    }

    /// The game after each of the seats, in order, has drawn a card.
    pub open spec fn deal(self, seats: Seq<int>) -> BriscolaView
        decreases seats.len(),
    {
        if seats.len() == 0 {
            self
        } else {
            self.deal(seats.drop_last()).give(seats.last())
        }
    }

    /// The game after the first `k` players, in joining order, have each
    /// been dealt three cards.
    pub open spec fn deal_hands(self, k: nat) -> BriscolaView
        decreases k,
    {
        if k == 0 {
            self
        } else {
            let seat = seat_of(self.players, self.players[k - 1].id);
            self.deal_hands((k - 1) as nat).give(seat).give(seat).give(seat)
        }
    }

    /// The game of three, made ready for the deal: one two leaves the
    /// deck, and the third player leaves the second team for a team of
    /// its own.
    pub open spec fn split_for_three(self) -> BriscolaView {
        let moved = self.teams[1].last();
        BriscolaView {
            deck: self.deck.remove(first_two(self.deck)),
            teams: self.teams.update(1, self.teams[1].drop_last()).push(seq![moved]),
            won_cards: self.won_cards.push(Seq::empty()),
            player_team: self.player_team.update(seat_of(self.players, moved.id), 2),
            ..self
        }
    }

    /// The game after `start`, and what the players are told.
    ///
    /// Play begins once. With three players the deck first loses a two;
    /// a deck without one ends the game on the spot. The bottom card of
    /// the deck then shows the trump and every player is dealt three
    /// cards. The first player leads.
    pub open spec fn after_start(self) -> (BriscolaView, StatusView) {
        if self.started {
            (
                self,
                StatusView::InvalidMove("Il gioco è già iniziato, non puoi farlo reiniziare!"@),
            )
        } else if self.players.len() == 3 && first_two(self.deck) >= self.deck.len() {
            (self, StatusView::GameEnded)
        } else {
            let ready = if self.players.len() == 3 {
                self.split_for_three()
            } else {
                self
            };
            let trump = BriscolaView { briscola: ready.deck[0].1, ..ready };
            let dealt = BriscolaView { started: true, ..trump.deal_hands(self.players.len()) };
            (
                dealt,
                StatusView::WaitingForChoice(
                    self.players[0],
                    dealt.hand_of(self.players[0].id),
                ),
            )
        }
    }

    /// The game after the player has put `card` on the table.
    pub open spec fn after_play(self, by: PlayerView, card: Card) -> BriscolaView {
        let seat = seat_of(self.players, by.id);
        BriscolaView {
            in_hand: self.in_hand.update(
                seat,
                self.in_hand[seat].remove(place_of(self.in_hand[seat], card)),
            ),
            table: self.table.push((by, card)),
            next_player: Some(self.players[(seat + 1) % (self.players.len() as int)]),
            ..self
        }
    }

    /// The player who wins the trick on the table.
    pub open spec fn trick_taker(self) -> PlayerView {
        self.table[trick_winner(plays_of(cards_of(self.table), strength_fn()), self.briscola)].0
    }

    /// The game after the full trick on the table has gone to the team of
    /// its winner and, if the deck has a card for everyone, every player
    /// has drawn one, the winner first. The winner leads next.
    pub open spec fn after_trick(self) -> BriscolaView {
        let winner = self.trick_taker();
        let seat = seat_of(self.players, winner.id);
        let team = self.player_team[seat] as int;
        let taken = BriscolaView {
            won_cards: self.won_cards.update(team, self.won_cards[team] + cards_of(self.table)),
            table: Seq::empty(),
            ..self
        };
        let drawn = if self.deck.len() >= self.players.len() {
            taken.deal(drawing_order(self.players, seat))
        } else {
            taken
        };
        BriscolaView { next_player: Some(winner), ..drawn }
    }

    /// The game after `by` has asked to play `card`, and what the players
    /// are told.
    ///
    /// Only the player whose turn it is may move. A card that does not
    /// follow the led suit is refused if the player holds the suit: the
    /// player is asked again, with the hand as it was, and nothing
    /// changes. A card that is played goes to the table. The card of the
    /// last player completes the trick, which goes to the team of its
    /// winner; after the draw the winner is asked for a card, and the game
    /// ends when all hands are empty. Otherwise the next player is asked.
    pub open spec fn after_move(self, by: PlayerView, card: Card) -> (
        BriscolaView,
        Seq<StatusView>,
    ) {
        if self.next_player.is_none() {
            (self, seq![StatusView::InvalidMove("La partita non è ancora iniziata"@)])
        } else if self.next_player.unwrap().id != by.id {
            (self, seq![StatusView::InvalidMove("Non è ancora il tuo turno!"@)])
        } else if self.refuses(by.id, card) {
            (
                self,
                seq![
                    StatusView::InvalidMove(
                        "Devi giocare una carta dello stesso seme della prima!"@,
                    ),
                    StatusView::WaitingForChoice(by, self.hand_of(by.id)),
                ],
            )
        } else {
            let played = self.after_play(by, card);
            if played.table.len() == self.players.len() {
                let winner = played.trick_taker();
                let taken = played.after_trick();
                let told = seq![
                    StatusView::CardPlayed(by, card),
                    StatusView::WaitingForChoice(winner, taken.hand_of(winner.id)),
                    StatusView::RoundWon(winner),
                ];
                (
                    taken,
                    if taken.hands_empty() {
                        told.push(StatusView::GameEnded)
                    } else {
                        told
                    },
                )
            } else {
                let next = played.next_player.unwrap();
                (
                    played,
                    seq![
                        StatusView::WaitingForChoice(next, played.hand_of(next.id)),
                        StatusView::InProgress(next),
                    ],
                )
            }
        }
    }
}

/// The views of several teams.
pub open spec fn teams_view(teams: Seq<Vec<Player>>) -> Seq<Seq<PlayerView>> {
    Seq::new(teams.len(), |i: int| roster_view(teams[i]@))
}

impl View for Briscola {
    type V = BriscolaView;

    closed spec fn view(&self) -> BriscolaView {
        BriscolaView {
            table: table_view(self.table@),
            players: roster_view(self.players@),
            in_hand: piles_view(self.in_hand@),
            teams: teams_view(self.teams@),
            player_team: self.player_team@,
            won_cards: piles_view(self.won_cards@),
            deck: self.deck@,
            briscola: self.briscola,
            next_player: match self.next_player {
                Some(p) => Some(p@),
                None => None,
            },
            started: self.started,
        }
    }
}

/// The points of the first `k` cards of the ordered deck.
pub open spec fn points_up_to(k: nat) -> nat
    decreases k,
{
    if k == 0 {
        0
    } else {
        points_up_to((k - 1) as nat) + points(crate::utils::briscola_card((k - 1) as nat).0)
    }
}

proof fn lemma_points_up_to(k: nat)
    requires
        k <= 40,
    ensures
        pile_value(full_deck(CardDeckType::Briscola).subrange(0, k as int), points_fn())
            == points_up_to(k),
    decreases k,
{
    let deck = full_deck(CardDeckType::Briscola);
    if k > 0 {
        lemma_points_up_to((k - 1) as nat);
        assert(deck.subrange(0, k as int).drop_last() =~= deck.subrange(0, k - 1));
    }
}

proof fn lemma_suit_points(k: nat)
    requires
        k == 0 || k == 10 || k == 20 || k == 30,
    ensures
        points_up_to(k + 10) == points_up_to(k) + 30,
{
    reveal_with_fuel(points_up_to, 11);
}

/// The whole deck holds forty cards and a hundred and twenty points,
/// however it is shuffled.
pub proof fn lemma_deck_points(deck: Seq<Card>)
    requires
        is_shuffled_deck(CardDeckType::Briscola, deck),
    ensures
        pile_value(deck, points_fn()) == deck_points(),
        deck.len() == 40,
{
    broadcast use group_to_multiset_ensures;

    let full = full_deck(CardDeckType::Briscola);
    assert(deck.len() == deck.to_multiset().len());
    assert(full.len() == full.to_multiset().len());
    lemma_pile_arrangement(deck, full, points_fn());
    lemma_points_up_to(40);
    assert(full.subrange(0, 40) =~= full);
    lemma_suit_points(0);
    lemma_suit_points(10);
    lemma_suit_points(20);
    lemma_suit_points(30);
    assert(points_up_to(0) == 0);
}

/// [`first_two`] finds the first two of a pile, if there is one.
pub proof fn lemma_first_two(cards: Seq<Card>)
    ensures
        0 <= first_two(cards) <= cards.len(),
        first_two(cards) < cards.len() ==> cards[first_two(cards)].0 == CardType::Numeric(2),
        forall|j: int|
            0 <= j < first_two(cards) ==> (#[trigger] cards[j]).0 != CardType::Numeric(2),
    decreases cards.len(),
{
    if cards.len() > 0 && cards[0].0 != CardType::Numeric(2) {
        let rest = cards.drop_first();
        lemma_first_two(rest);
        assert forall|j: int| 0 <= j < first_two(cards) implies (#[trigger] cards[j]).0
            != CardType::Numeric(2) by {
            if j > 0 {
                assert(cards[j] == rest[j - 1]);
            }
        }
    }
}

/// Drawing a card keeps the points in play and the shape of the game.
pub proof fn lemma_give(v: BriscolaView, seat: int)
    requires
        0 <= seat < v.in_hand.len(),
        v.deck.len() > 0,
    ensures
        v.give(seat).points_in_play() == v.points_in_play(),
        v.give(seat).in_hand.len() == v.in_hand.len(),
        v.give(seat).deck.len() == v.deck.len() - 1,
{
    let card = v.deck.last();
    lemma_piles_update(v.in_hand, seat, v.in_hand[seat].push(card), points_fn());
    lemma_pile_push(v.in_hand[seat], card, points_fn());
}

/// Dealing keeps the points in play; every seat dealt to takes one card
/// from the deck.
pub proof fn lemma_deal(v: BriscolaView, seats: Seq<int>)
    requires
        seats.len() <= v.deck.len(),
        forall|j: int| 0 <= j < seats.len() ==> 0 <= #[trigger] seats[j] < v.in_hand.len(),
    ensures
        v.deal(seats).points_in_play() == v.points_in_play(),
        v.deal(seats).in_hand.len() == v.in_hand.len(),
        v.deal(seats).deck.len() == v.deck.len() - seats.len(),
        v.deal(seats).table == v.table,
        v.deal(seats).players == v.players,
        v.deal(seats).teams == v.teams,
        v.deal(seats).player_team == v.player_team,
        v.deal(seats).won_cards == v.won_cards,
        v.deal(seats).briscola == v.briscola,
        v.deal(seats).next_player == v.next_player,
        v.deal(seats).started == v.started,
    decreases seats.len(),
{
    if seats.len() > 0 {
        lemma_deal(v, seats.drop_last());
        lemma_give(v.deal(seats.drop_last()), seats.last());
    }
}

fn find_two(cards: &Vec<Card>) -> (place: usize)
    ensures
        place == first_two(cards@),
{
    let mut i: usize = 0;
    while i < cards.len()
        invariant
            i <= cards.len(),
            forall|j: int| 0 <= j < i ==> (#[trigger] cards@[j]).0 != CardType::Numeric(2),
        decreases cards.len() - i,
    {
        if cards[i].0 == CardType::Numeric(2) {
            proof {
                lemma_first_two(cards@);
                let p = first_two(cards@);
                if p < i {
                    assert(cards@[p].0 != CardType::Numeric(2));
                }
            }
            return i;
        }
        i = i + 1;
    }
    proof {
        lemma_first_two(cards@);
        let p = first_two(cards@);
        if p < cards.len() {
            assert(cards@[p].0 != CardType::Numeric(2));
        }
    }
    i
}

fn rank_points(rank: &CardType) -> (r: u8)
    ensures
        r == points(*rank),
{
    match rank {
        CardType::Jack => 2,
        CardType::Queen => 3,
        CardType::King => 4,
        CardType::Numeric(x) => if *x == 1 {
            11
        } else if *x == 3 {
            10
        } else {
            0
        },
        CardType::Jolly => 0,
    }
}

fn rank_strength(rank: &CardType) -> (r: u8)
    ensures
        r == strength(*rank),
{
    match rank {
        CardType::Jack => 6,
        CardType::Queen => 7,
        CardType::King => 8,
        CardType::Numeric(x) => if *x == 1 {
            10
        } else if *x == 3 {
            9
        } else if *x == 7 {
            5
        } else if *x == 6 {
            4
        } else if *x == 5 {
            3
        } else if *x == 4 {
            2
        } else if *x == 2 {
            1
        } else {
            0
        },
        CardType::Jolly => 0,
    }
}

fn card_plays(cards: &Vec<Card>) -> (plays: Vec<(CardSuit, u8)>)
    ensures
        plays@ == plays_of(cards@, strength_fn()),
{
    let mut plays: Vec<(CardSuit, u8)> = Vec::new();
    let mut i: usize = 0;
    while i < cards.len()
        invariant
            i <= cards.len(),
            plays.len() == i,
            forall|j: int|
                0 <= j < i ==> #[trigger] plays[j] == (cards[j].1, strength(cards[j].0)),
        decreases cards.len() - i,
    {
        plays.push((cards[i].1, rank_strength(&cards[i].0)));
        i = i + 1;
    }
    assert(plays@ =~= plays_of(cards@, strength_fn()));
    plays
}

/// The points of a pile: the sum of the points of its cards.
fn pile_score(cards: &Vec<Card>) -> (r: Score)
    requires
        pile_value(cards@, points_fn()) <= 255,
    ensures
        r == (Score { numer: pile_value(cards@, points_fn()) as u8, denom: 1 }),
{
    let mut total = crate::score::zero();
    let mut i: usize = 0;
    while i < cards.len()
        invariant
            i <= cards.len(),
            pile_value(cards@, points_fn()) <= 255,
            total == (Score {
                numer: pile_value(cards@.subrange(0, i as int), points_fn()) as u8,
                denom: 1,
            }),
        decreases cards.len() - i,
    {
        proof {
            assert(cards@.subrange(0, i + 1).drop_last() =~= cards@.subrange(0, i as int));
            lemma_pile_prefix(cards@, i + 1, points_fn());
            crate::score::lemma_sum_of_wholes(
                pile_value(cards@.subrange(0, i as int), points_fn()),
                points(cards[i as int].0),
            );
        }
        total = Score::sum(total, Score::whole(rank_points(&cards[i].0)));
        i = i + 1;
    }
    assert(cards@.subrange(0, cards.len() as int) =~= cards@);
    total
}

impl Default for Briscola {
    fn default() -> (r: Self)
        ensures
            r@.wf(),
            r@.players.len() == 0,
            !r@.started,
            r@.deck.len() == 0,
    {
        let mut teams: Vec<Vec<Player>> = Vec::new();
        teams.push(Vec::new());
        teams.push(Vec::new());
        let mut won_cards: Vec<Vec<Card>> = Vec::new();
        won_cards.push(Vec::new());
        won_cards.push(Vec::new());
        let r = Briscola {
            table: Vec::new(),
            players: Vec::new(),
            in_hand: Vec::new(),
            teams,
            player_team: Vec::new(),
            won_cards,
            deck: Vec::new(),
            briscola: CardSuit::Coppe,
            next_player: None,
            started: false,
        };
        proof {
            lemma_empty_piles(r@.in_hand, points_fn());
            lemma_empty_piles(r@.won_cards, points_fn());
            assert(cards_of(r@.table) =~= Seq::<Card>::empty());
        }
        r
    }
}

impl Briscola {
    /// Takes `deck` as the deck of a game that has not begun; its bottom
    /// card shows the trump.
    pub fn init_with_deck(&mut self, deck: Vec<Card>)
        requires
            old(self)@.wf(),
            !old(self)@.started,
            is_shuffled_deck(CardDeckType::Briscola, deck@),
        ensures
            final(self)@.wf(),
            final(self)@ == old(self)@.with_deck(deck@),
    {
        proof {
            lemma_deck_points(deck@);
            lemma_empty_piles(self@.in_hand, points_fn());
            lemma_empty_piles(self@.won_cards, points_fn());
            assert(cards_of(self@.table) =~= Seq::<Card>::empty());
        }
        self.briscola = deck[0].1;
        self.deck = deck;
    }

    /// Gives the top card of the deck to the seat.
    fn give_card(&mut self, seat: usize)
        requires
            seat < old(self)@.in_hand.len(),
            old(self)@.deck.len() > 0,
        ensures
            final(self)@ == old(self)@.give(seat as int),
    {
        let card = self.deck.pop().unwrap();
        put_on_pile(&mut self.in_hand, seat, card);
    }

    /// Moves `card` from its player's hand to the table and passes the
    /// turn to the next player.
    fn play_card(&mut self, by: &Player, card: Card)
        requires
            old(self)@.wf(),
            old(self)@.next_player.is_some(),
            old(self)@.next_player.unwrap().id == by.id,
            old(self)@.hand_of(by.id).contains(card),
        ensures
            final(self)@ == old(self)@.after_play(by@, card),
            final(self)@.inv(),
            final(self)@.started,
            final(self)@.players.len() > 0,
    {
        proof {
            lemma_after_play(self@, by@, card);
        }
        let seat = find_seat(&self.players, by.id);
        proof {
            lemma_place_of(self.in_hand[seat as int]@, card);
        }
        let next = self.players[(seat + 1) % self.players.len()].clone();
        let place = find_card(&self.in_hand[seat], &card);
        take_from_pile(&mut self.in_hand, seat, place);
        self.table.push((by.clone(), card));
        self.next_player = Some(next);
        proof {
            let played = old(self)@.after_play(by@, card);
            assert(self@.table =~= played.table);
        }
    }

    /// Hands the full trick on the table to the team of its winner, lets
    /// everyone draw if the deck allows it, and gives the winner the lead.
    fn take_trick(&mut self) -> (winner: Player)
        requires
            old(self)@.inv(),
            old(self)@.started,
            old(self)@.players.len() > 0,
            old(self)@.table.len() == old(self)@.players.len(),
        ensures
            final(self)@ == old(self)@.after_trick(),
            final(self)@.wf(),
            winner@ == old(self)@.trick_taker(),
    {
        proof {
            lemma_after_trick(self@);
        }
        let cards = table_cards(&self.table);
        let plays = card_plays(&cards);
        let place = winning_play(&plays, self.briscola);
        let winner = self.table[place].0.clone();
        let seat = find_seat(&self.players, winner.id);
        let team = self.player_team[seat];
        let mut pile = copy_cards(&self.won_cards[team]);
        let mut taken = cards;
        pile.append(&mut taken);
        self.won_cards.set(team, pile);
        self.table.clear();
        let ghost cleared = self@;
        proof {
            let v = old(self)@;
            let expected = BriscolaView {
                won_cards: v.won_cards.update(
                    team as int,
                    v.won_cards[team as int] + cards_of(v.table),
                ),
                table: Seq::empty(),
                ..v
            };
            assert(cleared.won_cards =~= expected.won_cards);
            assert(cleared.table =~= expected.table);
            assert(cleared == expected);
            lemma_drawing_order(v.players, seat as int);
        }
        if self.deck.len() >= self.players.len() {
            self.draw_from(seat);
        }
        self.next_player = Some(winner.clone());
        winner
    }

    /// Lets every player draw a card, from the seat of the trick's winner
    /// on in joining order.
    fn draw_from(&mut self, seat: usize)
        requires
            old(self)@.in_hand.len() == old(self)@.players.len(),
            seat < old(self)@.players.len(),
            old(self)@.players.len() <= 4,
            old(self)@.players.len() <= old(self)@.deck.len(),
        ensures
            final(self)@ == old(self)@.deal(drawing_order(old(self)@.players, seat as int)),
    {
        let ghost start = self@;
        let ghost order = drawing_order(start.players, seat as int);
        proof {
            lemma_drawing_order(start.players, seat as int);
        }
        let n = self.players.len();
        let mut i: usize = 0;
        while i < n
            invariant
                i <= n,
                n == start.players.len(),
                n <= 4,
                seat < n,
                n <= start.deck.len(),
                start.in_hand.len() == n,
                order == drawing_order(start.players, seat as int),
                order.len() == n,
                forall|j: int| 0 <= j < n ==> 0 <= #[trigger] order[j] < n,
                self@ == start.deal(order.subrange(0, i as int)),
                self@.players == start.players,
            decreases n - i,
        {
            let receiving = (i + seat) % n;
            proof {
                let dealt = order.subrange(0, i as int);
                assert forall|j: int| 0 <= j < dealt.len() implies 0 <= #[trigger] dealt[j]
                    < start.in_hand.len() by {
                    assert(dealt[j] == order[j]);
                }
                lemma_deal(start, dealt);
                assert(order.subrange(0, i + 1).drop_last() =~= dealt);
                lemma_seat_of_member(start.players, receiving as int);
                assert(order[i as int] == seat_of(
                    start.players,
                    start.players[receiving as int].id,
                ));
            }
            let to = find_seat(&self.players, self.players[receiving].id);
            self.give_card(to);
            i = i + 1;
        }
        proof {
            assert(order.subrange(0, n as int) =~= order);
        }
    }

    /// Makes a game of three ready for the deal: the two at `place`
    /// leaves the deck and the third player gets a team of its own.
    fn split_for_three(&mut self, place: usize)
        requires
            old(self)@.wf(),
            !old(self)@.started,
            old(self)@.players.len() == 3,
            place == first_two(old(self)@.deck),
            place < old(self)@.deck.len(),
        ensures
            final(self)@ == old(self)@.split_for_three(),
            final(self)@.shape(),
            final(self)@.hands_empty(),
            final(self)@.table.len() == 0,
            final(self)@.deck.len() == 39,
            final(self)@.points_in_play() == deck_points(),
            !final(self)@.started,
    {
        self.deck.remove(place);
        self.teams.push(Vec::new());
        self.won_cards.push(Vec::new());
        let mut second = copy_players(&self.teams[1]);
        let moved = second.pop().unwrap();
        self.teams.set(1, second);
        let seat = find_seat(&self.players, moved.id);
        let mut third: Vec<Player> = Vec::new();
        third.push(moved);
        self.teams.set(2, third);
        proof {
            assert(old(self)@.teams[1][1] == moved@);
            assert(seat < 3);
        }
        self.player_team.set(seat, 2);
        proof {
            let v = old(self)@;
            let expected = v.split_for_three();
            assert(self@.teams.len() == expected.teams.len());
            assert forall|t: int| 0 <= t < expected.teams.len() implies self@.teams[t]
                =~= expected.teams[t] by {}
            assert(self@.teams =~= expected.teams);
            assert(self@.won_cards =~= expected.won_cards);
            assert(self@.player_team =~= expected.player_team);
            assert(self@ == expected);
            lemma_first_two(v.deck);
            lemma_pile_remove(v.deck, place as int, points_fn());
            lemma_piles_push(v.won_cards, Seq::empty(), points_fn());
            assert forall|t: int, m: int|
                0 <= t < expected.teams.len() && 0 <= m < expected.teams[t].len() implies seat_of(
                expected.players,
                (#[trigger] expected.teams[t][m]).id,
            ) < expected.players.len() by {
                if t == 2 {
                    assert(expected.teams[t][m] == v.teams[1][1]);
                } else {
                    assert(expected.teams[t][m] == v.teams[t][m]);
                }
            }
        }
    }

    /// Shows the trump and deals three cards to every player.
    fn deal_opening(&mut self)
        requires
            old(self)@.shape(),
            old(self)@.hands_empty(),
            old(self)@.table.len() == 0,
            !old(self)@.started,
            0 < old(self)@.players.len(),
            39 <= old(self)@.deck.len() <= 40,
            old(self)@.points_in_play() == deck_points(),
        ensures
            final(self)@ == (BriscolaView {
                started: true,
                ..(BriscolaView { briscola: old(self)@.deck[0].1, ..old(self)@ }).deal_hands(
                    old(self)@.players.len(),
                )
            }),
            final(self)@.wf(),
            final(self)@.players == old(self)@.players,
    {
        self.briscola = self.deck[0].1;
        let ghost trump = self@;
        let n = self.players.len();
        let mut i: usize = 0;
        while i < n
            invariant
                i <= n,
                n == trump.players.len(),
                0 < n <= 4,
                39 <= trump.deck.len() <= 40,
                trump.in_hand.len() == n,
                self@ == trump.deal_hands(i as nat),
            decreases n - i,
        {
            proof {
                lemma_deal_hands(trump, i as nat);
                lemma_seat_of_member(trump.players, i as int);
                let seat = seat_of(trump.players, trump.players[i as int].id);
                let a = trump.deal_hands(i as nat);
                lemma_give(a, seat);
                lemma_give(a.give(seat), seat);
            }
            let to = find_seat(&self.players, self.players[i].id);
            self.give_card(to);
            self.give_card(to);
            self.give_card(to);
            i = i + 1;
        }
        proof {
            lemma_deal_hands(trump, n as nat);
            assert(trump.points_in_play() == old(self)@.points_in_play());
        }
        self.started = true;
    }

    /// Whether every hand is empty.
    fn hands_are_empty(&self) -> (r: bool)
        ensures
            r == self@.hands_empty(),
    {
        let mut i: usize = 0;
        while i < self.in_hand.len()
            invariant
                i <= self.in_hand.len(),
                forall|j: int| 0 <= j < i ==> (#[trigger] self@.in_hand[j]).len() == 0,
            decreases self.in_hand.len() - i,
        {
            if self.in_hand[i].len() != 0 {
                assert(self@.in_hand[i as int].len() != 0);
                return false;
            }
            i = i + 1;
        }
        true
    }
}

/// Playing a card from a hand to the table keeps the points in play
/// and passes the turn to a player of the roster.
proof fn lemma_after_play(v: BriscolaView, by: PlayerView, card: Card)
    requires
        v.wf(),
        v.next_player.is_some(),
        v.next_player.unwrap().id == by.id,
        v.hand_of(by.id).contains(card),
    ensures
        v.started,
        0 <= seat_of(v.players, by.id) < v.players.len(),
        v.after_play(by, card).inv(),
        v.after_play(by, card).started,
{
    let seat = seat_of(v.players, by.id);
    let n = v.players.len() as int;
    lemma_seat_of(v.players, by.id);
    let p = v.after_play(by, card);
    let hand = v.in_hand[seat];
    let place = place_of(hand, card);
    lemma_place_of(hand, card);
    if !v.started {
        assert(v.in_hand[seat].len() == 0);
    }
    lemma_piles_update(v.in_hand, seat, hand.remove(place), points_fn());
    lemma_pile_remove(hand, place, points_fn());
    assert(cards_of(p.table) =~= cards_of(v.table).push(card));
    lemma_pile_push(cards_of(v.table), card, points_fn());
    lemma_seat_of_member(v.players, (seat + 1) % n);
    assert forall|k: int| 0 <= k < p.table.len() implies seat_of(
        p.players,
        (#[trigger] p.table[k]).0.id,
    ) < p.players.len() by {
        if k < v.table.len() {
            assert(p.table[k] == v.table[k]);
        }
    }
}

/// The seats that draw after a trick are seats of the game.
proof fn lemma_drawing_order(players: Seq<PlayerView>, winner: int)
    requires
        0 <= winner < players.len(),
    ensures
        drawing_order(players, winner).len() == players.len(),
        forall|j: int|
            0 <= j < players.len() ==> 0 <= #[trigger] drawing_order(players, winner)[j]
                < players.len(),
{
    let n = players.len() as int;
    assert forall|j: int| 0 <= j < n implies 0 <= #[trigger] drawing_order(players, winner)[j]
        < n by {
        lemma_seat_of_member(players, (j + winner) % n);
    }
}

/// Dealing the opening hands keeps the points in play; every player
/// dealt to takes three cards from the deck.
pub proof fn lemma_deal_hands(v: BriscolaView, k: nat)
    requires
        k <= v.players.len(),
        v.in_hand.len() == v.players.len(),
        3 * k <= v.deck.len(),
    ensures
        v.deal_hands(k).points_in_play() == v.points_in_play(),
        v.deal_hands(k).in_hand.len() == v.in_hand.len(),
        v.deal_hands(k).deck.len() == v.deck.len() - 3 * k,
        v.deal_hands(k).table == v.table,
        v.deal_hands(k).players == v.players,
        v.deal_hands(k).teams == v.teams,
        v.deal_hands(k).player_team == v.player_team,
        v.deal_hands(k).won_cards == v.won_cards,
        v.deal_hands(k).briscola == v.briscola,
        v.deal_hands(k).next_player == v.next_player,
        v.deal_hands(k).started == v.started,
    decreases k,
{
    if k > 0 {
        lemma_deal_hands(v, (k - 1) as nat);
        lemma_seat_of_member(v.players, k - 1);
        let seat = seat_of(v.players, v.players[k - 1].id);
        let a = v.deal_hands((k - 1) as nat);
        lemma_give(a, seat);
        lemma_give(a.give(seat), seat);
        lemma_give(a.give(seat).give(seat), seat);
    }
}

/// Handing a full trick to its winner's team and drawing keeps the game
/// well formed.
proof fn lemma_after_trick(p: BriscolaView)
    requires
        p.inv(),
        p.started,
        p.players.len() > 0,
        p.table.len() == p.players.len(),
    ensures
        seat_of(p.players, p.trick_taker().id) < p.players.len(),
        p.after_trick().wf(),
        p.after_trick().started,
{
    let cards = cards_of(p.table);
    let plays = plays_of(cards, strength_fn());
    lemma_trick_lead_in_range(plays, p.briscola, plays.len());
    lemma_seat_of(p.players, p.trick_taker().id);
    let place = trick_winner(plays, p.briscola);
    assert(0 <= place < p.table.len());
    assert(seat_of(p.players, p.table[place].0.id) < p.players.len());
    let winner = p.trick_taker();
    let seat = seat_of(p.players, winner.id);
    let team = p.player_team[seat] as int;
    let pile = p.won_cards[team] + cards;
    let taken = BriscolaView {
        won_cards: p.won_cards.update(team, pile),
        table: Seq::empty(),
        ..p
    };
    lemma_piles_update(p.won_cards, team, pile, points_fn());
    lemma_pile_concat(p.won_cards[team], cards, points_fn());
    assert(cards_of(taken.table) =~= Seq::<Card>::empty());
    assert(taken.points_in_play() == p.points_in_play());
    lemma_drawing_order(p.players, seat);
    if p.deck.len() >= p.players.len() {
        lemma_deal(taken, drawing_order(p.players, seat));
    }
}

impl Game for Briscola {
    open spec fn wf(&self) -> bool {
        self@.wf()
    }

    open spec fn roster(&self) -> Seq<PlayerView> {
        self@.players
    }

    open spec fn turn(&self) -> Option<PlayerView> {
        self@.next_player
    }

    open spec fn standings(&self) -> Seq<(Seq<PlayerView>, Score)> {
        self@.standings()
    }

    open spec fn status_text(&self) -> Seq<char> {
        self@.status_text()
    }

    open spec fn name() -> Seq<char> {
        "Briscola"@
    }

    open spec fn worth(rank: CardType) -> Score {
        Score { numer: points(rank) as u8, denom: 1 }
    }

    open spec fn strength(rank: CardType) -> u8 {
        strength(rank)
    }

    open spec fn can_init(&self) -> bool {
        !self@.started
    }

    open spec fn can_start(&self) -> bool {
        self@.can_start()
    }

    open spec fn can_move(&self, by: PlayerView, card: Card) -> bool {
        self@.can_move(by, card)
    }

    open spec fn can_report(&self) -> bool {
        true
    }

    open spec fn initialised(pre: &Self, post: &Self) -> bool {
        exists|deck: Seq<Card>|
            is_shuffled_deck(CardDeckType::Briscola, deck) && post@ == #[trigger] pre@.with_deck(
                deck,
            )
    }

    open spec fn joined(
        pre: &Self,
        player: PlayerView,
        post: &Self,
        out: Result<StatusView, Seq<char>>,
    ) -> bool {
        (post@, out) == pre@.after_join(player)
    }

    open spec fn started(pre: &Self, post: &Self, out: StatusView) -> bool {
        (post@, out) == pre@.after_start()
    }

    open spec fn moved(
        pre: &Self,
        by: PlayerView,
        card: Card,
        post: &Self,
        out: Seq<StatusView>,
    ) -> bool {
        (post@, out) == pre@.after_move(by, card)
    }

    open spec fn answer(&self, message: Seq<char>, from: PlayerView) -> Seq<StatusView> {
        seq![StatusView::NotifyRoom(from.name + " ha detto: "@ + message)]
    }

    fn get_card_rank(card: &CardType) -> (r: Score) {
        Score::whole(rank_points(card))
    }

    fn get_card_sorting_rank(card: &CardType) -> (r: u8) {
        rank_strength(card)
    }

    fn init(&mut self) {
        let deck = random_deck(CardDeckType::Briscola);
        self.init_with_deck(deck);
    }

    fn is_initialisable(&self) -> (r: bool) {
        !self.started
    }

    fn get_name(&self) -> (r: &'static str) {
        "Briscola"
    }

    fn get_card_set(&self) -> (r: CardDeckType)
        ensures
            r == CardDeckType::Briscola,
    {
        CardDeckType::Briscola
    }

    fn get_num_players(&self) -> (r: std::ops::Range<u8>)
        ensures
            r.start == 2,
            r.end == 4,
    {
        std::ops::Range { start: 2, end: 4 }
    }

    fn accepts_move(&self, by: &Player, card: &Card) -> (r: bool) {
        match &self.next_player {
            None => true,
            Some(p) => {
                if p.id != by.id {
                    return true;
                }
                let seat = find_seat(&self.players, by.id);
                proof {
                    lemma_place_of(self.in_hand[seat as int]@, *card);
                }
                if self.table.len() > 0 && card.1 != self.table[0].1.1 && has_suit(
                    &self.in_hand[seat],
                    self.table[0].1.1,
                ) {
                    return true;
                }
                find_card(&self.in_hand[seat], card) < self.in_hand[seat].len()
            },
        }
    }

    fn handle_move(&mut self, by: &Player, card: Card) -> (out: Vec<GameStatus>) {
        match &self.next_player {
            None => {
                return one_status(GameStatus::InvalidMove("La partita non è ancora iniziata"));
            },
            Some(p) => {
                if p.id != by.id {
                    return one_status(GameStatus::InvalidMove("Non è ancora il tuo turno!"));
                }
            },
        }
        let seat = find_seat(&self.players, by.id);
        if self.table.len() > 0 && card.1 != self.table[0].1.1 && has_suit(
            &self.in_hand[seat],
            self.table[0].1.1,
        ) {
            return two_statuses(
                GameStatus::InvalidMove("Devi giocare una carta dello stesso seme della prima!"),
                GameStatus::WaitingForChoice(by.clone(), copy_cards(&self.in_hand[seat])),
            );
        }
        self.play_card(by, card);
        if self.table.len() == self.players.len() {
            let winner = self.take_trick();
            let ended = self.hands_are_empty();
            let seat = find_seat(&self.players, winner.id);
            let hand = copy_cards(&self.in_hand[seat]);
            let mut out: Vec<GameStatus> = Vec::new();
            out.push(GameStatus::CardPlayed(by.clone(), card));
            out.push(GameStatus::WaitingForChoice(winner.clone(), hand));
            out.push(GameStatus::RoundWon(winner));
            if ended {
                out.push(GameStatus::GameEnded);
            }
            proof {
                let told = seq![
                    StatusView::CardPlayed(by@, card),
                    StatusView::WaitingForChoice(winner@, self@.hand_of(winner.id)),
                    StatusView::RoundWon(winner@),
                ];
                if ended {
                    assert(statuses_view(out@) =~= told.push(StatusView::GameEnded));
                } else {
                    assert(statuses_view(out@) =~= told);
                }
            }
            out
        } else {
            let next = match &self.next_player {
                Some(p) => p.clone(),
                None => by.clone(),
            };
            let seat = find_seat(&self.players, next.id);
            let hand = copy_cards(&self.in_hand[seat]);
            two_statuses(
                GameStatus::WaitingForChoice(next.clone(), hand),
                GameStatus::InProgress(next),
            )
        }
    }

    fn add_player(&mut self, player: Player) -> (out: Result<GameStatus, &'static str>) {
        if self.deck.len() < 40 {
            return Err("Non è possibile aggiungersi ad una partita già cominciata!");
        }
        if self.players.len() >= 4 {
            return Err("Il gioco è pieno");
        }
        if self.players.len() == 0 {
            self.next_player = Some(player.clone());
        }
        self.players.push(player.clone());
        let team = self.players.len() % 2;
        let seat = find_seat(&self.players, player.id);
        proof {
            lemma_seat_of_push(old(self)@.players, player@, player.id);
            lemma_seat_of(old(self)@.players, player.id);
            assert(self@.players =~= old(self)@.players.push(player@));
        }
        self.in_hand.push(Vec::new());
        self.in_hand.set(seat, Vec::new());
        let mut members = copy_players(&self.teams[team]);
        members.push(player.clone());
        self.teams.set(team, members);
        self.player_team.push(team);
        self.player_team.set(seat, team);
        proof {
            let before = old(self)@;
            let after = before.after_join(player@).0;
            assert(self@.in_hand =~= after.in_hand);
            assert(self@.teams =~= after.teams) by {
                assert(self@.teams.len() == after.teams.len());
                assert forall|t: int| 0 <= t < after.teams.len() implies self@.teams[t]
                    =~= after.teams[t] by {}
            }
            assert(self@.player_team =~= after.player_team);
            assert(self@ == after);
            lemma_empty_piles(after.in_hand, points_fn());
            lemma_empty_piles(before.in_hand, points_fn());
            assert forall|k: int| 0 <= k < before.players.len() + 1 implies seat_of(
                after.players,
                #[trigger] after.players[k].id,
            ) < after.players.len() by {
                lemma_seat_of_member(after.players, k);
            }
            if before.next_player.is_some() {
                lemma_seat_of_push(before.players, player@, before.next_player.unwrap().id);
            }
            assert forall|t: int, m: int|
                0 <= t < after.teams.len() && 0 <= m < after.teams[t].len() implies seat_of(
                after.players,
                (#[trigger] after.teams[t][m]).id,
            ) < after.players.len() by {
                if t == team && m == before.teams[t].len() {
                    assert(after.teams[t][m] == player@);
                } else {
                    assert(after.teams[t][m] == before.teams[t][m]);
                    lemma_seat_of_push(before.players, player@, before.teams[t][m].id);
                }
            }
        }
        Ok(GameStatus::WaitingForPlayers(self.players.len() >= 2, player))
    }

    fn get_next_player(&self) -> (r: Option<Player>) {
        match &self.next_player {
            Some(p) => Some(p.clone()),
            None => None,
        }
    }

    fn start(&mut self) -> (out: GameStatus) {
        if self.started {
            return GameStatus::InvalidMove("Il gioco è già iniziato, non puoi farlo reiniziare!");
        }
        if self.players.len() == 3 {
            let two = find_two(&self.deck);
            if two >= self.deck.len() {
                return GameStatus::GameEnded;
            }
            self.split_for_three(two);
        }
        self.deal_opening();
        let hand = copy_cards(&self.in_hand[0]);
        let out = GameStatus::WaitingForChoice(self.players[0].clone(), hand);
        proof {
            lemma_seat_of_member(self@.players, 0);
            let expected = old(self)@.after_start();
            assert(self@.players == old(self)@.players);
            assert(self@ == expected.0);
            assert(self@.hand_of(self@.players[0].id) == self.in_hand[0]@);
            assert(out@ == expected.1);
        }
        out
    }

    fn is_startable(&self) -> (r: bool) {
        self.started || self.players.len() > 0
    }

    fn get_scores(&self) -> (r: Vec<(Vec<Player>, Score)>) {
        let mut r: Vec<(Vec<Player>, Score)> = Vec::new();
        let mut team: usize = 0;
        while team < self.teams.len()
            invariant
                team <= self.teams.len(),
                self@.wf(),
                r.len() == team,
                forall|j: int|
                    0 <= j < team ==> (roster_view((#[trigger] r[j]).0@), r[j].1)
                        == self@.standings()[j],
            decreases self.teams.len() - team,
        {
            proof {
                lemma_piles_bound(self@.won_cards, team as int, points_fn());
            }
            let total = pile_score(&self.won_cards[team]);
            r.push((copy_players(&self.teams[team]), total));
            team = team + 1;
        }
        assert(standings_view(r@) =~= self@.standings());
        r
    }

    fn get_status(&self) -> (r: String) {
        let scores = self.get_scores();
        let trump = suit_string(&self.briscola);
        let turn = match &self.next_player {
            Some(p) => p.name.clone(),
            None => String::new(),
        };
        proof {
            assert(standings_view(scores@).len() == scores.len());
            assert forall|i: int| 0 <= i < scores.len() implies (#[trigger] scores[i]).1.denom
                != 0 by {
                assert(standings_view(scores@)[i] == self@.standings()[i]);
            }
        }
        report("Briscola", &scores, trump.as_str(), turn.as_str(), &self.table)
    }

    fn is_reportable(&self) -> (r: bool) {
        true
    }

    fn get_players(&self) -> (r: Vec<Player>) {
        copy_players(&self.players)
    }

    fn get_new_instance(&self) -> (r: Self) {
        Self::default()
    }

    fn handle_message(&self, message: String, from: Player) -> (out: Vec<GameStatus>) {
        let mut text = from.name.clone();
        text.append(" ha detto: ");
        text.append(message.as_str());
        one_status(GameStatus::NotifyRoom(text))
    }
}

/// The led suit has to be followed: from a player who holds a card of
/// that suit no card of another suit is taken. The game stays as it is,
/// the player's hand included, and the player whose turn it is is asked
/// again with the same hand.
pub proof fn lemma_must_follow_suit(game: BriscolaView, by: PlayerView, card: Card)
    requires
        game.wf(),
        game.table.len() > 0,
        card.1 != game.lead_suit(),
        holds_suit(game.hand_of(by.id), game.lead_suit()),
    ensures
        game.after_move(by, card).0 == game,
        game.after_move(by, card).1[0] is InvalidMove,
        game.is_turn_of(by.id) ==> game.after_move(by, card).1 == seq![
            StatusView::InvalidMove("Devi giocare una carta dello stesso seme della prima!"@),
            StatusView::WaitingForChoice(by, game.hand_of(by.id)),
        ],
{
}

/// What a move does depends on nothing but the game, the player and the
/// card: two games with the same value, asked for the same move, tell
/// the players the same and have the same value afterwards.
pub proof fn lemma_move_is_determined(
    first: Briscola,
    second: Briscola,
    by: PlayerView,
    card: Card,
    first_after: Briscola,
    first_told: Seq<StatusView>,
    second_after: Briscola,
    second_told: Seq<StatusView>,
)
    requires
        first@ == second@,
        Briscola::moved(&first, by, card, &first_after, first_told),
        Briscola::moved(&second, by, card, &second_after, second_told),
    ensures
        first_after@ == second_after@,
        first_told == second_told,
{
}

/// Out of turn nobody moves: the player gets one refusal, and nothing
/// changes.
pub proof fn lemma_out_of_turn(game: BriscolaView, by: PlayerView, card: Card)
    requires
        game.wf(),
        game.next_player.is_some(),
        game.next_player.unwrap().id != by.id,
    ensures
        game.after_move(by, card) == (
            game,
            seq![StatusView::InvalidMove("Non è ancora il tuo turno!"@)],
        ),
{
}

/// Play begins once: a start that deals the cards marks the game as
/// begun, and a start of a game that has begun changes nothing and is
/// refused.
pub proof fn lemma_start_is_idempotent(game: BriscolaView)
    requires
        game.wf(),
        game.can_start(),
    ensures
        game.after_start().1 is WaitingForChoice ==> game.after_start().0.started,
        game.started ==> game.after_start().0 == game && game.after_start().1 is InvalidMove,
        game.after_start().0.started ==> game.after_start().0.after_start().0
            == game.after_start().0 && game.after_start().0.after_start().1 is InvalidMove,
{
}

/// The teams never hold more points than the deck has.
pub proof fn lemma_points_are_bounded(game: BriscolaView)
    requires
        game.wf(),
    ensures
        piles_value(game.won_cards, points_fn()) <= deck_points(),
        forall|team: int|
            0 <= team < game.won_cards.len() ==> pile_value(
                #[trigger] game.won_cards[team],
                points_fn(),
            ) <= deck_points(),
{
    assert forall|team: int| 0 <= team < game.won_cards.len() implies pile_value(
        #[trigger] game.won_cards[team],
        points_fn(),
    ) <= deck_points() by {
        lemma_piles_bound(game.won_cards, team, points_fn());
    }
}

/// No point is ever lost: once the game is over, with no card left in
/// the deck, in a hand or on the table, the teams hold all the points of
/// the deck between them.
pub proof fn lemma_all_points_are_won(game: BriscolaView)
    requires
        game.wf(),
        game.started,
        game.deck.len() == 0,
        game.table.len() == 0,
        game.hands_empty(),
    ensures
        piles_value(game.won_cards, points_fn()) == deck_points(),
{
    lemma_empty_piles(game.in_hand, points_fn());
    assert(cards_of(game.table) =~= Seq::<Card>::empty());
}

/// Whether no two seats belong to the same player.
pub open spec fn seats_are_distinct(players: Seq<PlayerView>) -> bool {
    forall|i: int| 0 <= i < players.len() ==> seat_of(players, (#[trigger] players[i]).id) == i
}

/// Where every seat belongs to another player, the opening deal gives
/// each of the first `k` players the next three cards from the top of the
/// deck, in joining order, and leaves the other hands as they were.
pub proof fn lemma_opening_hands(game: BriscolaView, k: nat)
    requires
        k <= game.players.len(),
        game.in_hand.len() == game.players.len(),
        3 * k <= game.deck.len(),
        seats_are_distinct(game.players),
        game.hands_empty(),
    ensures
        ({
            let dealt = game.deal_hands(k);
            let top = game.deck.len();
            &&& dealt.in_hand.len() == game.in_hand.len()
            &&& dealt.deck == game.deck.subrange(0, top - 3 * k)
            &&& forall|seat: int|
                0 <= seat < k ==> #[trigger] dealt.in_hand[seat] == seq![
                    game.deck[top - 1 - 3 * seat],
                    game.deck[top - 2 - 3 * seat],
                    game.deck[top - 3 - 3 * seat],
                ]
            &&& forall|seat: int|
                k <= seat < game.in_hand.len() ==> (#[trigger] dealt.in_hand[seat]).len() == 0
        }),
    decreases k,
{
    let top = game.deck.len();
    if k == 0 {
        assert(game.deck.subrange(0, top as int) =~= game.deck);
    } else {
        lemma_opening_hands(game, (k - 1) as nat);
        let before = game.deal_hands((k - 1) as nat);
        let seat = seat_of(game.players, game.players[k - 1].id);
        assert(seat == k - 1);
        let one = before.give(seat);
        let two = one.give(seat);
        let three = two.give(seat);
        assert(three == game.deal_hands(k));
        assert(before.in_hand[seat].len() == 0);
        assert(three.deck =~= game.deck.subrange(0, top - 3 * k));
        assert(three.in_hand[seat] =~= seq![
            game.deck[top - 1 - 3 * seat],
            game.deck[top - 2 - 3 * seat],
            game.deck[top - 3 - 3 * seat],
        ]);
        assert forall|other: int| 0 <= other < k implies #[trigger] three.in_hand[other] == seq![
            game.deck[top - 1 - 3 * other],
            game.deck[top - 2 - 3 * other],
            game.deck[top - 3 - 3 * other],
        ] by {
            if other != seat {
                assert(three.in_hand[other] == before.in_hand[other]);
            }
        }
        assert forall|other: int| k <= other < game.in_hand.len() implies (
        #[trigger] three.in_hand[other]).len() == 0 by {
            assert(three.in_hand[other] == before.in_hand[other]);
        }
    }
}

/// Where every seat belongs to another player, the draw after a trick
/// gives the winner the top card of the deck and every player after the
/// winner, in joining order, the next one.
pub proof fn lemma_drawn_cards(game: BriscolaView, winner: int, k: nat)
    requires
        0 <= winner < game.players.len(),
        k <= game.players.len(),
        game.in_hand.len() == game.players.len(),
        k <= game.deck.len(),
        seats_are_distinct(game.players),
    ensures
        ({
            let n = game.players.len() as int;
            let drawn = game.deal(drawing_order(game.players, winner).subrange(0, k as int));
            let top = game.deck.len();
            &&& drawn.in_hand.len() == game.in_hand.len()
            &&& drawn.deck == game.deck.subrange(0, top - k)
            &&& forall|i: int|
                0 <= i < k ==> #[trigger] drawn.in_hand[(winner + i) % n] == game.in_hand[(winner
                    + i) % n].push(game.deck[top - 1 - i])
            &&& forall|i: int|
                k <= i < n ==> #[trigger] drawn.in_hand[(winner + i) % n] == game.in_hand[(winner
                    + i) % n]
        }),
    decreases k,
{
    let n = game.players.len() as int;
    let order = drawing_order(game.players, winner);
    let top = game.deck.len();
    if k == 0 {
        assert(order.subrange(0, 0) =~= Seq::<int>::empty());
        assert(game.deck.subrange(0, top as int) =~= game.deck);
    } else {
        lemma_drawn_cards(game, winner, (k - 1) as nat);
        let seats = order.subrange(0, k as int);
        assert(seats.drop_last() =~= order.subrange(0, k - 1));
        let before = game.deal(order.subrange(0, k - 1));
        let seat = (k - 1 + winner) % n;
        assert(seats.last() == seat_of(game.players, game.players[seat].id));
        assert(seats.last() == seat);
        let drawn = before.give(seat);
        assert(drawn == game.deal(seats));
        assert(drawn.deck =~= game.deck.subrange(0, top - k));
        assert forall|i: int| 0 <= i < n implies #[trigger] ((winner + i) % n) == seat <==> i == k
            - 1 by {
            lemma_rotation(winner, i, k - 1, n);
        }
        assert forall|i: int| 0 <= i < k implies #[trigger] drawn.in_hand[(winner + i) % n]
            == game.in_hand[(winner + i) % n].push(game.deck[top - 1 - i]) by {
            if i < k - 1 {
                assert(((winner + i) % n) != seat);
                assert(drawn.in_hand[(winner + i) % n] == before.in_hand[(winner + i) % n]);
            } else {
                assert(before.in_hand[(winner + i) % n] == game.in_hand[(winner + i) % n]);
            }
        }
        assert forall|i: int| k <= i < n implies #[trigger] drawn.in_hand[(winner + i) % n]
            == game.in_hand[(winner + i) % n] by {
            assert(((winner + i) % n) != seat);
            assert(drawn.in_hand[(winner + i) % n] == before.in_hand[(winner + i) % n]);
        }
    }
}

/// Two places of a round that begins at some seat are the same seat only
/// if they are the same place.
proof fn lemma_rotation(start: int, i: int, j: int, n: int)
    requires
        0 <= start < n,
        0 <= i < n,
        0 <= j < n,
    ensures
        ((start + i) % n == (j + start) % n) <==> i == j,
{
    let a = start + i;
    let b = j + start;
    assert(a % n == if a < n {
        a
    } else {
        a - n
    }) by (nonlinear_arith)
        requires
            0 <= a < 2 * n,
            n > 0,
    ;
    assert(b % n == if b < n {
        b
    } else {
        b - n
    }) by (nonlinear_arith)
        requires
            0 <= b < 2 * n,
            n > 0,
    ;
}

} // verus!
