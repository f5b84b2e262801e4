//! Scala 40, as far as it is written: the deck, the roster and the worth
//! of the cards. There are no rules of play yet.

use crate::primitives::{
    one_status, statuses_view, Card, CardDeckType, CardType, GameStatus, Player, PlayerView,
    StatusView,
};
use crate::primitives::roster_view;
use crate::score::Score;
use vstd::prelude::*;

verus! {

/// A table of Scala 40.
#[derive(Debug)]
pub struct Scala40 {
    discarded: Vec<Card>,
    players: Vec<Player>,
    in_hand: Vec<Vec<Card>>,
    started: bool,
}

/// Mathematical value of a table of [`Scala40`].
pub struct Scala40View {
    /// The players, in the order in which they joined.
    pub players: Seq<PlayerView>,
    /// Whether play has begun.
    pub started: bool,
}

/// The worth and the strength of a rank: the number on a numeric card,
/// ten for a figure, nothing for a joker.
pub open spec fn strength(rank: CardType) -> u8 {
    match rank {
        CardType::Numeric(x) => x,
        CardType::King => 10,
        CardType::Queen => 10,
        CardType::Jack => 10,
        CardType::Jolly => 0,
    }
}

impl Scala40View {
    /// The table after `player` has asked to join, and the answer.
    pub open spec fn after_join(self, player: PlayerView) -> (
        Scala40View,
        Result<StatusView, Seq<char>>,
    ) {
        if self.started {
            (self, Err("Game has already been started"@))
        } else if self.players.len() < 6 {
            (
                Scala40View { players: self.players.push(player), ..self },
                Ok(StatusView::WaitingForPlayers(self.players.len() + 1 >= 2, player)),
            )
        } else {
            (self, Err("The game is full"@))
        }
    }
}

impl View for Scala40 {
    type V = Scala40View;

    closed spec fn view(&self) -> Scala40View {
        Scala40View { players: roster_view(self.players@), started: self.started }
    }
}

impl Default for Scala40 {
    fn default() -> (r: Self)
        ensures
            r@.players.len() == 0,
            !r@.started,
    {
        Scala40 {
            discarded: Vec::new(),
            players: Vec::new(),
            in_hand: Vec::new(),
            started: false,
        }
    }
}

impl Scala40 {
    /// Whether somebody has won: never, as long as there are no rules.
    pub fn game_has_been_won(&self) -> (r: bool)
        ensures
            !r,
    {
        false
    }

    /// Whether the card can go on one of the player's runs: never, as
    /// long as there are no rules.
    pub fn is_card_stackable(&self, player: Player, card: Card) -> (r: bool)
        ensures
            !r,
    {
        false
    }

    /// Nothing has to be prepared.
    pub fn init(&mut self)
        ensures
            final(self)@ == old(self)@,
    {
    }

    /// The game's name.
    pub fn get_name(&self) -> (r: &'static str)
        ensures
            r@ == "Scala 40"@,
    {
        "Scala 40"
    }

    /// The deck the game is played with.
    pub fn get_card_set(&self) -> (r: CardDeckType)
        ensures
            r == CardDeckType::Poker,
    {
        CardDeckType::Poker
    }

    /// The smallest and the largest number of players.
    pub fn get_num_players(&self) -> (r: std::ops::Range<u8>)
        ensures
            r.start == 2,
            r.end == 6,
    {
        std::ops::Range { start: 2, end: 6 }
    }

    /// The points that a card of this rank is worth.
    pub fn get_card_rank(card: &CardType) -> (r: Score)
        ensures
            r == (Score { numer: strength(*card), denom: 1 }),
    {
        Score::whole(Self::get_card_sorting_rank(card))
    }

    /// How strong a card of this rank is.
    pub fn get_card_sorting_rank(card: &CardType) -> (r: u8)
        ensures
            r == strength(*card),
    {
        match card {
            CardType::Numeric(x) => *x,
            CardType::King => 10,
            CardType::Queen => 10,
            CardType::Jack => 10,
            CardType::Jolly => 0,
        }
    }

    /// Adds a player to the roster, unless play has begun or six are
    /// there already.
    pub fn add_player(&mut self, player: Player) -> (out: Result<GameStatus, &'static str>)
        ensures
            (
                final(self)@,
                match out {
                    Ok(status) => Ok(status@),
                    Err(reason) => Err(reason@),
                },
            ) == old(self)@.after_join(player@),
    {
        if self.started {
            Err("Game has already been started")
        } else if self.players.len() < 6 {
            let shown = player.clone();
            self.players.push(player);
            assert(self@.players =~= old(self)@.players.push(player@));
            Ok(GameStatus::WaitingForPlayers(self.players.len() >= 2, shown))
        } else {
            Err("The game is full")
        }
    }

    /// Tells the table what a player wrote.
    pub fn handle_message(&self, message: String, from: Player) -> (out: Vec<GameStatus>)
        ensures
            statuses_view(out@) == seq![
                StatusView::NotifyRoom(from@.name + " ha detto: "@ + message@),
            ],
    {
        let mut text = from.name.clone();
        text.append(" ha detto: ");
        text.append(message.as_str());
        one_status(GameStatus::NotifyRoom(text))
    }
}

} // verus!
