//! Cards, players and the status values exchanged between a rule engine
//! and the session that hosts it.

use crate::score::Score;
use vstd::prelude::*;

verus! {

/// The physical deck a game is played with.
#[derive(Clone, Copy, PartialEq, Eq, Structural, Debug)]
pub enum CardDeckType {
    Briscola,
    Poker,
}

/// The rank printed on a card.
#[derive(Clone, Copy, PartialEq, Eq, Structural, Debug)]
pub enum CardType {
    Numeric(u8),
    King,
    Queen,
    Jack,
    Jolly,
}

/// The four suits of the regional deck.
#[derive(Clone, Copy, PartialEq, Eq, Structural, Debug)]
pub enum CardSuit {
    Spade,
    Coppe,
    Denari,
    Bastoni,
}

pub type Card = (CardType, CardSuit);

pub type CardDeck = Vec<Card>;

/// Executable equality of two cards.
pub fn same_card(a: &Card, b: &Card) -> (r: bool)
    ensures
        r == (*a == *b),
{
    a.0 == b.0 && a.1 == b.1
}

/// A participant, identified by `id`; `name` is only for display.
#[derive(Debug)]
pub struct Player {
    pub id: i64,
    pub name: String,
}

/// Mathematical value of a [`Player`].
pub struct PlayerView {
    pub id: i64,
    pub name: Seq<char>,
}

impl View for Player {
    type V = PlayerView;

    open spec fn view(&self) -> PlayerView {
        PlayerView { id: self.id, name: self.name@ }
    }
}

impl DeepView for Player {
    type V = PlayerView;

    open spec fn deep_view(&self) -> PlayerView {
        self@
    }
}

impl Clone for Player {
    fn clone(&self) -> (r: Self)
        ensures
            r == *self,
    {
        Player { id: self.id, name: self.name.clone() }
    }
}

impl PartialEq for Player {
    fn eq(&self, other: &Self) -> (r: bool) {
        self.id == other.id
    }
}

impl Eq for Player {}

impl vstd::std_specs::cmp::PartialEqSpecImpl for Player {
    open spec fn obeys_eq_spec() -> bool {
        true
    }

    open spec fn eq_spec(&self, other: &Self) -> bool {
        self.id == other.id
    }
}

/// Copies a list of cards.
pub fn copy_cards(cards: &Vec<Card>) -> (r: Vec<Card>)
    ensures
        r@ == cards@,
{
    let mut out: Vec<Card> = Vec::new();
    let mut i: usize = 0;
    while i < cards.len()
        invariant
            i <= cards.len(),
            out@ == cards@.subrange(0, i as int),
        decreases cards.len() - i,
    {
        out.push(cards[i]);
        i = i + 1;
        assert(out@ =~= cards@.subrange(0, i as int));
    }
    assert(cards@.subrange(0, cards.len() as int) =~= cards@);
    out
}

/// Copies a list of players.
pub fn copy_players(players: &Vec<Player>) -> (r: Vec<Player>)
    ensures
        r@ == players@,
{
    let mut out: Vec<Player> = Vec::new();
    let mut i: usize = 0;
    while i < players.len()
        invariant
            i <= players.len(),
            out@ == players@.subrange(0, i as int),
        decreases players.len() - i,
    {
        out.push(players[i].clone());
        i = i + 1;
        assert(out@ =~= players@.subrange(0, i as int));
    }
    assert(players@.subrange(0, players.len() as int) =~= players@);
    out
}

/// The views of a list of players, in order.
pub open spec fn roster_view(players: Seq<Player>) -> Seq<PlayerView> {
    Seq::new(players.len(), |i: int| players[i]@)
}

/// What a rule-engine transition reports to the session that hosts it.
#[derive(Debug)]
pub enum GameStatus {
    RoundWon(Player),
    GameEnded,
    InProgress(Player),
    WaitingForPlayers(bool, Player),
    WaitingForChoice(Player, Vec<Card>),
    InvalidMove(&'static str),
    WaitingForChoiceCustomMessage(Player, Vec<Card>, &'static str),
    NotifyUser(Player, String),
    NotifyRoom(String),
    CardPlayed(Player, Card),
}

/// Mathematical value of a [`GameStatus`].
pub enum StatusView {
    RoundWon(PlayerView),
    GameEnded,
    InProgress(PlayerView),
    WaitingForPlayers(bool, PlayerView),
    WaitingForChoice(PlayerView, Seq<Card>),
    InvalidMove(Seq<char>),
    WaitingForChoiceCustomMessage(PlayerView, Seq<Card>, Seq<char>),
    NotifyUser(PlayerView, Seq<char>),
    NotifyRoom(Seq<char>),
    CardPlayed(PlayerView, Card),
}

impl View for GameStatus {
    type V = StatusView;

    open spec fn view(&self) -> StatusView {
        match *self {
            GameStatus::RoundWon(p) => StatusView::RoundWon(p@),
            GameStatus::GameEnded => StatusView::GameEnded,
            GameStatus::InProgress(p) => StatusView::InProgress(p@),
            GameStatus::WaitingForPlayers(ready, p) => StatusView::WaitingForPlayers(ready, p@),
            GameStatus::WaitingForChoice(p, cards) => StatusView::WaitingForChoice(p@, cards@),
            GameStatus::InvalidMove(reason) => StatusView::InvalidMove(reason@),
            GameStatus::WaitingForChoiceCustomMessage(p, cards, prompt) =>
                StatusView::WaitingForChoiceCustomMessage(p@, cards@, prompt@),
            GameStatus::NotifyUser(p, text) => StatusView::NotifyUser(p@, text@),
            GameStatus::NotifyRoom(text) => StatusView::NotifyRoom(text@),
            GameStatus::CardPlayed(p, card) => StatusView::CardPlayed(p@, card),
        }
    }
}

impl DeepView for GameStatus {
    type V = StatusView;

    open spec fn deep_view(&self) -> StatusView {
        self@
    }
}

impl Clone for GameStatus {
    fn clone(&self) -> (r: Self)
        ensures
            r@ == self@,
    {
        match self {
            GameStatus::RoundWon(p) => GameStatus::RoundWon(p.clone()),
            GameStatus::GameEnded => GameStatus::GameEnded,
            GameStatus::InProgress(p) => GameStatus::InProgress(p.clone()),
            GameStatus::WaitingForPlayers(ready, p) => GameStatus::WaitingForPlayers(
                *ready,
                p.clone(),
            ),
            GameStatus::WaitingForChoice(p, cards) => GameStatus::WaitingForChoice(
                p.clone(),
                copy_cards(cards),
            ),
            GameStatus::InvalidMove(reason) => GameStatus::InvalidMove(*reason),
            GameStatus::WaitingForChoiceCustomMessage(p, cards, prompt) =>
                GameStatus::WaitingForChoiceCustomMessage(p.clone(), copy_cards(cards), *prompt),
            GameStatus::NotifyUser(p, text) => GameStatus::NotifyUser(p.clone(), text.clone()),
            GameStatus::NotifyRoom(text) => GameStatus::NotifyRoom(text.clone()),
            GameStatus::CardPlayed(p, card) => GameStatus::CardPlayed(p.clone(), *card),
        }
    }
}

impl GameStatus {
    /// Whether this status announces the end of the game.
    pub fn is_game_ended(&self) -> (r: bool)
        ensures
            r == (self@ == StatusView::GameEnded),
    {
        match self {
            GameStatus::GameEnded => true,
            _ => false,
        }
    }
}

/// The views of a list of statuses, in order.
pub open spec fn statuses_view(statuses: Seq<GameStatus>) -> Seq<StatusView> {
    Seq::new(statuses.len(), |i: int| statuses[i]@)
}

/// The views of the cards on a table, each with who played it.
pub open spec fn table_view(table: Seq<(Player, Card)>) -> Seq<(PlayerView, Card)> {
    Seq::new(table.len(), |i: int| (table[i].0@, table[i].1))
}

/// The views of a list of teams with their scores.
pub open spec fn standings_view(standings: Seq<(Vec<Player>, Score)>) -> Seq<
    (Seq<PlayerView>, Score),
> {
    Seq::new(standings.len(), |i: int| (roster_view(standings[i].0@), standings[i].1))
}

/// The list of one status.
pub fn one_status(a: GameStatus) -> (r: Vec<GameStatus>)
    ensures
        statuses_view(r@) == seq![a@],
{
    let mut r: Vec<GameStatus> = Vec::new();
    r.push(a);
    assert(statuses_view(r@) =~= seq![a@]);
    r
}

/// The list of two statuses.
pub fn two_statuses(a: GameStatus, b: GameStatus) -> (r: Vec<GameStatus>)
    ensures
        statuses_view(r@) == seq![a@, b@],
{
    let mut r: Vec<GameStatus> = Vec::new();
    r.push(a);
    r.push(b);
    assert(statuses_view(r@) =~= seq![a@, b@]);
    r
}

/// The list of three statuses.
pub fn three_statuses(a: GameStatus, b: GameStatus, c: GameStatus) -> (r: Vec<GameStatus>)
    ensures
        statuses_view(r@) == seq![a@, b@, c@],
{
    let mut r: Vec<GameStatus> = Vec::new();
    r.push(a);
    r.push(b);
    r.push(c);
    assert(statuses_view(r@) =~= seq![a@, b@, c@]);
    r
}

/// A turn-based card game for a fixed roster.
///
/// The spec functions are the game's model; every executable method
/// states over them what it returns and how it changes the game. A method
/// whose precondition names `can_init`, `can_start`, `can_move` or
/// `can_report` has an executable test for that condition beside it.
pub trait Game: Sized {
    /// The invariant of the game's state.
    spec fn wf(&self) -> bool;

    /// The players, in the order in which they joined.
    spec fn roster(&self) -> Seq<PlayerView>;

    /// The player whose turn it is.
    spec fn turn(&self) -> Option<PlayerView>;

    /// Each team with its score.
    spec fn standings(&self) -> Seq<(Seq<PlayerView>, Score)>;

    /// The summary that `get_status` writes.
    spec fn status_text(&self) -> Seq<char>;

    /// The game's name.
    spec fn name() -> Seq<char>;

    /// The points that a card of this rank is worth.
    spec fn worth(rank: CardType) -> Score;

    /// How strong a card of this rank is when tricks are resolved.
    spec fn strength(rank: CardType) -> u8;

    /// Whether `init` may be called.
    spec fn can_init(&self) -> bool;

    /// Whether `start` may be called.
    spec fn can_start(&self) -> bool;

    /// Whether `handle_move` may be called with this player and card.
    spec fn can_move(&self, by: PlayerView, card: Card) -> bool;

    /// Whether `get_scores` and `get_status` may be called.
    spec fn can_report(&self) -> bool;

    /// What `init` may turn `pre` into.
    spec fn initialised(pre: &Self, post: &Self) -> bool;

    /// What `add_player` does.
    spec fn joined(
        pre: &Self,
        player: PlayerView,
        post: &Self,
        out: Result<StatusView, Seq<char>>,
    ) -> bool;

    /// What `start` may do.
    spec fn started(pre: &Self, post: &Self, out: StatusView) -> bool;

    /// What `handle_move` does.
    spec fn moved(
        pre: &Self,
        by: PlayerView,
        card: Card,
        post: &Self,
        out: Seq<StatusView>,
    ) -> bool;

    /// What `handle_message` answers.
    spec fn answer(&self, message: Seq<char>, from: PlayerView) -> Seq<StatusView>;

    /// Prepares a new instance for play.
    fn init(&mut self)
        requires
            old(self).wf(),
            old(self).can_init(),
        ensures
            final(self).wf(),
            final(self).roster() == old(self).roster(),
            final(self).turn() == old(self).turn(),
            Self::initialised(old(self), final(self)),
    ;

    /// Whether `init` may be called.
    fn is_initialisable(&self) -> (r: bool)
        requires
            self.wf(),
        ensures
            r == self.can_init(),
    ;

    /// The game's name.
    fn get_name(&self) -> (r: &'static str)
        ensures
            r@ == Self::name(),
    ;

    /// The deck the game is played with.
    fn get_card_set(&self) -> CardDeckType;

    /// The smallest and the largest number of players.
    fn get_num_players(&self) -> std::ops::Range<u8>;

    /// Plays `card` for `by`, if the rules allow it.
    fn handle_move(&mut self, by: &Player, card: Card) -> (out: Vec<GameStatus>)
        requires
            old(self).wf(),
            old(self).can_move(by@, card),
        ensures
            final(self).wf(),
            Self::moved(old(self), by@, card, final(self), statuses_view(out@)),
    ;

    /// Whether `handle_move` may be called with this player and card.
    fn accepts_move(&self, by: &Player, card: &Card) -> (r: bool)
        requires
            self.wf(),
        ensures
            r == self.can_move(by@, *card),
    ;

    /// The points that a card of this rank is worth.
    fn get_card_rank(card: &CardType) -> (r: Score)
        ensures
            r == Self::worth(*card),
    ;

    /// How strong a card of this rank is when tricks are resolved.
    fn get_card_sorting_rank(card: &CardType) -> (r: u8)
        ensures
            r == Self::strength(*card),
    ;

    /// Adds a player to the roster, unless the game is full or has begun.
    fn add_player(&mut self, player: Player) -> (out: Result<GameStatus, &'static str>)
        requires
            old(self).wf(),
        ensures
            final(self).wf(),
            Self::joined(
                old(self),
                player@,
                final(self),
                match out {
                    Ok(status) => Ok(status@),
                    Err(reason) => Err(reason@),
                },
            ),
    ;

    /// The player whose turn it is.
    fn get_next_player(&self) -> (r: Option<Player>)
        requires
            self.wf(),
        ensures
            match r {
                Some(p) => self.turn() == Some(p@),
                None => self.turn().is_none(),
            },
    ;

    /// Deals the cards and opens play; refused once play has begun.
    fn start(&mut self) -> (out: GameStatus)
        requires
            old(self).wf(),
            old(self).can_start(),
        ensures
            final(self).wf(),
            Self::started(old(self), final(self), out@),
    ;

    /// Whether `start` may be called.
    fn is_startable(&self) -> (r: bool)
        requires
            self.wf(),
        ensures
            r == self.can_start(),
    ;

    /// Each team with its score.
    fn get_scores(&self) -> (r: Vec<(Vec<Player>, Score)>)
        requires
            self.wf(),
            self.can_report(),
        ensures
            standings_view(r@) == self.standings(),
    ;

    /// A summary of the whole game for the players.
    fn get_status(&self) -> (r: String)
        requires
            self.wf(),
            self.can_report(),
        ensures
            r@ == self.status_text(),
    ;

    /// Whether `get_scores` and `get_status` may be called.
    fn is_reportable(&self) -> (r: bool)
        requires
            self.wf(),
        ensures
            r == self.can_report(),
    ;

    /// The players, in the order in which they joined.
    fn get_players(&self) -> (r: Vec<Player>)
        ensures
            roster_view(r@) == self.roster(),
    ;

    /// A new game of the same kind, with nobody at the table.
    fn get_new_instance(&self) -> (r: Self)
        ensures
            r.wf(),
            r.can_init(),
            r.roster().len() == 0,
            r.turn().is_none(),
    ;

    /// Answers a text that a player sent to the table.
    fn handle_message(&self, message: String, from: Player) -> (out: Vec<GameStatus>)
        ensures
            statuses_view(out@) == self.answer(message@, from@),
    ;
}

} // verus!
