//! The registry of sessions: which player is in which session, which
//! sessions are open and when each was last played.
//!
//! The registry decides and keeps the books; it neither sends nor
//! waits. Every call hands back the actions to perform: answers to a
//! player, commands for the mailbox of a session, sessions to open.

use crate::primitives::{Card, Player, PlayerView};
use crate::telegram::{Message, MessageView};
use crate::text::{contains_text, first_pieces, has_text, same_text, second_piece};
use crate::threading::{CommandView, ThreadMessage};
use crate::token::{button_command, parse_button, ButtonCommand};
use vstd::prelude::*;

verus! {

/// The seconds a session may stay idle.
pub const MAX_GAME_DURATION: u64 = 600;

/// The seconds of idleness after which a session is warned: nine tenths
/// of [`MAX_GAME_DURATION`].
pub const WARNING_AFTER: u64 = 540;

/// The number of commands that the mailbox of a session holds before it
/// makes a sender wait.
pub const MAILBOX_CAPACITY: usize = 10;

/// Something for the caller to do.
#[derive(Debug)]
pub enum Action {
    /// Send a message to a user.
    Reply(Message),
    /// Put a command into the mailbox of a session; the session is open.
    Forward(String, ThreadMessage),
    /// Put a command into the mailbox of a session if it still takes one.
    Signal(String, ThreadMessage),
    /// Open a session under this token for the game at this place of the
    /// menu, with this command as the first in its mailbox.
    Open(String, usize, ThreadMessage),
}

/// Mathematical value of an [`Action`].
pub enum ActionView {
    Reply(MessageView),
    Forward(Seq<char>, CommandView),
    Signal(Seq<char>, CommandView),
    Open(Seq<char>, usize, CommandView),
}

impl View for Action {
    type V = ActionView;

    open spec fn view(&self) -> ActionView {
        match *self {
            Action::Reply(message) => ActionView::Reply(message@),
            Action::Forward(session, command) => ActionView::Forward(session@, command@),
            Action::Signal(session, command) => ActionView::Signal(session@, command@),
            Action::Open(session, game, command) => ActionView::Open(session@, game, command@),
        }
    }
}

/// The views of a list of actions.
pub open spec fn actions_view(actions: Seq<Action>) -> Seq<ActionView> {
    Seq::new(actions.len(), |i: int| actions[i]@)
}

/// What a probe of a session's mailbox found.
#[derive(Clone, Copy, PartialEq, Eq, Structural, Debug)]
pub enum Probe {
    /// The mailbox took the probe.
    Delivered,
    /// The mailbox is full; its session is busy.
    Busy,
    /// Nobody reads the mailbox any more.
    Closed,
}

/// Something that came in from a user.
#[derive(Debug)]
pub enum Event {
    /// A text.
    Text(Player, String),
    /// The press of a button, with what the button sends back.
    Button(Player, String),
}

/// Mathematical value of an [`Event`].
pub enum EventView {
    Text(PlayerView, Seq<char>),
    Button(PlayerView, Seq<char>),
}

impl View for Event {
    type V = EventView;

    open spec fn view(&self) -> EventView {
        match *self {
            Event::Text(from, text) => EventView::Text(from@, text@),
            Event::Button(from, data) => EventView::Button(from@, data@),
        }
    }
}

/// The place of a player in the table of players, or its length.
pub open spec fn player_place(players: Seq<(i64, Seq<char>)>, id: i64) -> int
    decreases players.len(),
{
    if players.len() == 0 {
        0
    } else if players[0].0 == id {
        0
    } else {
        1 + player_place(players.drop_first(), id)
    }
}

/// The place of a session in the table of sessions, or its length.
pub open spec fn session_place(sessions: Seq<(Seq<char>, u64)>, id: Seq<char>) -> int
    decreases sessions.len(),
{
    if sessions.len() == 0 {
        0
    } else if sessions[0].0 == id {
        0
    } else {
        1 + session_place(sessions.drop_first(), id)
    }
}

/// [`player_place`] finds the first entry of the player, if there is one.
pub proof fn lemma_player_place(players: Seq<(i64, Seq<char>)>, id: i64)
    ensures
        0 <= player_place(players, id) <= players.len(),
        player_place(players, id) < players.len() ==> players[player_place(players, id)].0 == id,
        forall|j: int| 0 <= j < player_place(players, id) ==> (#[trigger] players[j]).0 != id,
    decreases players.len(),
{
    if players.len() > 0 && players[0].0 != id {
        let rest = players.drop_first();
        lemma_player_place(rest, id);
        assert forall|j: int| 0 <= j < player_place(players, id) implies (#[trigger] players[j]).0
            != id by {
            if j > 0 {
                assert(players[j] == rest[j - 1]);
            }
        }
    }
}

/// [`session_place`] finds the first entry of the session, if there is
/// one.
pub proof fn lemma_session_place(sessions: Seq<(Seq<char>, u64)>, id: Seq<char>)
    ensures
        0 <= session_place(sessions, id) <= sessions.len(),
        session_place(sessions, id) < sessions.len() ==> sessions[session_place(sessions, id)].0
            == id,
        forall|j: int| 0 <= j < session_place(sessions, id) ==> (#[trigger] sessions[j]).0 != id,
    decreases sessions.len(),
{
    if sessions.len() > 0 && sessions[0].0 != id {
        let rest = sessions.drop_first();
        lemma_session_place(rest, id);
        assert forall|j: int| 0 <= j < session_place(sessions, id) implies (
        #[trigger] sessions[j]).0 != id by {
            if j > 0 {
                assert(sessions[j] == rest[j - 1]);
            }
        }
    }
}

/// The players whose session is not among the dead, in order.
pub open spec fn surviving_players(players: Seq<(i64, Seq<char>)>, dead: Seq<Seq<char>>) -> Seq<
    (i64, Seq<char>),
>
    decreases players.len(),
{
    if players.len() == 0 {
        Seq::empty()
    } else {
        let front = surviving_players(players.drop_last(), dead);
        if dead.contains(players.last().1) {
            front
        } else {
            front.push(players.last())
        }
    }
}

/// The sessions that are not among the dead, in order.
pub open spec fn surviving_sessions(sessions: Seq<(Seq<char>, u64)>, dead: Seq<Seq<char>>) -> Seq<
    (Seq<char>, u64),
>
    decreases sessions.len(),
{
    if sessions.len() == 0 {
        Seq::empty()
    } else {
        let front = surviving_sessions(sessions.drop_last(), dead);
        if dead.contains(sessions.last().0) {
            front
        } else {
            front.push(sessions.last())
        }
    }
}

/// How long a session has been idle.
pub open spec fn idle_time(now: u64, last_played: u64) -> int {
    if now >= last_played {
        now - last_played
    } else {
        0
    }
}

/// What an idle session is told: to stop after [`MAX_GAME_DURATION`]
/// seconds, that it is about to after [`WARNING_AFTER`] seconds, nothing
/// before.
pub open spec fn idle_signal(idle: int) -> Option<CommandView> {
    if idle > MAX_GAME_DURATION {
        Some(CommandView::Kill)
    } else if idle > WARNING_AFTER {
        Some(CommandView::AboutToKill)
    } else {
        None
    }
}

/// The signals for the idle sessions of a table, in the order of the
/// table.
pub open spec fn idle_signals(sessions: Seq<(Seq<char>, u64)>, now: u64) -> Seq<ActionView>
    decreases sessions.len(),
{
    if sessions.len() == 0 {
        Seq::empty()
    } else {
        let front = idle_signals(sessions.drop_last(), now);
        match idle_signal(idle_time(now, sessions.last().1)) {
            Some(command) => front.push(ActionView::Signal(sessions.last().0, command)),
            None => front,
        }
    }
}

/// The sessions whose mailbox nobody reads any more, in the order of the
/// probes.
pub open spec fn dead_games(probes: Seq<(Seq<char>, Probe)>) -> Seq<Seq<char>>
    decreases probes.len(),
{
    if probes.len() == 0 {
        Seq::empty()
    } else {
        let front = dead_games(probes.drop_last());
        if probes.last().1 == Probe::Closed {
            front.push(probes.last().0)
        } else {
            front
        }
    }
}

/// Mathematical value of a [`Registry`].
pub struct RegistryView {
    /// For each player in a session, the token of the session.
    pub player_games: Seq<(i64, Seq<char>)>,
    /// For each open session, its token and when it was last played.
    pub sessions: Seq<(Seq<char>, u64)>,
}

/// A plain message.
pub open spec fn plain(text: Seq<char>, chat_id: i64) -> ActionView {
    ActionView::Reply(MessageView { chat_id, text, keyboard: None })
}

/// The text that invites others to a session.
pub open spec fn invitation(username: Seq<char>, session: Seq<char>) -> Seq<char> {
    "Per invitare altre persone condividi questo link: https://t.me/"@ + username + "?start="@
        + session
}

impl RegistryView {
    /// The session of a player, if the player is in one.
    pub open spec fn session_of(self, player: i64) -> Option<Seq<char>> {
        let place = player_place(self.player_games, player);
        if place < self.player_games.len() {
            Some(self.player_games[place].1)
        } else {
            None
        }
    }

    /// Whether a session with this token is open.
    pub open spec fn is_open(self, session: Seq<char>) -> bool {
        session_place(self.sessions, session) < self.sessions.len()
    }

    /// When an open session was last played.
    pub open spec fn last_played(self, session: Seq<char>) -> Option<u64> {
        let place = session_place(self.sessions, session);
        if place < self.sessions.len() {
            Some(self.sessions[place].1)
        } else {
            None
        }
    }

    /// The invariant of a registry: no player has two entries, no
    /// session has two entries, and the session of every player is open.
    pub open spec fn wf(self) -> bool {
        &&& forall|a: int, b: int|
            0 <= a < b < self.player_games.len() ==> (#[trigger] self.player_games[a]).0 != (
            #[trigger] self.player_games[b]).0
        &&& forall|a: int, b: int|
            0 <= a < b < self.sessions.len() ==> (#[trigger] self.sessions[a]).0 != (
            #[trigger] self.sessions[b]).0
        &&& forall|k: int|
            0 <= k < self.player_games.len() ==> self.is_open((#[trigger] self.player_games[k]).1)
    }

    /// The registry with the player in the session, and in no other.
    pub open spec fn with_player(self, player: i64, session: Seq<char>) -> RegistryView {
        let place = player_place(self.player_games, player);
        RegistryView {
            player_games: if place < self.player_games.len() {
                self.player_games.update(place, (player, session))
            } else {
                self.player_games.push((player, session))
            },
            ..self
        }
    }

    /// The registry with the session open and last played at `now`.
    pub open spec fn with_session(self, session: Seq<char>, now: u64) -> RegistryView {
        let place = session_place(self.sessions, session);
        RegistryView {
            sessions: if place < self.sessions.len() {
                self.sessions.update(place, (session, now))
            } else {
                self.sessions.push((session, now))
            },
            ..self
        }
    }

    /// The registry with the session, if it is open, last played at
    /// `now`.
    pub open spec fn touched(self, session: Seq<char>, now: u64) -> RegistryView {
        if self.is_open(session) {
            self.with_session(session, now)
        } else {
            self
        }
    }

    /// The registry without the dead sessions and without their players.
    pub open spec fn without(self, dead: Seq<Seq<char>>) -> RegistryView {
        RegistryView {
            player_games: surviving_players(self.player_games, dead),
            sessions: surviving_sessions(self.sessions, dead),
        }
    }

    /// A player asks to join the session with this token: a player who
    /// is in a session already is turned away, and so is one who asks
    /// for a session that is not open.
    pub open spec fn after_join(self, session: Seq<char>, from: PlayerView) -> (
        RegistryView,
        Seq<ActionView>,
    ) {
        let trying = plain("Provo ad aggiungerti alla partita..."@, from.id);
        if self.session_of(from.id).is_some() {
            (
                self,
                seq![trying, plain("Non puoi unirti a più partite contemporaneamente"@, from.id)],
            )
        } else if self.is_open(session) {
            (
                self.with_player(from.id, session),
                seq![trying, ActionView::Forward(session, CommandView::AddPlayer(from))],
            )
        } else {
            (self, seq![trying, plain("Gioco non trovato!"@, from.id)])
        }
    }

    /// What a player wrote goes to the session, if it is open.
    pub open spec fn after_message(
        self,
        session: Seq<char>,
        from: PlayerView,
        text: Seq<char>,
    ) -> Seq<ActionView> {
        if self.is_open(session) {
            seq![ActionView::Forward(session, CommandView::HandleStringMessage(from, text))]
        } else {
            seq![plain("Gioco non trovato!"@, from.id)]
        }
    }

    /// A player opens a session of the game at `game` of the menu under
    /// the token `session`: the player is in that session from now on,
    /// and is told how to invite others. A game that is not on the menu
    /// opens nothing.
    pub open spec fn after_init(
        self,
        session: Seq<char>,
        game: usize,
        from: PlayerView,
        now: u64,
        username: Seq<char>,
    ) -> (RegistryView, Seq<ActionView>) {
        if game < crate::games::menu().len() {
            (
                self.with_session(session, now).with_player(from.id, session),
                seq![
                    ActionView::Open(session, game, CommandView::AddPlayer(from)),
                    plain(invitation(username, session), from.id),
                ],
            )
        } else {
            (self, Seq::empty())
        }
    }

    /// A command of a player for the player's own session: the session
    /// counts as played now and gets the command. A player without a
    /// session is told so.
    pub open spec fn after_command(self, player: i64, command: CommandView, now: u64) -> (
        RegistryView,
        Seq<ActionView>,
    ) {
        match self.session_of(player) {
            Some(session) => (
                self.touched(session, now),
                seq![ActionView::Forward(session, command)],
            ),
            None => (self, seq![plain("Gioco non trovato"@, player)]),
        }
    }

    /// The press of a button.
    pub open spec fn after_button(
        self,
        from: PlayerView,
        data: Seq<char>,
        session: Seq<char>,
        now: u64,
        username: Seq<char>,
    ) -> (RegistryView, Seq<ActionView>) {
        match button_command(data) {
            ButtonCommand::InitGame(game) => self.after_init(session, game, from, now, username),
            ButtonCommand::Start => self.after_command(from.id, CommandView::Start, now),
            ButtonCommand::HandleMove(card) => self.after_command(
                from.id,
                CommandView::HandleMove(from, card),
                now,
            ),
            ButtonCommand::Unknown => (self, Seq::empty()),
        }
    }

    /// Something that came in from a user: a text, or the press of a
    /// button.
    pub open spec fn after_event(
        self,
        event: EventView,
        session: Seq<char>,
        now: u64,
        username: Seq<char>,
        version: Seq<char>,
    ) -> (RegistryView, Seq<ActionView>) {
        match event {
            EventView::Text(from, text) => self.after_text(from, text, version),
            EventView::Button(from, data) => self.after_button(from, data, session, now, username),
        }
    }

    /// A text of a user: `/start` alone asks for the menu, `/start` with
    /// a token asks to join that session, `/commit` asks for the version,
    /// and anything else is for the session of the user, if there is one.
    pub open spec fn after_text(self, from: PlayerView, text: Seq<char>, version: Seq<char>) -> (
        RegistryView,
        Seq<ActionView>,
    ) {
        if contains_text(text, "/start"@) {
            match second_piece(text, ' ') {
                None => (
                    self,
                    seq![
                        ActionView::Reply(
                            MessageView {
                                chat_id: from.id,
                                text: "Ciao! A che gioco vuoi giocare?"@,
                                keyboard: Some(crate::telegram::menu_grid(crate::games::menu())),
                            },
                        ),
                    ],
                ),
                Some(session) => self.after_join(session, from),
            }
        } else if text == "/commit"@ {
            (self, seq![plain("This instance is running on "@ + version, from.id)])
        } else {
            match self.session_of(from.id) {
                Some(session) => (self, self.after_message(session, from, text)),
                None => (self, Seq::empty()),
            }
        }
    }
}

/// Putting a player into an open session keeps the registry well
/// formed, and the player is then in that session.
pub proof fn lemma_with_player(v: RegistryView, player: i64, session: Seq<char>)
    requires
        v.wf(),
        v.is_open(session),
    ensures
        v.with_player(player, session).wf(),
        v.with_player(player, session).session_of(player) == Some(session),
        v.with_player(player, session).sessions == v.sessions,
{
    let after = v.with_player(player, session);
    let place = player_place(v.player_games, player);
    lemma_player_place(v.player_games, player);
    lemma_player_place(after.player_games, player);
    assert(after.player_games[place] == (player, session));
    assert forall|k: int| 0 <= k < after.player_games.len() implies after.is_open(
        (#[trigger] after.player_games[k]).1,
    ) by {
        if k != place {
            assert(after.player_games[k] == v.player_games[k]);
        }
    }
    let found = player_place(after.player_games, player);
    if found < place {
        assert(after.player_games[found] == v.player_games[found]);
    }
}

/// Opening a session keeps the registry well formed and every open
/// session open.
pub proof fn lemma_with_session(v: RegistryView, session: Seq<char>, now: u64)
    requires
        v.wf(),
    ensures
        v.with_session(session, now).wf(),
        v.with_session(session, now).is_open(session),
        v.with_session(session, now).last_played(session) == Some(now),
        v.with_session(session, now).player_games == v.player_games,
        forall|other: Seq<char>| v.is_open(other) ==> v.with_session(session, now).is_open(other),
{
    let after = v.with_session(session, now);
    let place = session_place(v.sessions, session);
    lemma_session_place(v.sessions, session);
    lemma_session_place(after.sessions, session);
    assert(after.sessions[place] == (session, now));
    let found = session_place(after.sessions, session);
    if found < place {
        assert(after.sessions[found] == v.sessions[found]);
    }
    assert forall|other: Seq<char>| v.is_open(other) implies after.is_open(other) by {
        lemma_session_place(v.sessions, other);
        lemma_session_place(after.sessions, other);
        let at = session_place(v.sessions, other);
        assert(after.sessions[at].0 == other);
        let f = session_place(after.sessions, other);
        if f >= after.sessions.len() {
            assert(after.sessions[at].0 != other);
        }
    }
    assert forall|k: int| 0 <= k < after.player_games.len() implies after.is_open(
        (#[trigger] after.player_games[k]).1,
    ) by {
        assert(v.is_open(v.player_games[k].1));
    }
}

/// What survives a purge: the entries that were there and are not dead,
/// in the order they were in.
pub proof fn lemma_surviving_sessions(sessions: Seq<(Seq<char>, u64)>, dead: Seq<Seq<char>>)
    ensures
        forall|k: int|
            0 <= k < surviving_sessions(sessions, dead).len() ==> !dead.contains(
                (#[trigger] surviving_sessions(sessions, dead)[k]).0,
            ) && sessions.contains(surviving_sessions(sessions, dead)[k]),
        forall|j: int|
            0 <= j < sessions.len() && !dead.contains((#[trigger] sessions[j]).0)
                ==> surviving_sessions(sessions, dead).contains(sessions[j]),
        (forall|a: int, b: int|
            0 <= a < b < sessions.len() ==> (#[trigger] sessions[a]).0 != (
            #[trigger] sessions[b]).0) ==> (forall|a: int, b: int|
            0 <= a < b < surviving_sessions(sessions, dead).len() ==> (
            #[trigger] surviving_sessions(sessions, dead)[a]).0 != (#[trigger] surviving_sessions(
                sessions,
                dead,
            )[b]).0),
    decreases sessions.len(),
{
    if sessions.len() > 0 {
        let front = sessions.drop_last();
        let last = sessions.last();
        lemma_surviving_sessions(front, dead);
        let kept = surviving_sessions(front, dead);
        let all = surviving_sessions(sessions, dead);
        assert forall|k: int| 0 <= k < all.len() implies !dead.contains((#[trigger] all[k]).0)
            && sessions.contains(all[k]) by {
            if k < kept.len() {
                assert(all[k] == kept[k]);
                let j = choose|j: int| 0 <= j < front.len() && front[j] == kept[k];
                assert(sessions[j] == all[k]);
            } else {
                assert(sessions[sessions.len() - 1] == all[k]);
            }
        }
        assert forall|j: int|
            0 <= j < sessions.len() && !dead.contains((#[trigger] sessions[j]).0)
            implies all.contains(sessions[j]) by {
            if j < front.len() {
                assert(front[j] == sessions[j]);
                let k = choose|k: int| 0 <= k < kept.len() && kept[k] == front[j];
                assert(all[k] == sessions[j]);
            } else {
                assert(all[all.len() - 1] == sessions[j]);
            }
        }
        if forall|a: int, b: int|
            0 <= a < b < sessions.len() ==> (#[trigger] sessions[a]).0 != (
            #[trigger] sessions[b]).0 {
            assert forall|a: int, b: int| 0 <= a < b < front.len() implies (#[trigger] front[a]).0
                != (#[trigger] front[b]).0 by {
                assert(front[a] == sessions[a]);
                assert(front[b] == sessions[b]);
            }
            assert forall|a: int, b: int| 0 <= a < b < all.len() implies (#[trigger] all[a]).0 != (
            #[trigger] all[b]).0 by {
                if b < kept.len() {
                    assert(all[a] == kept[a]);
                    assert(all[b] == kept[b]);
                } else {
                    assert(all[a] == kept[a]);
                    let j = choose|j: int| 0 <= j < front.len() && front[j] == kept[a];
                    assert(sessions[j] == kept[a]);
                    assert(sessions[sessions.len() - 1] == all[b]);
                }
            }
        }
    }
}

/// What survives a purge among the players: the entries that were there
/// and whose session is not dead, in the order they were in.
pub proof fn lemma_surviving_players(players: Seq<(i64, Seq<char>)>, dead: Seq<Seq<char>>)
    ensures
        forall|k: int|
            0 <= k < surviving_players(players, dead).len() ==> !dead.contains(
                (#[trigger] surviving_players(players, dead)[k]).1,
            ) && players.contains(surviving_players(players, dead)[k]),
        forall|j: int|
            0 <= j < players.len() && !dead.contains((#[trigger] players[j]).1)
                ==> surviving_players(players, dead).contains(players[j]),
        (forall|a: int, b: int|
            0 <= a < b < players.len() ==> (#[trigger] players[a]).0 != (#[trigger] players[b]).0)
            ==> (forall|a: int, b: int|
            0 <= a < b < surviving_players(players, dead).len() ==> (
            #[trigger] surviving_players(players, dead)[a]).0 != (#[trigger] surviving_players(
                players,
                dead,
            )[b]).0),
    decreases players.len(),
{
    if players.len() > 0 {
        let front = players.drop_last();
        let last = players.last();
        lemma_surviving_players(front, dead);
        let kept = surviving_players(front, dead);
        let all = surviving_players(players, dead);
        assert forall|k: int| 0 <= k < all.len() implies !dead.contains((#[trigger] all[k]).1)
            && players.contains(all[k]) by {
            if k < kept.len() {
                assert(all[k] == kept[k]);
                let j = choose|j: int| 0 <= j < front.len() && front[j] == kept[k];
                assert(players[j] == all[k]);
            } else {
                assert(players[players.len() - 1] == all[k]);
            }
        }
        assert forall|j: int|
            0 <= j < players.len() && !dead.contains((#[trigger] players[j]).1)
            implies all.contains(players[j]) by {
            if j < front.len() {
                assert(front[j] == players[j]);
                let k = choose|k: int| 0 <= k < kept.len() && kept[k] == front[j];
                assert(all[k] == players[j]);
            } else {
                assert(all[all.len() - 1] == players[j]);
            }
        }
        if forall|a: int, b: int|
            0 <= a < b < players.len() ==> (#[trigger] players[a]).0 != (#[trigger] players[b]).0 {
            assert forall|a: int, b: int| 0 <= a < b < front.len() implies (#[trigger] front[a]).0
                != (#[trigger] front[b]).0 by {
                assert(front[a] == players[a]);
                assert(front[b] == players[b]);
            }
            assert forall|a: int, b: int| 0 <= a < b < all.len() implies (#[trigger] all[a]).0 != (
            #[trigger] all[b]).0 by {
                if b < kept.len() {
                    assert(all[a] == kept[a]);
                    assert(all[b] == kept[b]);
                } else {
                    assert(all[a] == kept[a]);
                    let j = choose|j: int| 0 <= j < front.len() && front[j] == kept[a];
                    assert(players[j] == kept[a]);
                    assert(players[players.len() - 1] == all[b]);
                }
            }
        }
    }
}

/// A purge keeps the registry well formed; the dead sessions are closed
/// and no player is left in one of them, and nothing else changes.
pub proof fn lemma_without(v: RegistryView, dead: Seq<Seq<char>>)
    requires
        v.wf(),
    ensures
        v.without(dead).wf(),
        forall|session: Seq<char>|
            v.without(dead).is_open(session) == (v.is_open(session) && !dead.contains(session)),
        forall|player: i64|
            v.without(dead).session_of(player) == match v.session_of(player) {
                Some(session) => if dead.contains(session) {
                    None
                } else {
                    Some(session)
                },
                None => None,
            },
{
    let after = v.without(dead);
    lemma_surviving_sessions(v.sessions, dead);
    lemma_surviving_players(v.player_games, dead);
    assert forall|session: Seq<char>|
        after.is_open(session) == (v.is_open(session) && !dead.contains(session)) by {
        lemma_session_place(v.sessions, session);
        lemma_session_place(after.sessions, session);
        let at = session_place(v.sessions, session);
        let to = session_place(after.sessions, session);
        if to < after.sessions.len() {
            assert(!dead.contains(after.sessions[to].0));
            let j = choose|j: int| 0 <= j < v.sessions.len() && v.sessions[j] == after.sessions[to];
            if at >= v.sessions.len() {
                assert(v.sessions[j].0 != session);
            }
        }
        if at < v.sessions.len() && !dead.contains(session) {
            assert(after.sessions.contains(v.sessions[at]));
            let k = choose|k: int|
                0 <= k < after.sessions.len() && after.sessions[k] == v.sessions[at];
            if to >= after.sessions.len() {
                assert(after.sessions[k].0 != session);
            }
        }
    }
    assert forall|player: i64|
        after.session_of(player) == match v.session_of(player) {
            Some(session) => if dead.contains(session) {
                None
            } else {
                Some(session)
            },
            None => None,
        } by {
        lemma_player_place(v.player_games, player);
        lemma_player_place(after.player_games, player);
        let at = player_place(v.player_games, player);
        let to = player_place(after.player_games, player);
        if to < after.player_games.len() {
            let j = choose|j: int|
                0 <= j < v.player_games.len() && v.player_games[j] == after.player_games[to];
            if at >= v.player_games.len() {
                assert(v.player_games[j].0 != player);
            } else if j != at {
                if j < at {
                    assert(v.player_games[j].0 != v.player_games[at].0);
                } else {
                    assert(v.player_games[at].0 != v.player_games[j].0);
                }
            }
        }
        if at < v.player_games.len() && !dead.contains(v.player_games[at].1) {
            assert(after.player_games.contains(v.player_games[at]));
            let k = choose|k: int|
                0 <= k < after.player_games.len() && after.player_games[k] == v.player_games[at];
            if to >= after.player_games.len() {
                assert(after.player_games[k].0 != player);
            }
        }
    }
    assert forall|k: int| 0 <= k < after.player_games.len() implies after.is_open(
        (#[trigger] after.player_games[k]).1,
    ) by {
        let j = choose|j: int|
            0 <= j < v.player_games.len() && v.player_games[j] == after.player_games[k];
        assert(v.is_open(v.player_games[j].1));
    }
}

/// In a well-formed registry a player is in at most one session: every
/// entry of the player is the one that `session_of` finds.
pub proof fn lemma_one_session_per_player(v: RegistryView, k: int)
    requires
        v.wf(),
        0 <= k < v.player_games.len(),
    ensures
        v.session_of(v.player_games[k].0) == Some(v.player_games[k].1),
        player_place(v.player_games, v.player_games[k].0) == k,
{
    let id = v.player_games[k].0;
    lemma_player_place(v.player_games, id);
    let place = player_place(v.player_games, id);
    if place < k {
        assert(v.player_games[place].0 != v.player_games[k].0);
    }
}

/// The views of the table of players.
pub open spec fn players_view(players: Seq<(i64, String)>) -> Seq<(i64, Seq<char>)> {
    Seq::new(players.len(), |i: int| (players[i].0, players[i].1@))
}

/// The views of the table of sessions.
pub open spec fn sessions_view(sessions: Seq<(String, u64)>) -> Seq<(Seq<char>, u64)> {
    Seq::new(sessions.len(), |i: int| (sessions[i].0@, sessions[i].1))
}

/// The views of a list of tokens.
pub open spec fn tokens_view(tokens: Seq<String>) -> Seq<Seq<char>> {
    Seq::new(tokens.len(), |i: int| tokens[i]@)
}

/// The views of a list of probes.
pub open spec fn probes_view(probes: Seq<(String, Probe)>) -> Seq<(Seq<char>, Probe)> {
    Seq::new(probes.len(), |i: int| (probes[i].0@, probes[i].1))
}

/// The registry of sessions.
#[derive(Debug)]
pub struct Registry {
    player_games: Vec<(i64, String)>,
    sessions: Vec<(String, u64)>,
}

impl View for Registry {
    type V = RegistryView;

    closed spec fn view(&self) -> RegistryView {
        RegistryView {
            player_games: players_view(self.player_games@),
            sessions: sessions_view(self.sessions@),
        }
    }
}

/// A new token for a session; wraps `ulid::Ulid::new` and
/// `ulid::Ulid::to_string`. The token is made of the time and of random
/// bits, so nothing is said of it.
#[verifier::external_body]
pub(crate) fn fresh_token() -> String {
    ulid::Ulid::new().to_string()
}

fn reply(text: &str, chat_id: i64) -> (r: Action)
    ensures
        r@ == plain(text@, chat_id),
{
    Action::Reply(Message::plain(text, chat_id))
}

fn one_action(a: Action) -> (r: Vec<Action>)
    ensures
        actions_view(r@) == seq![a@],
{
    let mut r: Vec<Action> = Vec::new();
    r.push(a);
    assert(actions_view(r@) =~= seq![a@]);
    r
}

fn two_actions(a: Action, b: Action) -> (r: Vec<Action>)
    ensures
        actions_view(r@) == seq![a@, b@],
{
    let mut r: Vec<Action> = Vec::new();
    r.push(a);
    r.push(b);
    assert(actions_view(r@) =~= seq![a@, b@]);
    r
}

fn no_action() -> (r: Vec<Action>)
    ensures
        actions_view(r@) == Seq::<ActionView>::empty(),
{
    let r: Vec<Action> = Vec::new();
    assert(actions_view(r@) =~= Seq::<ActionView>::empty());
    r
}

/// Whether a token is among the tokens of a list.
fn is_among(tokens: &Vec<String>, token: &str) -> (r: bool)
    ensures
        r == tokens_view(tokens@).contains(token@),
{
    let mut i: usize = 0;
    while i < tokens.len()
        invariant
            i <= tokens.len(),
            forall|j: int| 0 <= j < i ==> (#[trigger] tokens_view(tokens@)[j]) != token@,
        decreases tokens.len() - i,
    {
        if same_text(tokens[i].as_str(), token) {
            assert(tokens_view(tokens@)[i as int] == token@);
            return true;
        }
        i = i + 1;
    }
    false
}

/// The sessions whose mailbox nobody reads any more: those whose probe
/// found it closed. A session that is only busy is alive.
pub fn get_dead_games(probes: &Vec<(String, Probe)>) -> (r: Vec<String>)
    ensures
        tokens_view(r@) == dead_games(probes_view(probes@)),
{
    let ghost all = probes_view(probes@);
    let mut dead: Vec<String> = Vec::new();
    let mut i: usize = 0;
    while i < probes.len()
        invariant
            i <= probes.len(),
            all == probes_view(probes@),
            tokens_view(dead@) == dead_games(all.subrange(0, i as int)),
        decreases probes.len() - i,
    {
        proof {
            assert(all.subrange(0, i + 1).drop_last() =~= all.subrange(0, i as int));
            assert(all.subrange(0, i + 1).last() == (probes[i as int].0@, probes[i as int].1));
        }
        match probes[i].1 {
            Probe::Closed => {
                let ghost before = tokens_view(dead@);
                dead.push(probes[i].0.clone());
                assert(tokens_view(dead@) =~= before.push(probes[i as int].0@));
            },
            _ => {},
        }
        i = i + 1;
    }
    assert(all.subrange(0, probes.len() as int) =~= all);
    dead
}

impl Registry {
    /// A registry without sessions.
    pub fn new() -> (r: Self)
        ensures
            r@.wf(),
            r@.player_games.len() == 0,
            r@.sessions.len() == 0,
    {
        Registry { player_games: Vec::new(), sessions: Vec::new() }
    }

    fn find_player(&self, player: i64) -> (place: usize)
        ensures
            place == player_place(self@.player_games, player),
            place <= self.player_games.len(),
    {
        let mut i: usize = 0;
        while i < self.player_games.len()
            invariant
                i <= self.player_games.len(),
                forall|j: int| 0 <= j < i ==> (#[trigger] self@.player_games[j]).0 != player,
            decreases self.player_games.len() - i,
        {
            if self.player_games[i].0 == player {
                proof {
                    lemma_player_place(self@.player_games, player);
                    let p = player_place(self@.player_games, player);
                    assert(self@.player_games[i as int].0 == player);
                    if p < i {
                        assert(self@.player_games[p].0 != player);
                    }
                }
                return i;
            }
            i = i + 1;
        }
        proof {
            lemma_player_place(self@.player_games, player);
            let p = player_place(self@.player_games, player);
            if p < self.player_games.len() {
                assert(self@.player_games[p].0 != player);
            }
        }
        i
    }

    fn find_session(&self, session: &str) -> (place: usize)
        ensures
            place == session_place(self@.sessions, session@),
            place <= self.sessions.len(),
    {
        let mut i: usize = 0;
        while i < self.sessions.len()
            invariant
                i <= self.sessions.len(),
                forall|j: int| 0 <= j < i ==> (#[trigger] self@.sessions[j]).0 != session@,
            decreases self.sessions.len() - i,
        {
            if same_text(self.sessions[i].0.as_str(), session) {
                proof {
                    lemma_session_place(self@.sessions, session@);
                    let p = session_place(self@.sessions, session@);
                    assert(self@.sessions[i as int].0 == session@);
                    if p < i {
                        assert(self@.sessions[p].0 != session@);
                    }
                }
                return i;
            }
            i = i + 1;
        }
        proof {
            lemma_session_place(self@.sessions, session@);
            let p = session_place(self@.sessions, session@);
            if p < self.sessions.len() {
                assert(self@.sessions[p].0 != session@);
            }
        }
        i
    }

    fn set_player(&mut self, player: i64, session: String)
        ensures
            final(self)@ == old(self)@.with_player(player, session@),
    {
        let place = self.find_player(player);
        if place < self.player_games.len() {
            self.player_games.set(place, (player, session));
        } else {
            self.player_games.push((player, session));
        }
        assert(self@.player_games =~= old(self)@.with_player(player, session@).player_games);
    }

    fn set_session(&mut self, session: String, now: u64)
        ensures
            final(self)@ == old(self)@.with_session(session@, now),
    {
        let place = self.find_session(session.as_str());
        if place < self.sessions.len() {
            self.sessions.set(place, (session, now));
        } else {
            self.sessions.push((session, now));
        }
        assert(self@.sessions =~= old(self)@.with_session(session@, now).sessions);
    }

    /// The session of a player, if the player is in one.
    pub fn session_of(&self, player: i64) -> (r: Option<String>)
        ensures
            match r {
                Some(session) => self@.session_of(player) == Some(session@),
                None => self@.session_of(player).is_none(),
            },
    {
        let place = self.find_player(player);
        if place < self.player_games.len() {
            Some(self.player_games[place].1.clone())
        } else {
            None
        }
    }

    /// Whether a session with this token is open.
    pub fn is_open(&self, session: &str) -> (r: bool)
        ensures
            r == self@.is_open(session@),
    {
        self.find_session(session) < self.sessions.len()
    }

    /// When an open session was last played.
    pub fn last_played(&self, session: &str) -> (r: Option<u64>)
        ensures
            r == self@.last_played(session@),
    {
        let place = self.find_session(session);
        if place < self.sessions.len() {
            Some(self.sessions[place].1)
        } else {
            None
        }
    }

    /// The tokens of the open sessions, in the order of the table.
    pub fn session_ids(&self) -> (r: Vec<String>)
        ensures
            r@.len() == self@.sessions.len(),
            forall|i: int| 0 <= i < r@.len() ==> (#[trigger] r@[i])@ == self@.sessions[i].0,
    {
        let mut out: Vec<String> = Vec::new();
        let mut i: usize = 0;
        while i < self.sessions.len()
            invariant
                i <= self.sessions.len(),
                out.len() == i,
                forall|j: int| 0 <= j < i ==> (#[trigger] out@[j])@ == self@.sessions[j].0,
            decreases self.sessions.len() - i,
        {
            out.push(self.sessions[i].0.clone());
            i = i + 1;
        }
        out
    }

    /// A player asks to join the session with the token `game_id`.
    pub fn add_player_to_game(&mut self, game_id: String, from: Player) -> (actions: Vec<Action>)
        requires
            old(self)@.wf(),
        ensures
            final(self)@.wf(),
            (final(self)@, actions_view(actions@)) == old(self)@.after_join(game_id@, from@),
    {
        let trying = reply("Provo ad aggiungerti alla partita...", from.id);
        if self.find_player(from.id) < self.player_games.len() {
            two_actions(
                trying,
                reply("Non puoi unirti a più partite contemporaneamente", from.id),
            )
        } else if self.is_open(game_id.as_str()) {
            proof {
                lemma_with_player(self@, from.id, game_id@);
            }
            self.set_player(from.id, game_id.clone());
            two_actions(trying, Action::Forward(game_id, ThreadMessage::AddPlayer(from)))
        } else {
            two_actions(trying, reply("Gioco non trovato!", from.id))
        }
    }

    /// What a player wrote, for the session with the token `game_id`.
    pub fn handle_string_message(&self, game_id: &String, from: Player, text: String) -> (actions:
        Vec<Action>)
        ensures
            actions_view(actions@) == self@.after_message(game_id@, from@, text@),
    {
        if self.is_open(game_id.as_str()) {
            one_action(
                Action::Forward(game_id.clone(), ThreadMessage::HandleStringMessage(from, text)),
            )
        } else {
            one_action(reply("Gioco non trovato!", from.id))
        }
    }

    /// A player opens a session under the given token.
    pub fn init_game_as(
        &mut self,
        session: String,
        game_index: usize,
        from: Player,
        now: u64,
        username: &str,
    ) -> (actions: Vec<Action>)
        requires
            old(self)@.wf(),
        ensures
            final(self)@.wf(),
            (final(self)@, actions_view(actions@)) == old(self)@.after_init(
                session@,
                game_index,
                from@,
                now,
                username@,
            ),
    {
        if game_index >= crate::games::playable_games().len() {
            return no_action();
        }
        proof {
            lemma_with_session(self@, session@, now);
            lemma_with_player(self@.with_session(session@, now), from.id, session@);
        }
        self.set_session(session.clone(), now);
        self.set_player(from.id, session.clone());
        let mut text = String::from_str(
            "Per invitare altre persone condividi questo link: https://t.me/",
        );
        text.append(username);
        text.append("?start=");
        text.append(session.as_str());
        let link = Action::Reply(Message::plain(text.as_str(), from.id));
        two_actions(Action::Open(session, game_index, ThreadMessage::AddPlayer(from.clone())), link)
    }

    /// A player opens a session under a new token.
    pub fn init_game(
        &mut self,
        game_index: usize,
        from: Player,
        now: u64,
        username: &str,
    ) -> (actions: Vec<Action>)
        requires
            old(self)@.wf(),
        ensures
            final(self)@.wf(),
            exists|session: Seq<char>|
                (final(self)@, actions_view(actions@)) == #[trigger] old(self)@.after_init(
                    session,
                    game_index,
                    from@,
                    now,
                    username@,
                ),
    {
        let session = fresh_token();
        let ghost token = session@;
        let actions = self.init_game_as(session, game_index, from, now, username);
        proof {
            assert((self@, actions_view(actions@)) == old(self)@.after_init(
                token,
                game_index,
                from@,
                now,
                username@,
            ));
        }
        actions
    }

    /// A command of a player for the player's own session.
    fn command(&mut self, player: i64, command: ThreadMessage, now: u64) -> (actions: Vec<Action>)
        requires
            old(self)@.wf(),
        ensures
            final(self)@.wf(),
            (final(self)@, actions_view(actions@)) == old(self)@.after_command(
                player,
                command@,
                now,
            ),
    {
        match self.session_of(player) {
            Some(session) => {
                if self.is_open(session.as_str()) {
                    proof {
                        lemma_with_session(self@, session@, now);
                    }
                    self.set_session(session.clone(), now);
                }
                one_action(Action::Forward(session, command))
            },
            None => one_action(reply("Gioco non trovato", player)),
        }
    }

    /// A player asks to start the game of the player's session.
    pub fn try_start_game(&mut self, player_id: i64, now: u64) -> (actions: Vec<Action>)
        requires
            old(self)@.wf(),
        ensures
            final(self)@.wf(),
            (final(self)@, actions_view(actions@)) == old(self)@.after_command(
                player_id,
                CommandView::Start,
                now,
            ),
    {
        self.command(player_id, ThreadMessage::Start, now)
    }

    /// A player asks to play a card in the player's session.
    pub fn try_handle_move(&mut self, card: Card, from: Player, now: u64) -> (actions: Vec<Action>)
        requires
            old(self)@.wf(),
        ensures
            final(self)@.wf(),
            (final(self)@, actions_view(actions@)) == old(self)@.after_command(
                from.id,
                CommandView::HandleMove(from@, card),
                now,
            ),
    {
        let player = from.id;
        self.command(player, ThreadMessage::HandleMove(from, card), now)
    }

    /// The press of a button, with `session` as the token of the session
    /// that it may open.
    pub fn handle_callback_query_as(
        &mut self,
        from: Player,
        data: &str,
        session: String,
        now: u64,
        username: &str,
    ) -> (actions: Vec<Action>)
        requires
            old(self)@.wf(),
        ensures
            final(self)@.wf(),
            (final(self)@, actions_view(actions@)) == old(self)@.after_button(
                from@,
                data@,
                session@,
                now,
                username@,
            ),
    {
        match parse_button(data) {
            ButtonCommand::InitGame(game) => self.init_game_as(session, game, from, now, username),
            ButtonCommand::Start => self.try_start_game(from.id, now),
            ButtonCommand::HandleMove(card) => self.try_handle_move(card, from, now),
            ButtonCommand::Unknown => no_action(),
        }
    }

    /// The press of a button.
    pub fn handle_callback_query(
        &mut self,
        from: Player,
        data: &str,
        now: u64,
        username: &str,
    ) -> (actions: Vec<Action>)
        requires
            old(self)@.wf(),
        ensures
            final(self)@.wf(),
            exists|session: Seq<char>|
                (final(self)@, actions_view(actions@)) == #[trigger] old(self)@.after_button(
                    from@,
                    data@,
                    session,
                    now,
                    username@,
                ),
    {
        let session = fresh_token();
        let ghost token = session@;
        let actions = self.handle_callback_query_as(from, data, session, now, username);
        proof {
            assert((self@, actions_view(actions@)) == old(self)@.after_button(
                from@,
                data@,
                token,
                now,
                username@,
            ));
        }
        actions
    }

    /// A text of a user.
    pub fn handle_text(&mut self, from: Player, text: String, version: &str) -> (actions: Vec<
        Action,
    >)
        requires
            old(self)@.wf(),
        ensures
            final(self)@.wf(),
            (final(self)@, actions_view(actions@)) == old(self)@.after_text(
                from@,
                text@,
                version@,
            ),
    {
        if has_text(text.as_str(), "/start") {
            let pieces = first_pieces(text.as_str(), ' ');
            match pieces.1 {
                None => {
                    let games = crate::games::playable_games();
                    one_action(
                        Action::Reply(
                            Message::menu("Ciao! A che gioco vuoi giocare?", from.id, &games),
                        ),
                    )
                },
                Some(session) => self.add_player_to_game(session, from),
            }
        } else if same_text(text.as_str(), "/commit") {
            let mut answer = String::from_str("This instance is running on ");
            answer.append(version);
            one_action(Action::Reply(Message::plain(answer.as_str(), from.id)))
        } else {
            match self.session_of(from.id) {
                Some(session) => self.handle_string_message(&session, from, text),
                None => no_action(),
            }
        }
    }

    /// Something that came in from a user, with `session` as the token of
    /// the session that it may open.
    pub fn handle_update_as(
        &mut self,
        update: Event,
        session: String,
        now: u64,
        username: &str,
        version: &str,
    ) -> (actions: Vec<Action>)
        requires
            old(self)@.wf(),
        ensures
            final(self)@.wf(),
            (final(self)@, actions_view(actions@)) == old(self)@.after_event(
                update@,
                session@,
                now,
                username@,
                version@,
            ),
    {
        match update {
            Event::Text(from, text) => self.handle_text(from, text, version),
            Event::Button(from, data) => self.handle_callback_query_as(
                from,
                data.as_str(),
                session,
                now,
                username,
            ),
        }
    }

    /// Something that came in from a user.
    pub fn handle_update(
        &mut self,
        update: Event,
        now: u64,
        username: &str,
        version: &str,
    ) -> (actions: Vec<Action>)
        requires
            old(self)@.wf(),
        ensures
            final(self)@.wf(),
            exists|session: Seq<char>|
                (final(self)@, actions_view(actions@)) == #[trigger] old(self)@.after_event(
                    update@,
                    session,
                    now,
                    username@,
                    version@,
                ),
    {
        let session = fresh_token();
        let ghost token = session@;
        let actions = self.handle_update_as(update, session, now, username, version);
        proof {
            assert((self@, actions_view(actions@)) == old(self)@.after_event(
                update@,
                token,
                now,
                username@,
                version@,
            ));
        }
        actions
    }

    /// The signals for the sessions that have been idle for too long: to
    /// stop, or that they are about to be stopped.
    pub fn handle_game_termination(&self, now: u64) -> (actions: Vec<Action>)
        ensures
            actions_view(actions@) == idle_signals(self@.sessions, now),
    {
        let ghost all = self@.sessions;
        let mut out: Vec<Action> = Vec::new();
        let mut i: usize = 0;
        while i < self.sessions.len()
            invariant
                i <= self.sessions.len(),
                all == self@.sessions,
                actions_view(out@) == idle_signals(all.subrange(0, i as int), now),
            decreases self.sessions.len() - i,
        {
            proof {
                assert(all.subrange(0, i + 1).drop_last() =~= all.subrange(0, i as int));
                assert(all.subrange(0, i + 1).last() == all[i as int]);
            }
            let last = self.sessions[i].1;
            let idle: u64 = if now >= last {
                now - last
            } else {
                0
            };
            let ghost before = actions_view(out@);
            if idle > MAX_GAME_DURATION {
                out.push(Action::Signal(self.sessions[i].0.clone(), ThreadMessage::Kill));
                assert(actions_view(out@) =~= before.push(
                    ActionView::Signal(all[i as int].0, CommandView::Kill),
                ));
            } else if idle > WARNING_AFTER {
                out.push(Action::Signal(self.sessions[i].0.clone(), ThreadMessage::AboutToKill));
                assert(actions_view(out@) =~= before.push(
                    ActionView::Signal(all[i as int].0, CommandView::AboutToKill),
                ));
            }
            i = i + 1;
        }
        assert(all.subrange(0, self.sessions.len() as int) =~= all);
        out
    }

    /// Closes the sessions of `cleanup_list` and takes their players out.
    pub fn purge_dead_games(&mut self, cleanup_list: &Vec<String>)
        requires
            old(self)@.wf(),
        ensures
            final(self)@.wf(),
            final(self)@ == old(self)@.without(tokens_view(cleanup_list@)),
    {
        let ghost dead = tokens_view(cleanup_list@);
        let ghost before = self@;
        let mut players: Vec<(i64, String)> = Vec::new();
        let mut i: usize = 0;
        while i < self.player_games.len()
            invariant
                i <= self.player_games.len(),
                self@ == before,
                dead == tokens_view(cleanup_list@),
                players_view(players@) == surviving_players(
                    before.player_games.subrange(0, i as int),
                    dead,
                ),
            decreases self.player_games.len() - i,
        {
            proof {
                assert(before.player_games.subrange(0, i + 1).drop_last()
                    =~= before.player_games.subrange(0, i as int));
                assert(before.player_games.subrange(0, i + 1).last()
                    == before.player_games[i as int]);
            }
            if !is_among(cleanup_list, self.player_games[i].1.as_str()) {
                let ghost kept = players_view(players@);
                players.push((self.player_games[i].0, self.player_games[i].1.clone()));
                assert(players_view(players@) =~= kept.push(before.player_games[i as int]));
            }
            i = i + 1;
        }
        let mut sessions: Vec<(String, u64)> = Vec::new();
        let mut k: usize = 0;
        while k < self.sessions.len()
            invariant
                k <= self.sessions.len(),
                self@ == before,
                dead == tokens_view(cleanup_list@),
                sessions_view(sessions@) == surviving_sessions(
                    before.sessions.subrange(0, k as int),
                    dead,
                ),
            decreases self.sessions.len() - k,
        {
            proof {
                assert(before.sessions.subrange(0, k + 1).drop_last() =~= before.sessions.subrange(
                    0,
                    k as int,
                ));
                assert(before.sessions.subrange(0, k + 1).last() == before.sessions[k as int]);
            }
            if !is_among(cleanup_list, self.sessions[k].0.as_str()) {
                let ghost kept = sessions_view(sessions@);
                sessions.push((self.sessions[k].0.clone(), self.sessions[k].1));
                assert(sessions_view(sessions@) =~= kept.push(before.sessions[k as int]));
            }
            k = k + 1;
        }
        proof {
            assert(before.player_games.subrange(0, before.player_games.len() as int)
                =~= before.player_games);
            assert(before.sessions.subrange(0, before.sessions.len() as int) =~= before.sessions);
            lemma_without(before, dead);
        }
        self.player_games = players;
        self.sessions = sessions;
    }
}

} // verus!
