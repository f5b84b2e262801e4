//! The worker of one session: it owns the game, takes the commands of
//! the session's mailbox one at a time and says what has to be sent to
//! whom.
//!
//! The worker itself sends nothing. For every command it hands back the
//! deliveries to make; whoever runs it makes them and reports the
//! identifier of each message that was sent, so that the next message to
//! the same recipient can take the place of the last.

use crate::dispatch::{
    compact_messages, compacted, dispatch_all, dispatched_all, lemma_room_notice,
};
use crate::primitives::{
    one_status, statuses_view, Game, GameStatus, Player, PlayerView, StatusView,
};
use crate::telegram::{messages_view, Message, MessageView};
use crate::threading::{CommandView, ThreadMessage};
use vstd::prelude::*;

verus! {

/// Where a session stands in its life.
#[derive(Clone, Copy, PartialEq, Eq, Structural, Debug)]
pub enum Phase {
    /// No command has been handled yet.
    Idle,
    /// Commands are being handled.
    Active,
    /// The players have been warned that the session is about to expire.
    Warned,
    /// The session is over.
    Terminated,
}

/// How the handling of a command ended.
#[derive(Clone, Copy, PartialEq, Eq, Structural, Debug)]
pub enum Outcome {
    /// The session goes on.
    Running,
    /// The session is over: it was told to stop, or the game has ended.
    Finished,
    /// The command does not fit the state of the game; the session cannot
    /// go on.
    Failed,
}

/// A message to send.
#[derive(Debug)]
pub struct Delivery {
    /// What to send.
    pub message: Message,
    /// The earlier message to the same recipient whose place this one
    /// takes.
    pub replaces: Option<i64>,
    /// Whether the identifier of the message, once sent, is to be reported
    /// back.
    pub recorded: bool,
}

/// Mathematical value of a [`Delivery`].
pub struct DeliveryView {
    pub message: MessageView,
    pub replaces: Option<i64>,
    pub recorded: bool,
}

impl View for Delivery {
    type V = DeliveryView;

    open spec fn view(&self) -> DeliveryView {
        DeliveryView { message: self.message@, replaces: self.replaces, recorded: self.recorded }
    }
}

/// The views of a list of deliveries.
pub open spec fn deliveries_view(deliveries: Seq<Delivery>) -> Seq<DeliveryView> {
    Seq::new(deliveries.len(), |i: int| deliveries[i]@)
}

/// What the handling of one command comes to.
#[derive(Debug)]
pub struct Step {
    /// What the game reported.
    pub statuses: Vec<GameStatus>,
    /// The messages to send, in order.
    pub deliveries: Vec<Delivery>,
    /// Whether the session goes on.
    pub outcome: Outcome,
}

/// The identifier of the last message to a recipient, if one is on
/// record.
pub open spec fn last_message(sent: Seq<(i64, i64)>, chat_id: i64) -> Option<i64>
    decreases sent.len(),
{
    if sent.len() == 0 {
        None
    } else if sent[0].0 == chat_id {
        Some(sent[0].1)
    } else {
        last_message(sent.drop_first(), chat_id)
    }
}

/// The record with `message_id` as the last message to the recipient.
pub open spec fn with_message(sent: Seq<(i64, i64)>, chat_id: i64, message_id: i64) -> Seq<
    (i64, i64),
>
    decreases sent.len(),
{
    if sent.len() == 0 {
        seq![(chat_id, message_id)]
    } else if sent[0].0 == chat_id {
        sent.update(0, (chat_id, message_id))
    } else {
        seq![sent[0]] + with_message(sent.drop_first(), chat_id, message_id)
    }
}

/// After a message has been put on record it is the last one to its
/// recipient, and nothing has changed for anybody else.
pub proof fn lemma_with_message(sent: Seq<(i64, i64)>, chat_id: i64, message_id: i64, other: i64)
    ensures
        last_message(with_message(sent, chat_id, message_id), chat_id) == Some(message_id),
        other != chat_id ==> last_message(with_message(sent, chat_id, message_id), other)
            == last_message(sent, other),
    decreases sent.len(),
{
    let after = with_message(sent, chat_id, message_id);
    reveal_with_fuel(last_message, 2);
    if sent.len() == 0 {
        assert(after.drop_first() =~= Seq::<(i64, i64)>::empty());
        assert(after[0] == (chat_id, message_id));
    } else if sent[0].0 == chat_id {
        assert(after.drop_first() =~= sent.drop_first());
        assert(after[0] == (chat_id, message_id));
    } else {
        assert(after[0] == sent[0]);
        lemma_with_message(sent.drop_first(), chat_id, message_id, other);
        assert(after.drop_first() =~= with_message(sent.drop_first(), chat_id, message_id));
    }
}

/// Messages that take the place of the last message to their recipient
/// and are put on record.
pub open spec fn replacing(messages: Seq<MessageView>, sent: Seq<(i64, i64)>) -> Seq<
    DeliveryView,
> {
    Seq::new(
        messages.len(),
        |k: int|
            DeliveryView {
                message: messages[k],
                replaces: last_message(sent, messages[k].chat_id),
                recorded: true,
            },
    )
}

/// Messages that are sent beside the others and leave no trace.
pub open spec fn passing(messages: Seq<MessageView>) -> Seq<DeliveryView> {
    Seq::new(
        messages.len(),
        |k: int| DeliveryView { message: messages[k], replaces: None, recorded: false },
    )
}

/// What a player is told who asked to join.
pub open spec fn join_answer(out: Result<StatusView, Seq<char>>, player: PlayerView) -> StatusView {
    match out {
        Ok(status) => status,
        Err(reason) => StatusView::NotifyUser(player, reason),
    }
}

/// The warning that a session is about to expire.
pub open spec fn expiry_warning() -> Seq<char> {
    "Questo gioco sarà terminato per inattività a breve!"@
}

/// Whether the game cannot take the command as it stands.
pub open spec fn blocked<G: Game>(game: &G, command: CommandView) -> bool {
    match command {
        CommandView::Start => !game.can_start(),
        CommandView::HandleMove(by, card) => !game.can_move(by, card),
        _ => false,
    }
}

/// Whether the game has done what a start or a move asks for.
pub open spec fn taken<G: Game>(pre: &G, command: CommandView, post: &G) -> bool {
    match command {
        CommandView::Start => exists|out: StatusView| #[trigger] G::started(pre, post, out),
        CommandView::HandleMove(by, card) => exists|told: Seq<StatusView>| #[trigger]
            G::moved(pre, by, card, post, told),
        _ => false,
    }
}

/// Whether handling the command ends with a summary of the game.
pub open spec fn reports(command: CommandView) -> bool {
    command is Start || command is HandleMove
}

/// What the game does on a command and what it reports: the answer to a
/// player who joins; the outcome of a start or of a move and, after it, a
/// summary of the game for everyone; a warning when the session is about
/// to expire; nothing otherwise.
pub open spec fn batch<G: Game>(
    pre: &G,
    command: CommandView,
    post: &G,
    statuses: Seq<StatusView>,
) -> bool {
    match command {
        CommandView::AddPlayer(player) => exists|out: Result<StatusView, Seq<char>>|
            #[trigger] G::joined(pre, player, post, out) && statuses == seq![
                join_answer(out, player),
            ],
        CommandView::Start => {
            &&& statuses.len() == 2
            &&& G::started(pre, post, statuses[0])
            &&& statuses[1] == StatusView::NotifyRoom(post.status_text())
        },
        CommandView::HandleMove(by, card) => {
            &&& statuses.len() >= 1
            &&& G::moved(pre, by, card, post, statuses.drop_last())
            &&& statuses.last() == StatusView::NotifyRoom(post.status_text())
        },
        CommandView::AboutToKill => {
            &&& post == pre
            &&& statuses == seq![StatusView::NotifyRoom(expiry_warning())]
        },
        _ => post == pre && statuses.len() == 0,
    }
}

/// What is sent for a command: what a player wrote is answered on the
/// side; everything else the game reported is routed and made into one
/// message per recipient, which takes the place of the recipient's last.
pub open spec fn sending<G: Game>(
    pre: &G,
    command: CommandView,
    post: &G,
    statuses: Seq<StatusView>,
    sent: Seq<(i64, i64)>,
) -> Seq<DeliveryView> {
    match command {
        CommandView::HandleStringMessage(from, text) => passing(
            dispatched_all(pre.answer(text, from), pre.roster()),
        ),
        CommandView::Kill => Seq::empty(),
        _ => replacing(compacted(dispatched_all(statuses, post.roster())), sent),
    }
}

/// Whether a batch of statuses says that the game has ended.
pub open spec fn announces_end(statuses: Seq<StatusView>) -> bool {
    exists|k: int| 0 <= k < statuses.len() && #[trigger] statuses[k] == StatusView::GameEnded
}

/// The phase of a session after a command that it could handle.
pub open spec fn next_phase(
    phase: Phase,
    command: CommandView,
    statuses: Seq<StatusView>,
) -> Phase {
    if command is Kill || announces_end(statuses) {
        Phase::Terminated
    } else if command is AboutToKill {
        Phase::Warned
    } else if command is Ping {
        phase
    } else {
        Phase::Active
    }
}

/// The warning of a session that is about to expire goes to every player
/// once, without buttons, and changes nothing in the game; the session
/// goes on, warned. Where no two seats belong to the same player, each
/// message is the warning and nothing else.
pub proof fn lemma_expiry_warning<G: Game>(
    pre: &G,
    post: &G,
    statuses: Seq<StatusView>,
    sent: Seq<(i64, i64)>,
    phase: Phase,
)
    requires
        batch(pre, CommandView::AboutToKill, post, statuses),
    ensures
        post == pre,
        statuses == seq![StatusView::NotifyRoom(expiry_warning())],
        next_phase(phase, CommandView::AboutToKill, statuses) == Phase::Warned,
        ({
            let roster = pre.roster();
            let out = sending(pre, CommandView::AboutToKill, post, statuses, sent);
            &&& forall|k: int|
                0 <= k < out.len() ==> (#[trigger] out[k]).message.keyboard.is_none()
            &&& forall|a: int, b: int|
                0 <= a < b < out.len() ==> (#[trigger] out[a]).message.chat_id != (
                #[trigger] out[b]).message.chat_id
            &&& forall|i: int|
                0 <= i < roster.len() ==> exists|k: int|
                    0 <= k < out.len() && (#[trigger] out[k]).message.chat_id == (
                    #[trigger] roster[i]).id
            &&& (forall|a: int, b: int|
                0 <= a < b < roster.len() ==> (#[trigger] roster[a]).id != (
                #[trigger] roster[b]).id) ==> out == replacing(
                Seq::new(
                    roster.len(),
                    |i: int|
                        MessageView {
                            chat_id: roster[i].id,
                            text: expiry_warning(),
                            keyboard: None,
                        },
                ),
                sent,
            )
        }),
{
    let roster = pre.roster();
    assert(statuses[0] == StatusView::NotifyRoom(expiry_warning()));
    assert(!announces_end(statuses));
    lemma_room_notice(expiry_warning(), roster);
    let compact = compacted(dispatched_all(statuses, roster));
    let out = replacing(compact, sent);
    assert forall|i: int| 0 <= i < roster.len() implies exists|k: int|
        0 <= k < out.len() && (#[trigger] out[k]).message.chat_id == (#[trigger] roster[i]).id by {
        let k = choose|k: int|
            0 <= k < compact.len() && (#[trigger] compact[k]).chat_id == roster[i].id;
        assert(out[k].message.chat_id == roster[i].id);
    }
    assert forall|a: int, b: int| 0 <= a < b < out.len() implies (#[trigger] out[a]).message.chat_id
        != (#[trigger] out[b]).message.chat_id by {
        assert(compact[a].chat_id != compact[b].chat_id);
    }
    assert forall|k: int| 0 <= k < out.len() implies (
    #[trigger] out[k]).message.keyboard.is_none() by {
        assert(compact[k].keyboard.is_none());
    }
}

/// The command to stop reaches nobody and nothing: the game is not
/// asked, no message goes out, and the session is over.
pub proof fn lemma_kill<G: Game>(
    pre: &G,
    post: &G,
    statuses: Seq<StatusView>,
    sent: Seq<(i64, i64)>,
    phase: Phase,
)
    requires
        batch(pre, CommandView::Kill, post, statuses),
    ensures
        post == pre,
        statuses.len() == 0,
        sending(pre, CommandView::Kill, post, statuses, sent).len() == 0,
        next_phase(phase, CommandView::Kill, statuses) == Phase::Terminated,
{
}

/// The worker of one session.
pub struct Agent<G: Game> {
    game: G,
    message_list: Vec<(i64, i64)>,
    phase: Phase,
}

impl<G: Game> Agent<G> {
    /// The game of the session.
    pub closed spec fn game(&self) -> &G {
        &self.game
    }

    /// For each recipient that has been sent a message, the identifier of
    /// the last one.
    pub closed spec fn sent(&self) -> Seq<(i64, i64)> {
        self.message_list@
    }

    /// The phase of the session.
    pub closed spec fn phase(&self) -> Phase {
        self.phase
    }

    /// The invariant of a worker.
    pub open spec fn wf(&self) -> bool {
        self.game().wf()
    }

    /// A worker for a new game of the kind of `prototype`: the game is a
    /// new instance, prepared for play, with nobody at the table.
    pub fn new_agent(prototype: &G) -> (agent: Self)
        ensures
            agent.wf(),
            agent.phase() == Phase::Idle,
            agent.sent().len() == 0,
            agent.game().roster().len() == 0,
            agent.game().turn().is_none(),
            exists|fresh: G|
                fresh.wf() && fresh.can_init() && #[trigger] G::initialised(&fresh, agent.game()),
    {
        let mut game = prototype.get_new_instance();
        let ghost fresh = game;
        game.init();
        assert(G::initialised(&fresh, &game));
        Agent { game, message_list: Vec::new(), phase: Phase::Idle }
    }

    /// The phase of the session.
    pub fn get_phase(&self) -> (r: Phase)
        ensures
            r == self.phase(),
    {
        self.phase
    }

    /// The players of the session.
    pub fn get_players(&self) -> (r: Vec<Player>)
        ensures
            crate::primitives::roster_view(r@) == self.game().roster(),
    {
        self.game.get_players()
    }

    /// Puts on record that `message_id` is the last message to the
    /// recipient.
    pub fn record(&mut self, chat_id: i64, message_id: i64)
        ensures
            final(self).sent() == with_message(old(self).sent(), chat_id, message_id),
            final(self).game() == old(self).game(),
            final(self).phase() == old(self).phase(),
    {
        proof {
            let all = old(self).sent();
            assert(all.subrange(0, all.len() as int) =~= all);
            assert(all.subrange(0, 0) + with_message(all, chat_id, message_id) =~= with_message(
                all,
                chat_id,
                message_id,
            ));
        }
        let mut i: usize = 0;
        while i < self.message_list.len()
            invariant
                i <= self.message_list.len(),
                self.message_list == old(self).message_list,
                self.game == old(self).game,
                self.phase == old(self).phase,
                with_message(old(self).sent(), chat_id, message_id) == old(self).sent().subrange(
                    0,
                    i as int,
                ) + with_message(
                    old(self).sent().subrange(i as int, old(self).sent().len() as int),
                    chat_id,
                    message_id,
                ),
            decreases self.message_list.len() - i,
        {
            let ghost rest = old(self).sent().subrange(i as int, old(self).sent().len() as int);
            if self.message_list[i].0 == chat_id {
                self.message_list.set(i, (chat_id, message_id));
                proof {
                    assert(self.sent() =~= old(self).sent().subrange(0, i as int) + rest.update(
                        0,
                        (chat_id, message_id),
                    ));
                }
                return ;
            }
            proof {
                assert(rest.drop_first() =~= old(self).sent().subrange(
                    i + 1,
                    old(self).sent().len() as int,
                ));
                assert(old(self).sent().subrange(0, i + 1) =~= old(self).sent().subrange(
                    0,
                    i as int,
                ) + seq![rest[0]]);
                assert(old(self).sent().subrange(0, i as int) + (seq![rest[0]] + with_message(
                    rest.drop_first(),
                    chat_id,
                    message_id,
                )) =~= old(self).sent().subrange(0, i + 1) + with_message(
                    rest.drop_first(),
                    chat_id,
                    message_id,
                ));
            }
            i = i + 1;
        }
        proof {
            assert(old(self).sent().subrange(i as int, old(self).sent().len() as int)
                =~= Seq::<(i64, i64)>::empty());
            assert(old(self).sent().subrange(0, i as int) =~= old(self).sent());
        }
        self.message_list.push((chat_id, message_id));
        proof {
            assert(self.sent() =~= old(self).sent() + seq![(chat_id, message_id)]);
        }
    }

    /// The identifier of the last message to a recipient.
    fn last_message_to(&self, chat_id: i64) -> (r: Option<i64>)
        ensures
            r == last_message(self.sent(), chat_id),
    {
        assert(self.sent().subrange(0, self.sent().len() as int) =~= self.sent());
        let mut i: usize = 0;
        while i < self.message_list.len()
            invariant
                i <= self.message_list.len(),
                last_message(self.sent(), chat_id) == last_message(
                    self.sent().subrange(i as int, self.sent().len() as int),
                    chat_id,
                ),
            decreases self.message_list.len() - i,
        {
            if self.message_list[i].0 == chat_id {
                return Some(self.message_list[i].1);
            }
            proof {
                let rest = self.sent().subrange(i as int, self.sent().len() as int);
                assert(rest.drop_first() =~= self.sent().subrange(
                    i + 1,
                    self.sent().len() as int,
                ));
            }
            i = i + 1;
        }
        None
    }

    /// The deliveries that put `messages` in the place of the last
    /// messages to their recipients.
    fn plan(&self, messages: Vec<Message>) -> (r: Vec<Delivery>)
        ensures
            deliveries_view(r@) == replacing(messages_view(messages@), self.sent()),
    {
        let ghost all = messages_view(messages@);
        let mut messages = messages;
        let mut out: Vec<Delivery> = Vec::new();
        let n = messages.len();
        let mut i: usize = 0;
        while i < n
            invariant
                i <= n,
                n == all.len(),
                messages.len() == n,
                forall|j: int| i <= j < n ==> (#[trigger] messages[j])@ == all[j],
                out.len() == i,
                forall|j: int|
                    0 <= j < i ==> (#[trigger] out[j])@ == replacing(all, self.sent())[j],
            decreases n - i,
        {
            let replaces = self.last_message_to(messages[i].chat_id);
            let message = messages[i].clone();
            out.push(Delivery { message, replaces, recorded: true });
            i = i + 1;
        }
        assert(deliveries_view(out@) =~= replacing(all, self.sent()));
        out
    }

    /// The deliveries that send `messages` on the side.
    fn pass(messages: Vec<Message>) -> (r: Vec<Delivery>)
        ensures
            deliveries_view(r@) == passing(messages_view(messages@)),
    {
        let ghost all = messages_view(messages@);
        let mut out: Vec<Delivery> = Vec::new();
        let n = messages.len();
        let mut i: usize = 0;
        while i < n
            invariant
                i <= n,
                n == messages.len(),
                all == messages_view(messages@),
                out.len() == i,
                forall|j: int| 0 <= j < i ==> (#[trigger] out[j])@ == passing(all)[j],
            decreases n - i,
        {
            let message = messages[i].clone();
            out.push(Delivery { message, replaces: None, recorded: false });
            i = i + 1;
        }
        assert(deliveries_view(out@) =~= passing(all));
        out
    }

    /// A step that ends the session because the command does not fit the
    /// game.
    fn fail(&mut self) -> (step: Step)
        ensures
            final(self).game() == old(self).game(),
            final(self).sent() == old(self).sent(),
            final(self).phase() == Phase::Terminated,
            step.outcome == Outcome::Failed,
            step.statuses@.len() == 0,
            step.deliveries@.len() == 0,
    {
        self.phase = Phase::Terminated;
        Step { statuses: Vec::new(), deliveries: Vec::new(), outcome: Outcome::Failed }
    }

    /// Handles one command.
    ///
    /// A session that is over handles nothing. A start or a move that the
    /// game cannot take as it stands leaves the game alone and ends the
    /// session with [`Outcome::Failed`]; so does a game that has taken
    /// one and cannot be summed up afterwards. Otherwise the game does
    /// what the command asks, the deliveries carry what it reported, and
    /// the session ends when it was told to stop or the game reported its
    /// end.
    pub fn handle(&mut self, command: ThreadMessage) -> (step: Step)
        requires
            old(self).wf(),
        ensures
            final(self).wf(),
            final(self).sent() == old(self).sent(),
            old(self).phase() == Phase::Terminated ==> {
                &&& final(self).game() == old(self).game()
                &&& final(self).phase() == Phase::Terminated
                &&& step.outcome == Outcome::Finished
                &&& step.statuses@.len() == 0
                &&& step.deliveries@.len() == 0
            },
            old(self).phase() != Phase::Terminated && step.outcome == Outcome::Failed ==> {
                &&& final(self).phase() == Phase::Terminated
                &&& step.deliveries@.len() == 0
                &&& reports(command@)
                &&& blocked(old(self).game(), command@) || !final(self).game().can_report()
                &&& blocked(old(self).game(), command@) ==> final(self).game() == old(self).game()
                &&& !blocked(old(self).game(), command@) ==> taken(
                    old(self).game(),
                    command@,
                    final(self).game(),
                )
            },
            old(self).phase() != Phase::Terminated && step.outcome != Outcome::Failed ==> {
                &&& !blocked(old(self).game(), command@)
                &&& batch(
                    old(self).game(),
                    command@,
                    final(self).game(),
                    statuses_view(step.statuses@),
                )
                &&& deliveries_view(step.deliveries@) == sending(
                    old(self).game(),
                    command@,
                    final(self).game(),
                    statuses_view(step.statuses@),
                    old(self).sent(),
                )
                &&& final(self).phase() == next_phase(
                    old(self).phase(),
                    command@,
                    statuses_view(step.statuses@),
                )
                &&& (step.outcome == Outcome::Finished) == (final(self).phase()
                    == Phase::Terminated)
            },
    {
        if self.phase == Phase::Terminated {
            return Step {
                statuses: Vec::new(),
                deliveries: Vec::new(),
                outcome: Outcome::Finished,
            };
        }
        let warning = match &command {
            ThreadMessage::AboutToKill => true,
            _ => false,
        };
        let probe = match &command {
            ThreadMessage::Ping => true,
            _ => false,
        };
        let statuses: Vec<GameStatus> = match command {
            ThreadMessage::AddPlayer(player) => {
                let shown = player.clone();
                match self.game.add_player(player) {
                    Ok(status) => {
                        proof {
                            assert(G::joined(old(self).game(), shown@, self.game(), Ok(status@)));
                        }
                        one_status(status)
                    },
                    Err(reason) => {
                        proof {
                            assert(G::joined(old(self).game(), shown@, self.game(), Err(reason@)));
                        }
                        one_status(GameStatus::NotifyUser(shown, String::from_str(reason)))
                    },
                }
            },
            ThreadMessage::Start => {
                if !self.game.is_startable() {
                    return self.fail();
                }
                let status = self.game.start();
                if !self.game.is_reportable() {
                    let step = self.fail();
                    proof {
                        assert(G::started(old(self).game(), self.game(), status@));
                    }
                    return step;
                }
                let summary = self.game.get_status();
                crate::primitives::two_statuses(status, GameStatus::NotifyRoom(summary))
            },
            ThreadMessage::HandleMove(by, card) => {
                if !self.game.accepts_move(&by, &card) {
                    return self.fail();
                }
                let mut moved = self.game.handle_move(&by, card);
                if !self.game.is_reportable() {
                    let step = self.fail();
                    proof {
                        assert(G::moved(
                            old(self).game(),
                            by@,
                            card,
                            self.game(),
                            statuses_view(moved@),
                        ));
                    }
                    return step;
                }
                let summary = self.game.get_status();
                let ghost before = statuses_view(moved@);
                moved.push(GameStatus::NotifyRoom(summary));
                proof {
                    assert(statuses_view(moved@).drop_last() =~= before);
                }
                moved
            },
            ThreadMessage::HandleStringMessage(from, text) => {
                let roster = self.game.get_players();
                let answers = self.game.handle_message(text, from);
                let direct = dispatch_all(&answers, &roster);
                self.phase = Phase::Active;
                proof {
                    assert(!announces_end(Seq::<StatusView>::empty()));
                }
                let out = Step {
                    statuses: Vec::new(),
                    deliveries: Self::pass(direct),
                    outcome: Outcome::Running,
                };
                proof {
                    assert(statuses_view(out.statuses@) =~= Seq::<StatusView>::empty());
                }
                return out;
            },
            ThreadMessage::Kill => {
                self.phase = Phase::Terminated;
                let out = Step {
                    statuses: Vec::new(),
                    deliveries: Vec::new(),
                    outcome: Outcome::Finished,
                };
                proof {
                    assert(deliveries_view(out.deliveries@) =~= Seq::<DeliveryView>::empty());
                }
                return out;
            },
            ThreadMessage::Ping => Vec::new(),
            ThreadMessage::AboutToKill => one_status(
                GameStatus::NotifyRoom(
                    String::from_str("Questo gioco sarà terminato per inattività a breve!"),
                ),
            ),
        };
        let ended = Self::has_ended(&statuses);
        let roster = self.game.get_players();
        let deliveries = self.plan(compact_messages(dispatch_all(&statuses, &roster)));
        self.phase = if ended {
            Phase::Terminated
        } else if warning {
            Phase::Warned
        } else if probe {
            self.phase
        } else {
            Phase::Active
        };
        Step {
            statuses,
            deliveries,
            outcome: if ended {
                Outcome::Finished
            } else {
                Outcome::Running
            },
        }
    }

    /// Whether a batch of statuses says that the game has ended.
    fn has_ended(statuses: &Vec<GameStatus>) -> (r: bool)
        ensures
            r == announces_end(statuses_view(statuses@)),
    {
        let mut i: usize = 0;
        while i < statuses.len()
            invariant
                i <= statuses.len(),
                forall|j: int|
                    0 <= j < i ==> (#[trigger] statuses_view(statuses@)[j])
                        != StatusView::GameEnded,
            decreases statuses.len() - i,
        {
            if statuses[i].is_game_ended() {
                assert(statuses_view(statuses@)[i as int] == StatusView::GameEnded);
                return true;
            }
            i = i + 1;
        }
        false
    }
}

} // verus!
