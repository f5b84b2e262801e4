//! From the statuses of one command to the messages that go out: who is
//! told what, and one message per recipient.

use crate::primitives::{GameStatus, Player, PlayerView, StatusView};
use crate::primitives::roster_view;
use crate::telegram::{
    copy_keyboard, copy_row, keyboard_view, messages_view, row_view, status_for, status_message,
    ButtonView, Button, Message, MessageView,
};
use crate::text::joined;
use vstd::prelude::*;

verus! {

/// The echo of a status for the player at `seat`: its text, without
/// buttons.
pub open spec fn echo_for(roster: Seq<PlayerView>, seat: int, status: StatusView) -> MessageView {
    status_for(roster[seat], StatusView::NotifyUser(roster[seat], status_message(status)))
}

/// Who is told a status, and how.
///
/// A request for a card and a note to one player go to that player
/// alone. That somebody joined goes to the first player of the roster as
/// it is, with the button that starts the game once the roster is ready;
/// the others, from the last to join back to the second, get its text
/// alone. Everything else goes to every player, in joining order.
pub open spec fn dispatched(status: StatusView, roster: Seq<PlayerView>) -> Seq<MessageView> {
    match status {
        StatusView::WaitingForChoice(p, _) => seq![status_for(p, status)],
        StatusView::WaitingForChoiceCustomMessage(p, _, _) => seq![status_for(p, status)],
        StatusView::NotifyUser(p, _) => seq![status_for(p, status)],
        StatusView::WaitingForPlayers(_, _) => if roster.len() == 0 {
            Seq::empty()
        } else {
            seq![status_for(roster[0], status)] + Seq::new(
                (roster.len() - 1) as nat,
                |i: int| echo_for(roster, roster.len() - 1 - i, status),
            )
        },
        _ => Seq::new(roster.len(), |i: int| status_for(roster[i], status)),
    }
}

/// Routes a status to the players it is meant for.
pub fn dispatch_game_status(status: &GameStatus, roster: &Vec<Player>) -> (r: Vec<Message>)
    ensures
        messages_view(r@) == dispatched(status@, roster_view(roster@)),
{
    let mut out: Vec<Message> = Vec::new();
    match status {
        GameStatus::WaitingForChoice(p, _) => {
            out.push(Message::from_status(p, status));
        },
        GameStatus::WaitingForChoiceCustomMessage(p, _, _) => {
            out.push(Message::from_status(p, status));
        },
        GameStatus::NotifyUser(p, _) => {
            out.push(Message::from_status(p, status));
        },
        GameStatus::WaitingForPlayers(_, _) => {
            if roster.len() > 0 {
                let first = Message::from_status(&roster[0], status);
                let text = first.text.clone();
                out.push(first);
                let n = roster.len();
                let mut i: usize = 0;
                while i < n - 1
                    invariant
                        0 < n == roster.len(),
                        i <= n - 1,
                        text@ == status_message(status@),
                        out.len() == i + 1,
                        out[0]@ == status_for(roster[0]@, status@),
                        forall|j: int|
                            0 <= j < i ==> (#[trigger] out[j + 1])@ == echo_for(
                                roster_view(roster@),
                                n - 1 - j,
                                status@,
                            ),
                    decreases n - 1 - i,
                {
                    let player = &roster[n - 1 - i];
                    let echo = GameStatus::NotifyUser(player.clone(), text.clone());
                    out.push(Message::from_status(player, &echo));
                    i = i + 1;
                }
                proof {
                    let expected = dispatched(status@, roster_view(roster@));
                    assert(messages_view(out@).len() == expected.len());
                    assert forall|k: int| 0 <= k < expected.len() implies messages_view(out@)[k]
                        == expected[k] by {
                        if k > 0 {
                            assert(out[(k - 1) + 1]@ == echo_for(
                                roster_view(roster@),
                                n - 1 - (k - 1),
                                status@,
                            ));
                        }
                    }
                }
            }
        },
        _ => {
            let mut i: usize = 0;
            while i < roster.len()
                invariant
                    i <= roster.len(),
                    out.len() == i,
                    forall|j: int|
                        0 <= j < i ==> (#[trigger] out[j])@ == status_for(roster[j]@, status@),
                decreases roster.len() - i,
            {
                out.push(Message::from_status(&roster[i], status));
                i = i + 1;
            }
        },
    }
    assert(messages_view(out@) =~= dispatched(status@, roster_view(roster@)));
    out
}

/// When somebody joins, the first player of the roster is shown the
/// status itself, with the button that starts the game exactly when the
/// roster is ready; every other player is shown the same words and no
/// button.
pub proof fn lemma_lobby_dispatch(ready: bool, joined: PlayerView, roster: Seq<PlayerView>)
    requires
        roster.len() > 0,
    ensures
        ({
            let status = StatusView::WaitingForPlayers(ready, joined);
            let out = dispatched(status, roster);
            &&& out.len() == roster.len()
            &&& out[0].chat_id == roster[0].id
            &&& out[0].keyboard.is_some() == ready
            &&& forall|k: int|
                0 <= k < out.len() ==> (#[trigger] out[k]).text == status_message(status)
            &&& forall|k: int|
                1 <= k < out.len() ==> (#[trigger] out[k]).keyboard.is_none() && out[k].chat_id
                    == roster[roster.len() - k].id
        }),
{
}

impl GameStatus {
    /// Routes this status to the players it is meant for.
    pub fn dispatch(&self, roster: &Vec<Player>) -> (r: Vec<Message>)
        ensures
            messages_view(r@) == dispatched(self@, roster_view(roster@)),
    {
        dispatch_game_status(self, roster)
    }
}

/// The messages for all statuses of a batch, status by status.
pub open spec fn dispatched_all(statuses: Seq<StatusView>, roster: Seq<PlayerView>) -> Seq<
    MessageView,
>
    decreases statuses.len(),
{
    if statuses.len() == 0 {
        Seq::empty()
    } else {
        dispatched_all(statuses.drop_last(), roster) + dispatched(statuses.last(), roster)
    }
}

/// Routes every status of a batch and puts the messages one after the
/// other.
pub fn dispatch_all(statuses: &Vec<GameStatus>, roster: &Vec<Player>) -> (r: Vec<Message>)
    ensures
        messages_view(r@) == dispatched_all(
            crate::primitives::statuses_view(statuses@),
            roster_view(roster@),
        ),
{
    let ghost all = crate::primitives::statuses_view(statuses@);
    let ghost seats = roster_view(roster@);
    let mut out: Vec<Message> = Vec::new();
    let mut i: usize = 0;
    while i < statuses.len()
        invariant
            i <= statuses.len(),
            all == crate::primitives::statuses_view(statuses@),
            seats == roster_view(roster@),
            messages_view(out@) == dispatched_all(all.subrange(0, i as int), seats),
        decreases statuses.len() - i,
    {
        let ghost before = messages_view(out@);
        let mut more = dispatch_game_status(&statuses[i], roster);
        let ghost added = messages_view(more@);
        out.append(&mut more);
        proof {
            assert(all.subrange(0, i + 1).drop_last() =~= all.subrange(0, i as int));
            assert(all.subrange(0, i + 1).last() == statuses[i as int]@);
            assert(messages_view(out@) =~= before + added);
        }
        i = i + 1;
    }
    assert(all.subrange(0, statuses.len() as int) =~= all);
    out
}

/// The recipients of a list of messages, each once, in the order in which
/// they first occur.
pub open spec fn recipients(list: Seq<MessageView>) -> Seq<i64>
    decreases list.len(),
{
    if list.len() == 0 {
        Seq::empty()
    } else {
        let before = recipients(list.drop_last());
        if before.contains(list.last().chat_id) {
            before
        } else {
            before.push(list.last().chat_id)
        }
    }
}

/// The texts of the messages for one recipient, in order.
pub open spec fn texts_for(list: Seq<MessageView>, id: i64) -> Seq<Seq<char>>
    decreases list.len(),
{
    if list.len() == 0 {
        Seq::empty()
    } else {
        let before = texts_for(list.drop_last(), id);
        if list.last().chat_id == id {
            before.push(list.last().text)
        } else {
            before
        }
    }
}

/// The texts of the messages for one recipient, in order, with a line
/// break between one and the next.
pub open spec fn merged_text(list: Seq<MessageView>, id: i64) -> Seq<char> {
    joined(texts_for(list, id), "\n"@)
}

/// The rows of all grids of the messages for one recipient, in order; no
/// grid at all if none of the messages has one.
pub open spec fn merged_keyboard(list: Seq<MessageView>, id: i64) -> Option<Seq<Seq<ButtonView>>>
    decreases list.len(),
{
    if list.len() == 0 {
        None
    } else {
        let before = merged_keyboard(list.drop_last(), id);
        let last = list.last();
        if last.chat_id == id && last.keyboard.is_some() {
            Some(
                match before {
                    Some(rows) => rows + last.keyboard.unwrap(),
                    None => last.keyboard.unwrap(),
                },
            )
        } else {
            before
        }
    }
}

/// The one message that a recipient gets for a list of messages.
pub open spec fn merged_for(list: Seq<MessageView>, id: i64) -> MessageView {
    MessageView { chat_id: id, text: merged_text(list, id), keyboard: merged_keyboard(list, id) }
}

/// A list of messages made into one message per recipient.
pub open spec fn compacted(list: Seq<MessageView>) -> Seq<MessageView> {
    Seq::new(recipients(list).len(), |k: int| merged_for(list, recipients(list)[k]))
}

/// The recipients of a list are exactly those of its messages, each
/// once.
pub proof fn lemma_recipients(list: Seq<MessageView>)
    ensures
        recipients(list).no_duplicates(),
        forall|k: int|
            0 <= k < list.len() ==> recipients(list).contains((#[trigger] list[k]).chat_id),
        forall|j: int|
            0 <= j < recipients(list).len() ==> exists|k: int|
                0 <= k < list.len() && (#[trigger] list[k]).chat_id == #[trigger] recipients(
                    list,
                )[j],
    decreases list.len(),
{
    if list.len() > 0 {
        let front = list.drop_last();
        lemma_recipients(front);
        let before = recipients(front);
        let id = list.last().chat_id;
        assert forall|k: int| 0 <= k < list.len() implies recipients(list).contains(
            (#[trigger] list[k]).chat_id,
        ) by {
            if k < front.len() {
                assert(front[k] == list[k]);
                let j = choose|j: int| 0 <= j < before.len() && before[j] == front[k].chat_id;
                assert(recipients(list)[j] == list[k].chat_id);
            } else if before.contains(id) {
            } else {
                assert(recipients(list)[before.len() as int] == id);
            }
        }
        assert forall|j: int| 0 <= j < recipients(list).len() implies exists|k: int|
            0 <= k < list.len() && (#[trigger] list[k]).chat_id == #[trigger] recipients(
                list,
            )[j] by {
            if j < before.len() {
                let k = choose|k: int|
                    0 <= k < front.len() && (#[trigger] front[k]).chat_id == before[j];
                assert(list[k].chat_id == recipients(list)[j]);
            } else {
                assert(list[list.len() - 1].chat_id == recipients(list)[j]);
            }
        }
    }
}

/// A recipient of a list has a text in it.
pub proof fn lemma_a_recipient(list: Seq<MessageView>, id: i64)
    requires
        recipients(list).contains(id),
    ensures
        texts_for(list, id).len() > 0,
    decreases list.len(),
{
    if list.len() > 0 {
        let before = recipients(list.drop_last());
        if list.last().chat_id != id {
            if !before.contains(id) {
                let j = choose|j: int| 0 <= j < recipients(list).len() && recipients(list)[j] == id;
                if j < before.len() {
                    assert(before[j] == id);
                }
            }
            lemma_a_recipient(list.drop_last(), id);
        }
    }
}

/// Somebody who is not a recipient of a list gets nothing from it.
pub proof fn lemma_not_a_recipient(list: Seq<MessageView>, id: i64)
    requires
        !recipients(list).contains(id),
    ensures
        texts_for(list, id).len() == 0,
        merged_keyboard(list, id).is_none(),
    decreases list.len(),
{
    if list.len() > 0 {
        let before = recipients(list.drop_last());
        if before.contains(list.last().chat_id) {
            lemma_not_a_recipient(list.drop_last(), id);
        } else {
            assert(recipients(list)[before.len() as int] == list.last().chat_id);
            if before.contains(id) {
                let j = choose|j: int| 0 <= j < before.len() && before[j] == id;
                assert(recipients(list)[j] == id);
            }
            lemma_not_a_recipient(list.drop_last(), id);
        }
    }
}

/// Compacting leaves one message for every recipient of the list and
/// none for anybody else.
pub proof fn lemma_one_message_per_recipient(list: Seq<MessageView>)
    ensures
        forall|a: int, b: int|
            0 <= a < b < compacted(list).len() ==> (#[trigger] compacted(list)[a]).chat_id != (
            #[trigger] compacted(list)[b]).chat_id,
        forall|k: int|
            0 <= k < list.len() ==> exists|j: int|
                0 <= j < compacted(list).len() && (#[trigger] compacted(list)[j]).chat_id == (
                #[trigger] list[k]).chat_id,
        forall|j: int|
            0 <= j < compacted(list).len() ==> exists|k: int|
                0 <= k < list.len() && (#[trigger] list[k]).chat_id == (#[trigger] compacted(
                    list,
                )[j]).chat_id,
{
    lemma_recipients(list);
    assert forall|j: int| 0 <= j < compacted(list).len() implies exists|k: int|
        0 <= k < list.len() && (#[trigger] list[k]).chat_id == (#[trigger] compacted(
            list,
        )[j]).chat_id by {
        let id = recipients(list)[j];
        let k = choose|k: int| 0 <= k < list.len() && (#[trigger] list[k]).chat_id == id;
        assert(list[k].chat_id == compacted(list)[j].chat_id);
    }
    assert forall|k: int| 0 <= k < list.len() implies exists|j: int|
        0 <= j < compacted(list).len() && (#[trigger] compacted(list)[j]).chat_id == (
        #[trigger] list[k]).chat_id by {
        assert(recipients(list).contains(list[k].chat_id));
        let j = choose|j: int|
            0 <= j < recipients(list).len() && recipients(list)[j] == list[k].chat_id;
        assert(compacted(list)[j].chat_id == list[k].chat_id);
    }
}

/// Messages without buttons make messages without buttons.
pub proof fn lemma_no_keyboards(list: Seq<MessageView>)
    requires
        forall|k: int| 0 <= k < list.len() ==> (#[trigger] list[k]).keyboard.is_none(),
    ensures
        forall|id: i64| (#[trigger] merged_keyboard(list, id)).is_none(),
        forall|j: int|
            0 <= j < compacted(list).len() ==> (#[trigger] compacted(list)[j]).keyboard.is_none(),
    decreases list.len(),
{
    if list.len() > 0 {
        lemma_no_keyboards(list.drop_last());
        assert(list.last().keyboard.is_none());
        assert forall|id: i64| (#[trigger] merged_keyboard(list, id)).is_none() by {
            assert(merged_keyboard(list.drop_last(), id).is_none());
        }
    }
}

/// What the recipient of the message at `k` gets from a list that has
/// one message for each recipient: that message.
proof fn lemma_single_message(list: Seq<MessageView>, k: int)
    requires
        0 <= k < list.len(),
        forall|a: int, b: int|
            0 <= a < b < list.len() ==> (#[trigger] list[a]).chat_id != (
            #[trigger] list[b]).chat_id,
    ensures
        recipients(list) == Seq::new(list.len(), |i: int| list[i].chat_id),
        merged_for(list, list[k].chat_id) == list[k],
    decreases list.len(),
{
    let front = list.drop_last();
    let ids = Seq::new(list.len(), |i: int| list[i].chat_id);
    let last = list.len() - 1;
    assert forall|a: int, b: int| 0 <= a < b < front.len() implies (#[trigger] front[a]).chat_id
        != (#[trigger] front[b]).chat_id by {
        assert(front[a] == list[a]);
        assert(front[b] == list[b]);
    }
    if front.len() > 0 {
        lemma_single_message(front, 0);
    }
    let before = recipients(front);
    assert(before =~= Seq::new(front.len(), |i: int| front[i].chat_id));
    assert(!before.contains(list[last].chat_id)) by {
        if before.contains(list[last].chat_id) {
            let j = choose|j: int| 0 <= j < before.len() && before[j] == list[last].chat_id;
            assert(front[j] == list[j]);
            assert(list[j].chat_id != list[last].chat_id);
        }
    }
    assert(recipients(list) =~= ids);
    let id = list[k].chat_id;
    if k == last {
        lemma_not_a_recipient(front, id);
        assert(texts_for(list, id) =~= seq![list[k].text]);
    } else {
        lemma_single_message(front, k);
        assert(front[k] == list[k]);
        assert(list[k].chat_id != list[last].chat_id);
    }
}

/// A list that has one message for each recipient stays as it is.
pub proof fn lemma_distinct_recipients(list: Seq<MessageView>)
    requires
        forall|a: int, b: int|
            0 <= a < b < list.len() ==> (#[trigger] list[a]).chat_id != (
            #[trigger] list[b]).chat_id,
    ensures
        compacted(list) == list,
{
    if list.len() > 0 {
        lemma_single_message(list, 0);
    }
    assert forall|k: int| 0 <= k < list.len() implies compacted(list)[k] == list[k] by {
        lemma_single_message(list, k);
    }
    assert(compacted(list) =~= list);
}

/// A notice for the room, alone in its batch, reaches every player once
/// and without buttons. Where no two seats belong to the same player,
/// each message is the notice and nothing else.
pub proof fn lemma_room_notice(text: Seq<char>, roster: Seq<PlayerView>)
    ensures
        ({
            let out = compacted(dispatched_all(seq![StatusView::NotifyRoom(text)], roster));
            &&& forall|k: int| 0 <= k < out.len() ==> (#[trigger] out[k]).keyboard.is_none()
            &&& forall|a: int, b: int|
                0 <= a < b < out.len() ==> (#[trigger] out[a]).chat_id != (
                #[trigger] out[b]).chat_id
            &&& forall|i: int|
                0 <= i < roster.len() ==> exists|k: int|
                    0 <= k < out.len() && (#[trigger] out[k]).chat_id == (
                    #[trigger] roster[i]).id
            &&& (forall|a: int, b: int|
                0 <= a < b < roster.len() ==> (#[trigger] roster[a]).id != (
                #[trigger] roster[b]).id) ==> out == Seq::new(
                roster.len(),
                |i: int| MessageView { chat_id: roster[i].id, text, keyboard: None },
            )
        }),
{
    let notice = StatusView::NotifyRoom(text);
    let statuses = seq![notice];
    let list = dispatched(notice, roster);
    let plain = Seq::new(
        roster.len(),
        |i: int| MessageView { chat_id: roster[i].id, text, keyboard: None },
    );
    assert(list =~= plain);
    assert(dispatched_all(statuses, roster) == list) by {
        reveal_with_fuel(dispatched_all, 2);
        assert(statuses.drop_last() =~= Seq::<StatusView>::empty());
        assert(statuses.last() == notice);
        assert(Seq::<MessageView>::empty() + list =~= list);
    }
    let out = compacted(list);
    lemma_no_keyboards(list);
    lemma_one_message_per_recipient(list);
    assert forall|i: int| 0 <= i < roster.len() implies exists|k: int|
        0 <= k < out.len() && (#[trigger] out[k]).chat_id == (#[trigger] roster[i]).id by {
        assert(list[i].chat_id == roster[i].id);
    }
    if forall|a: int, b: int|
        0 <= a < b < roster.len() ==> (#[trigger] roster[a]).id != (#[trigger] roster[b]).id {
        assert forall|a: int, b: int| 0 <= a < b < list.len() implies (#[trigger] list[a]).chat_id
            != (#[trigger] list[b]).chat_id by {
            assert(roster[a].id != roster[b].id);
        }
        lemma_distinct_recipients(list);
    }
}

/// The place of a recipient among the messages, or their number.
fn find_recipient(out: &Vec<Message>, id: i64) -> (place: usize)
    ensures
        place <= out.len(),
        place < out.len() ==> out[place as int].chat_id == id,
        forall|j: int| 0 <= j < place ==> (#[trigger] out[j]).chat_id != id,
{
    let mut i: usize = 0;
    while i < out.len()
        invariant
            i <= out.len(),
            forall|j: int| 0 <= j < i ==> (#[trigger] out[j]).chat_id != id,
        decreases out.len() - i,
    {
        if out[i].chat_id == id {
            return i;
        }
        i = i + 1;
    }
    i
}

/// The rows of `first` followed by the rows of `second`.
fn join_keyboards(first: &Vec<Vec<Button>>, second: &Vec<Vec<Button>>) -> (r: Vec<Vec<Button>>)
    ensures
        keyboard_view(r@) == keyboard_view(first@) + keyboard_view(second@),
{
    let mut out = copy_keyboard(first);
    let ghost start = keyboard_view(out@);
    proof {
        assert(keyboard_view(out@).len() == out.len());
        assert(keyboard_view(first@).len() == first.len());
        assert forall|j: int| 0 <= j < first.len() implies row_view((#[trigger] out[j])@)
            == start[j] by {
            assert(keyboard_view(out@)[j] == row_view(out[j]@));
        }
    }
    let mut i: usize = 0;
    while i < second.len()
        invariant
            i <= second.len(),
            start == keyboard_view(first@),
            out.len() == first.len() + i,
            forall|j: int| 0 <= j < first.len() ==> row_view((#[trigger] out[j])@) == start[j],
            forall|j: int|
                0 <= j < i ==> row_view((#[trigger] out[first.len() + j])@) == row_view(
                    second[j]@,
                ),
        decreases second.len() - i,
    {
        out.push(copy_row(&second[i]));
        i = i + 1;
    }
    proof {
        let expected = keyboard_view(first@) + keyboard_view(second@);
        assert(keyboard_view(out@).len() == expected.len());
        assert forall|k: int| 0 <= k < expected.len() implies keyboard_view(out@)[k]
            == expected[k] by {
            if k >= first.len() {
                assert(row_view(out[first.len() + (k - first.len())]@) == row_view(
                    second[k - first.len()]@,
                ));
            } else {
                assert(row_view(out[k]@) == start[k]);
            }
        }
        assert(keyboard_view(out@) =~= expected);
    }
    out
}

/// Makes one message per recipient out of a list of messages: the texts
/// one after the other with a line break between them, and the rows of
/// all grids together. The recipients come in the order in which the
/// list first names them.
pub fn compact_messages(list: Vec<Message>) -> (r: Vec<Message>)
    ensures
        messages_view(r@) == compacted(messages_view(list@)),
{
    let ghost all = messages_view(list@);
    let mut out: Vec<Message> = Vec::new();
    let mut i: usize = 0;
    while i < list.len()
        invariant
            i <= list.len(),
            all == messages_view(list@),
            messages_view(out@) == compacted(all.subrange(0, i as int)),
        decreases list.len() - i,
    {
        let message = &list[i];
        let ghost before = all.subrange(0, i as int);
        let ghost after = all.subrange(0, i + 1);
        let ghost id = message.chat_id;
        proof {
            assert(after.drop_last() =~= before);
            assert(after.last() == message@);
            lemma_recipients(before);
        }
        let place = find_recipient(&out, message.chat_id);
        proof {
            assert(messages_view(out@).len() == out.len());
            assert forall|j: int| 0 <= j < out.len() implies (#[trigger] out[j]).chat_id
                == recipients(before)[j] by {
                assert(messages_view(out@)[j] == compacted(before)[j]);
            }
        }
        if place < out.len() {
            let known = &out[place];
            proof {
                assert(messages_view(out@)[place as int] == compacted(before)[place as int]);
                assert(recipients(before)[place as int] == id);
                assert(recipients(after) == recipients(before));
                lemma_a_recipient(before, id);
                assert(texts_for(after, id).drop_last() =~= texts_for(before, id));
            }
            let mut text = known.text.clone();
            text.append("\n");
            text.append(message.text.as_str());
            let keyboard = match (&known.keyboard, &message.keyboard) {
                (Some(first), Some(second)) => Some(join_keyboards(first, second)),
                (None, Some(second)) => Some(copy_keyboard(second)),
                (Some(first), None) => Some(copy_keyboard(first)),
                (None, None) => None,
            };
            let merged = Message { chat_id: message.chat_id, text, keyboard };
            proof {
                assert(merged@.text =~= merged_text(after, id));
                assert(merged@ == merged_for(after, id));
            }
            out.set(place, merged);
            proof {
                assert forall|k: int| 0 <= k < out.len() implies (#[trigger] messages_view(
                    out@,
                )[k]) == compacted(after)[k] by {
                    if k != place {
                        assert(recipients(before)[k] != id) by {
                            assert(recipients(before).no_duplicates());
                        }
                        assert(compacted(before)[k] == merged_for(before, recipients(before)[k]));
                    }
                }
                assert(messages_view(out@) =~= compacted(after));
            }
        } else {
            proof {
                assert(!recipients(before).contains(id)) by {
                    if recipients(before).contains(id) {
                        let j = choose|j: int|
                            0 <= j < recipients(before).len() && recipients(before)[j] == id;
                        assert(out[j].chat_id == id);
                    }
                }
                lemma_not_a_recipient(before, id);
                assert(recipients(after) == recipients(before).push(id));
            }
            let text = message.text.clone();
            let keyboard = match &message.keyboard {
                Some(rows) => Some(copy_keyboard(rows)),
                None => None,
            };
            let fresh = Message { chat_id: message.chat_id, text, keyboard };
            proof {
                assert(fresh@.text =~= merged_text(after, id));
                assert(fresh@ == merged_for(after, id));
            }
            out.push(fresh);
            proof {
                assert forall|k: int| 0 <= k < out.len() implies (#[trigger] messages_view(
                    out@,
                )[k]) == compacted(after)[k] by {
                    if k < out.len() - 1 {
                        assert(recipients(before)[k] != id);
                        assert(compacted(before)[k] == merged_for(before, recipients(before)[k]));
                    }
                }
                assert(messages_view(out@) =~= compacted(after));
            }
        }
        i = i + 1;
    }
    assert(all.subrange(0, list.len() as int) =~= all);
    out
}

} // verus!
