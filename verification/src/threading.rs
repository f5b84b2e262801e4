//! The commands that a session takes from its mailbox.

use crate::primitives::{Card, Player, PlayerView};
use vstd::prelude::*;

verus! {

/// A command for a session.
#[derive(Debug)]
pub enum ThreadMessage {
    HandleMove(Player, Card),
    AddPlayer(Player),
    Start,
    Kill,
    Ping,
    AboutToKill,
    HandleStringMessage(Player, String),
}

/// Mathematical value of a [`ThreadMessage`].
pub enum CommandView {
    HandleMove(PlayerView, Card),
    AddPlayer(PlayerView),
    Start,
    Kill,
    Ping,
    AboutToKill,
    HandleStringMessage(PlayerView, Seq<char>),
}

impl View for ThreadMessage {
    type V = CommandView;

    open spec fn view(&self) -> CommandView {
        match *self {
            ThreadMessage::HandleMove(p, card) => CommandView::HandleMove(p@, card),
            ThreadMessage::AddPlayer(p) => CommandView::AddPlayer(p@),
            ThreadMessage::Start => CommandView::Start,
            ThreadMessage::Kill => CommandView::Kill,
            ThreadMessage::Ping => CommandView::Ping,
            ThreadMessage::AboutToKill => CommandView::AboutToKill,
            ThreadMessage::HandleStringMessage(p, text) => CommandView::HandleStringMessage(
                p@,
                text@,
            ),
        }
    }
}

impl Clone for ThreadMessage {
    fn clone(&self) -> (r: Self)
        ensures
            r@ == self@,
    {
        match self {
            ThreadMessage::HandleMove(p, card) => ThreadMessage::HandleMove(p.clone(), *card),
            ThreadMessage::AddPlayer(p) => ThreadMessage::AddPlayer(p.clone()),
            ThreadMessage::Start => ThreadMessage::Start,
            ThreadMessage::Kill => ThreadMessage::Kill,
            ThreadMessage::Ping => ThreadMessage::Ping,
            ThreadMessage::AboutToKill => ThreadMessage::AboutToKill,
            ThreadMessage::HandleStringMessage(p, text) => ThreadMessage::HandleStringMessage(
                p.clone(),
                text.clone(),
            ),
        }
    }
}

} // verus!
