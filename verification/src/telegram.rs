//! Outbound messages: a recipient, a text and, for some, a grid of
//! buttons; and what each game status looks like as a message.

use crate::games::GameKind;
use crate::primitives::{Card, GameStatus, Player, PlayerView, StatusView};
use crate::text::{decimal, decimal_string, join, joined, signed_decimal, signed_decimal_string};
use crate::token::{card_token, game_token, menu_token, move_token};
use crate::utils::{card_name, get_card_name};
use vstd::prelude::*;

verus! {

/// A button: what it shows and what pressing it sends back.
#[derive(Debug)]
pub struct Button {
    pub id: String,
    pub text: String,
}

/// Mathematical value of a [`Button`].
pub struct ButtonView {
    pub id: Seq<char>,
    pub text: Seq<char>,
}

impl View for Button {
    type V = ButtonView;

    open spec fn view(&self) -> ButtonView {
        ButtonView { id: self.id@, text: self.text@ }
    }
}

impl Clone for Button {
    fn clone(&self) -> (r: Self)
        ensures
            r == *self,
    {
        Button { id: self.id.clone(), text: self.text.clone() }
    }
}

/// The views of a row of buttons.
pub open spec fn row_view(row: Seq<Button>) -> Seq<ButtonView> {
    Seq::new(row.len(), |j: int| row[j]@)
}

/// The views of a grid of buttons.
pub open spec fn keyboard_view(rows: Seq<Vec<Button>>) -> Seq<Seq<ButtonView>> {
    Seq::new(rows.len(), |i: int| row_view(rows[i]@))
}

/// A message for one recipient.
#[derive(Debug)]
pub struct Message {
    pub chat_id: i64,
    pub text: String,
    pub keyboard: Option<Vec<Vec<Button>>>,
}

/// Mathematical value of a [`Message`].
pub struct MessageView {
    pub chat_id: i64,
    pub text: Seq<char>,
    pub keyboard: Option<Seq<Seq<ButtonView>>>,
}

impl View for Message {
    type V = MessageView;

    open spec fn view(&self) -> MessageView {
        MessageView {
            chat_id: self.chat_id,
            text: self.text@,
            keyboard: match self.keyboard {
                Some(rows) => Some(keyboard_view(rows@)),
                None => None,
            },
        }
    }
}

/// The views of a list of messages.
pub open spec fn messages_view(messages: Seq<Message>) -> Seq<MessageView> {
    Seq::new(messages.len(), |i: int| messages[i]@)
}

/// Copies a row of buttons.
pub fn copy_row(row: &Vec<Button>) -> (r: Vec<Button>)
    ensures
        row_view(r@) == row_view(row@),
{
    let mut out: Vec<Button> = Vec::new();
    let mut i: usize = 0;
    while i < row.len()
        invariant
            i <= row.len(),
            out.len() == i,
            forall|j: int| 0 <= j < i ==> (#[trigger] out[j])@ == row[j]@,
        decreases row.len() - i,
    {
        out.push(row[i].clone());
        i = i + 1;
    }
    assert(row_view(out@) =~= row_view(row@));
    out
}

/// Copies a grid of buttons.
pub fn copy_keyboard(rows: &Vec<Vec<Button>>) -> (r: Vec<Vec<Button>>)
    ensures
        keyboard_view(r@) == keyboard_view(rows@),
{
    let mut out: Vec<Vec<Button>> = Vec::new();
    let mut i: usize = 0;
    while i < rows.len()
        invariant
            i <= rows.len(),
            out.len() == i,
            forall|j: int| 0 <= j < i ==> row_view((#[trigger] out[j])@) == row_view(rows[j]@),
        decreases rows.len() - i,
    {
        out.push(copy_row(&rows[i]));
        i = i + 1;
    }
    assert(keyboard_view(out@) =~= keyboard_view(rows@));
    out
}

impl Clone for Message {
    fn clone(&self) -> (r: Self)
        ensures
            r@ == self@,
    {
        Message {
            chat_id: self.chat_id,
            text: self.text.clone(),
            keyboard: match &self.keyboard {
                Some(rows) => Some(copy_keyboard(rows)),
                None => None,
            },
        }
    }
}

/// The button that plays a card: it shows the card's name and sends the
/// move command with the card's token.
pub open spec fn card_button(card: Card) -> ButtonView {
    ButtonView { id: card_token(card), text: card_name(card) }
}

/// The number of rows of the grid for a hand of `n` cards: one, and one
/// more for every card after the third.
pub open spec fn grid_rows(n: nat) -> nat {
    if n > 3 {
        (n - 3 + 1) as nat
    } else {
        1
    }
}

/// The row `r` of the grid for a hand: the cards `3r`, `3r + 1` and
/// `3r + 2`, as far as the hand has them.
pub open spec fn grid_row(cards: Seq<Card>, r: int) -> Seq<ButtonView> {
    Seq::new(
        if 3 * r + 3 <= cards.len() {
            3nat
        } else if 3 * r <= cards.len() {
            (cards.len() - 3 * r) as nat
        } else {
            0nat
        },
        |k: int| card_button(cards[3 * r + k]),
    )
}

/// The grid of buttons for a hand of cards, three to a row.
pub open spec fn card_grid(cards: Seq<Card>) -> Seq<Seq<ButtonView>> {
    Seq::new(grid_rows(cards.len()), |r: int| grid_row(cards, r))
}

/// The text that shows a status.
pub open spec fn status_message(status: StatusView) -> Seq<char> {
    match status {
        StatusView::GameEnded => "La partita è finita!"@,
        StatusView::RoundWon(p) => p.name + " ha vinto questo round"@,
        StatusView::InProgress(p) => "Tocca a "@ + p.name,
        StatusView::WaitingForPlayers(_, p) => p.name + " si è unito alla partita"@,
        StatusView::WaitingForChoice(_, _) => "Scegli una carta:"@,
        StatusView::InvalidMove(reason) => "Questa mossa non è valida! "@ + reason,
        StatusView::WaitingForChoiceCustomMessage(_, _, prompt) => prompt,
        StatusView::NotifyUser(_, text) => text,
        StatusView::NotifyRoom(text) => text,
        StatusView::CardPlayed(p, card) => p.name + " ha giocato "@ + card_name(card),
    }
}

/// The button that starts the game.
pub open spec fn start_button() -> ButtonView {
    ButtonView { id: "start"@, text: "Avvia partita"@ }
}

/// The buttons that go with a status: the start button once the roster
/// is ready, the hand where a card is asked for, none otherwise.
pub open spec fn status_keyboard(status: StatusView) -> Option<Seq<Seq<ButtonView>>> {
    match status {
        StatusView::WaitingForPlayers(ready, _) => if ready {
            Some(seq![seq![start_button()]])
        } else {
            None
        },
        StatusView::WaitingForChoice(_, cards) => Some(card_grid(cards)),
        StatusView::WaitingForChoiceCustomMessage(_, cards, _) => Some(card_grid(cards)),
        _ => None,
    }
}

/// The message that shows a status to a recipient.
pub open spec fn status_for(recipient: PlayerView, status: StatusView) -> MessageView {
    MessageView {
        chat_id: recipient.id,
        text: status_message(status),
        keyboard: status_keyboard(status),
    }
}

/// How the number of players of a game is written: one number, or the
/// smallest and the largest.
pub open spec fn players_text(range: (u8, u8)) -> Seq<char> {
    if range.0 == range.1 {
        decimal(range.0 as nat)
    } else {
        decimal(range.0 as nat) + " - "@ + decimal(range.1 as nat)
    }
}

/// The button that opens a session of the game at `index` of the menu.
pub open spec fn menu_button(index: nat, kind: GameKind) -> ButtonView {
    ButtonView {
        id: game_token(index),
        text: kind.name() + " ("@ + players_text(kind.players()) + " giocatori)"@,
    }
}

/// The grid that offers the games, one to a row.
pub open spec fn menu_grid(games: Seq<GameKind>) -> Seq<Seq<ButtonView>> {
    Seq::new(games.len(), |i: int| seq![menu_button(i as nat, games[i])])
}

/// Turns a hand of cards into a grid of buttons, three to a row.
pub fn deck_of_buttons(cards: &Vec<Card>) -> (r: Vec<Vec<Button>>)
    ensures
        keyboard_view(r@) == card_grid(cards@),
{
    let n = cards.len();
    let rows: usize = if n > 3 {
        n - 3 + 1
    } else {
        1
    };
    let mut grid: Vec<Vec<Button>> = Vec::new();
    let mut r: usize = 0;
    while r < rows
        invariant
            r <= rows,
            n == cards.len(),
            rows == grid_rows(n as nat),
            grid.len() == r,
            forall|j: int| 0 <= j < r ==> row_view((#[trigger] grid[j])@) == grid_row(cards@, j),
        decreases rows - r,
    {
        let mut row: Vec<Button> = Vec::new();
        let mut k: usize = 0;
        while k < 3 && r < n / 3 + 1 && 3 * r + k < n
            invariant
                k <= 3,
                n == cards.len(),
                r < rows,
                rows == grid_rows(n as nat),
                k > 0 ==> 3 * r + k <= n,
                row.len() == k,
                forall|j: int| 0 <= j < k ==> (#[trigger] row[j])@ == card_button(cards[3 * r + j]),
            decreases 3 - k,
        {
            let card = cards[3 * r + k];
            row.push(Button { id: move_token(&card), text: get_card_name(&card) });
            k = k + 1;
        }
        assert(row_view(row@) =~= grid_row(cards@, r as int));
        grid.push(row);
        r = r + 1;
    }
    assert(keyboard_view(grid@) =~= card_grid(cards@));
    grid
}

fn status_text_of(status: &GameStatus) -> (r: String)
    ensures
        r@ == status_message(status@),
{
    match status {
        GameStatus::GameEnded => String::from_str("La partita è finita!"),
        GameStatus::RoundWon(p) => {
            let mut text = p.name.clone();
            text.append(" ha vinto questo round");
            text
        },
        GameStatus::InProgress(p) => {
            let mut text = String::from_str("Tocca a ");
            text.append(p.name.as_str());
            text
        },
        GameStatus::WaitingForPlayers(_, p) => {
            let mut text = p.name.clone();
            text.append(" si è unito alla partita");
            text
        },
        GameStatus::WaitingForChoice(_, _) => String::from_str("Scegli una carta:"),
        GameStatus::InvalidMove(reason) => {
            let mut text = String::from_str("Questa mossa non è valida! ");
            text.append(reason);
            text
        },
        GameStatus::WaitingForChoiceCustomMessage(_, _, prompt) => String::from_str(prompt),
        GameStatus::NotifyUser(_, text) => text.clone(),
        GameStatus::NotifyRoom(text) => text.clone(),
        GameStatus::CardPlayed(p, card) => {
            let mut text = p.name.clone();
            text.append(" ha giocato ");
            let name = get_card_name(card);
            text.append(name.as_str());
            text
        },
    }
}

fn status_keyboard_of(status: &GameStatus) -> (r: Option<Vec<Vec<Button>>>)
    ensures
        match r {
            Some(rows) => status_keyboard(status@) == Some(keyboard_view(rows@)),
            None => status_keyboard(status@).is_none(),
        },
{
    match status {
        GameStatus::WaitingForPlayers(ready, _) => {
            if *ready {
                let mut row: Vec<Button> = Vec::new();
                row.push(
                    Button {
                        id: String::from_str("start"),
                        text: String::from_str("Avvia partita"),
                    },
                );
                let mut rows: Vec<Vec<Button>> = Vec::new();
                rows.push(row);
                assert(row_view(rows[0]@) =~= seq![start_button()]);
                assert(keyboard_view(rows@) =~= seq![seq![start_button()]]);
                Some(rows)
            } else {
                None
            }
        },
        GameStatus::WaitingForChoice(_, cards) => Some(deck_of_buttons(cards)),
        GameStatus::WaitingForChoiceCustomMessage(_, cards, _) => Some(deck_of_buttons(cards)),
        _ => None,
    }
}

impl Message {
    /// The message that shows `status` to `recipient`.
    pub fn from_status(recipient: &Player, status: &GameStatus) -> (r: Message)
        ensures
            r@ == status_for(recipient@, status@),
    {
        Message {
            chat_id: recipient.id,
            text: status_text_of(status),
            keyboard: status_keyboard_of(status),
        }
    }

    /// A message of plain text.
    pub fn plain(text: &str, chat_id: i64) -> (r: Message)
        ensures
            r@ == (MessageView { chat_id, text: text@, keyboard: None }),
    {
        Message { chat_id, text: String::from_str(text), keyboard: None }
    }

    /// The message that offers the games, one button each.
    pub fn menu(text: &str, chat_id: i64, games: &Vec<GameKind>) -> (r: Message)
        ensures
            r@ == (MessageView { chat_id, text: text@, keyboard: Some(menu_grid(games@)) }),
    {
        let mut rows: Vec<Vec<Button>> = Vec::new();
        let mut i: usize = 0;
        while i < games.len()
            invariant
                i <= games.len(),
                rows.len() == i,
                forall|j: int|
                    0 <= j < i ==> row_view((#[trigger] rows[j])@) == seq![
                        menu_button(j as nat, games[j]),
                    ],
            decreases games.len() - i,
        {
            let kind = games[i];
            let id = menu_token(i);
            let range = kind.get_num_players();
            let mut label = String::from_str(kind.get_name());
            label.append(" (");
            let least = decimal_string(range.start as u64);
            label.append(least.as_str());
            if range.start != range.end {
                label.append(" - ");
                let most = decimal_string(range.end as u64);
                label.append(most.as_str());
            }
            label.append(" giocatori)");
            assert(label@ =~= menu_button(i as nat, kind).text);
            let mut row: Vec<Button> = Vec::new();
            row.push(Button { id, text: label });
            assert(row_view(row@) =~= seq![menu_button(i as nat, games[i as int])]);
            rows.push(row);
            i = i + 1;
        }
        assert(keyboard_view(rows@) =~= menu_grid(games@));
        Message { chat_id, text: String::from_str(text), keyboard: Some(rows) }
    }
}

/// What `pct_str::PctString::encode` makes of a text with the encoder
/// `pct_str::URIReserved`.
pub uninterp spec fn percent_encoded(text: Seq<char>) -> Seq<char>;

/// Percent-encodes a text for a form body; wraps
/// `pct_str::PctString::encode` with the encoder `pct_str::URIReserved`.
#[verifier::external_body]
pub(crate) fn percent_encode(text: &str) -> (r: String)
    ensures
        r@ == percent_encoded(text@),
{
    pct_str::PctString::encode(text.chars(), pct_str::URIReserved).into_string()
}

/// A button as the transport wants it.
pub open spec fn button_json(button: ButtonView) -> Seq<char> {
    "{\"text\": \""@ + button.text + "\", \"callback_data\": \""@ + button.id + "\"}"@
}

/// A row of buttons as the transport wants it.
pub open spec fn row_json(row: Seq<ButtonView>) -> Seq<char> {
    "["@ + joined(row.map_values(|b: ButtonView| button_json(b)), ", "@) + "]"@
}

/// A grid of buttons as the transport wants it.
pub open spec fn keyboard_json(rows: Seq<Seq<ButtonView>>) -> Seq<char> {
    "{\"inline_keyboard\":["@ + joined(rows.map_values(|r: Seq<ButtonView>| row_json(r)), ", "@)
        + "]}"@
}

/// The body of a form with a recipient, a text and, if there is one, a
/// grid of buttons, all of them encoded already.
pub open spec fn form_text(chat: Seq<char>, text: Seq<char>, markup: Option<Seq<char>>) -> Seq<
    char,
> {
    let head = "chat_id="@ + chat + "&text="@ + text;
    match markup {
        Some(rows) => head + "&reply_markup="@ + rows,
        None => head,
    }
}

/// A message as the body of a form: the recipient, the text and, if the
/// message has buttons, the grid, each percent-encoded.
pub open spec fn raw_message(message: MessageView) -> Seq<char> {
    form_text(
        percent_encoded(signed_decimal(message.chat_id as int)),
        percent_encoded(message.text),
        match message.keyboard {
            Some(rows) => Some(percent_encoded(keyboard_json(rows))),
            None => None,
        },
    )
}

/// Writes the body of a form from its encoded parts.
pub fn form_body(chat: &str, text: &str, markup: Option<&str>) -> (r: String)
    ensures
        r@ == form_text(
            chat@,
            text@,
            match markup {
                Some(rows) => Some(rows@),
                None => None,
            },
        ),
{
    let mut res = String::new();
    res.append("chat_id=");
    res.append(chat);
    res.append("&text=");
    res.append(text);
    match markup {
        Some(rows) => {
            res.append("&reply_markup=");
            res.append(rows);
            assert(res@ =~= form_text(chat@, text@, Some(rows@)));
        },
        None => {
            assert(res@ =~= form_text(chat@, text@, None));
        },
    }
    res
}

fn write_button(button: &Button) -> (r: String)
    ensures
        r@ == button_json(button@),
{
    let mut out = String::from_str("{\"text\": \"");
    out.append(button.text.as_str());
    out.append("\", \"callback_data\": \"");
    out.append(button.id.as_str());
    out.append("\"}");
    out
}

fn write_row(row: &Vec<Button>) -> (r: String)
    ensures
        r@ == row_json(row_view(row@)),
{
    let mut parts: Vec<String> = Vec::new();
    let mut i: usize = 0;
    while i < row.len()
        invariant
            i <= row.len(),
            parts.len() == i,
            forall|j: int| 0 <= j < i ==> (#[trigger] parts[j])@ == button_json(row[j]@),
        decreases row.len() - i,
    {
        parts.push(write_button(&row[i]));
        i = i + 1;
    }
    assert(parts.deep_view() =~= row_view(row@).map_values(|b: ButtonView| button_json(b)));
    let mut out = String::from_str("[");
    let inner = join(&parts, ", ");
    out.append(inner.as_str());
    out.append("]");
    out
}

/// Writes a grid of buttons as the transport wants it.
pub fn keyboard_to_json(rows: &Vec<Vec<Button>>) -> (r: String)
    ensures
        r@ == keyboard_json(keyboard_view(rows@)),
{
    let mut parts: Vec<String> = Vec::new();
    let mut i: usize = 0;
    while i < rows.len()
        invariant
            i <= rows.len(),
            parts.len() == i,
            forall|j: int| 0 <= j < i ==> (#[trigger] parts[j])@ == row_json(row_view(rows[j]@)),
        decreases rows.len() - i,
    {
        parts.push(write_row(&rows[i]));
        i = i + 1;
    }
    assert(parts.deep_view() =~= keyboard_view(rows@).map_values(
        |r: Seq<ButtonView>| row_json(r),
    ));
    let mut out = String::from_str("{\"inline_keyboard\":[");
    let inner = join(&parts, ", ");
    out.append(inner.as_str());
    out.append("]}");
    out
}

impl Message {
    /// This message as the body of a form.
    pub fn get_raw(&self) -> (r: String)
        ensures
            r@ == raw_message(self@),
    {
        let chat = signed_decimal_string(self.chat_id);
        let chat = percent_encode(chat.as_str());
        let text = percent_encode(self.text.as_str());
        match &self.keyboard {
            Some(rows) => {
                let json = keyboard_to_json(rows);
                let json = percent_encode(json.as_str());
                form_body(chat.as_str(), text.as_str(), Some(json.as_str()))
            },
            None => form_body(chat.as_str(), text.as_str(), None),
        }
    }
}

} // verus!
