//! The rule engines, and the card arithmetic they share: the worth of a
//! pile, the winner of a trick, the seat of a player.

use crate::primitives::{
    copy_cards, roster_view, standings_view, table_view, Card, CardSuit, CardType, Player,
    PlayerView,
};
use crate::score::{fraction_text, Score};
use crate::text::{join, joined};
use crate::utils::{card_name, get_card_name};
use vstd::prelude::*;
use vstd::seq_lib::group_to_multiset_ensures;

pub mod beccaccino;
pub mod briscola;
pub mod scala40;

verus! {

/// The sum of `worth` over the cards of a pile.
pub open spec fn pile_value(cards: Seq<Card>, worth: spec_fn(CardType) -> nat) -> nat
    decreases cards.len(),
{
    if cards.len() == 0 {
        0
    } else {
        pile_value(cards.drop_last(), worth) + worth(cards.last().0)
    }
}

/// The sum of [`pile_value`] over several piles.
pub open spec fn piles_value(piles: Seq<Seq<Card>>, worth: spec_fn(CardType) -> nat) -> nat
    decreases piles.len(),
{
    if piles.len() == 0 {
        0
    } else {
        piles_value(piles.drop_last(), worth) + pile_value(piles.last(), worth)
    }
}

/// Adding a card to a pile adds its worth.
pub proof fn lemma_pile_push(cards: Seq<Card>, card: Card, worth: spec_fn(CardType) -> nat)
    ensures
        pile_value(cards.push(card), worth) == pile_value(cards, worth) + worth(card.0),
{
    assert(cards.push(card).drop_last() =~= cards);
}

/// Two piles put together are worth the sum of both.
pub proof fn lemma_pile_concat(a: Seq<Card>, b: Seq<Card>, worth: spec_fn(CardType) -> nat)
    ensures
        pile_value(a + b, worth) == pile_value(a, worth) + pile_value(b, worth),
    decreases b.len(),
{
    if b.len() == 0 {
        assert(a + b =~= a);
    } else {
        lemma_pile_concat(a, b.drop_last(), worth);
        assert((a + b).drop_last() =~= a + b.drop_last());
    }
}

/// Taking a card out of a pile takes its worth away.
pub proof fn lemma_pile_remove(cards: Seq<Card>, i: int, worth: spec_fn(CardType) -> nat)
    requires
        0 <= i < cards.len(),
    ensures
        pile_value(cards.remove(i), worth) + worth(cards[i].0) == pile_value(cards, worth),
{
    let front = cards.subrange(0, i);
    let back = cards.subrange(i + 1, cards.len() as int);
    assert(cards =~= front.push(cards[i]) + back);
    assert(cards.remove(i) =~= front + back);
    lemma_pile_concat(front.push(cards[i]), back, worth);
    lemma_pile_concat(front, back, worth);
    lemma_pile_push(front, cards[i], worth);
}

/// The worth of a pile does not depend on the order of its cards.
pub proof fn lemma_pile_arrangement(a: Seq<Card>, b: Seq<Card>, worth: spec_fn(CardType) -> nat)
    requires
        a.to_multiset() == b.to_multiset(),
    ensures
        pile_value(a, worth) == pile_value(b, worth),
    decreases a.len(),
{
    broadcast use group_to_multiset_ensures;

    if a.len() == 0 {
        assert(b.to_multiset().len() == 0);
    } else {
        let last = a.last();
        assert(a.contains(last));
        assert(b.to_multiset().count(last) > 0);
        let i = b.index_of(last);
        assert(a.drop_last() =~= a.remove(a.len() - 1));
        lemma_pile_arrangement(a.drop_last(), b.remove(i), worth);
        lemma_pile_remove(b, i, worth);
    }
}

/// A prefix of a pile is worth no more than the pile.
pub proof fn lemma_pile_prefix(cards: Seq<Card>, k: int, worth: spec_fn(CardType) -> nat)
    requires
        0 <= k <= cards.len(),
    ensures
        pile_value(cards.subrange(0, k), worth) <= pile_value(cards, worth),
{
    assert(cards =~= cards.subrange(0, k) + cards.subrange(k, cards.len() as int));
    lemma_pile_concat(cards.subrange(0, k), cards.subrange(k, cards.len() as int), worth);
}

/// Piles without cards are worth nothing.
pub proof fn lemma_empty_piles(piles: Seq<Seq<Card>>, worth: spec_fn(CardType) -> nat)
    requires
        forall|i: int| 0 <= i < piles.len() ==> (#[trigger] piles[i]).len() == 0,
    ensures
        piles_value(piles, worth) == 0,
    decreases piles.len(),
{
    if piles.len() > 0 {
        lemma_empty_piles(piles.drop_last(), worth);
        assert(piles.last().len() == 0);
    }
}

/// One more pile adds its worth.
pub proof fn lemma_piles_push(
    piles: Seq<Seq<Card>>,
    pile: Seq<Card>,
    worth: spec_fn(CardType) -> nat,
)
    ensures
        piles_value(piles.push(pile), worth) == piles_value(piles, worth) + pile_value(
            pile,
            worth,
        ),
{
    assert(piles.push(pile).drop_last() =~= piles);
}

/// Replacing one pile changes the total by the difference of the two.
pub proof fn lemma_piles_update(
    piles: Seq<Seq<Card>>,
    i: int,
    pile: Seq<Card>,
    worth: spec_fn(CardType) -> nat,
)
    requires
        0 <= i < piles.len(),
    ensures
        piles_value(piles.update(i, pile), worth) + pile_value(piles[i], worth) == piles_value(
            piles,
            worth,
        ) + pile_value(pile, worth),
    decreases piles.len(),
{
    if i == piles.len() - 1 {
        assert(piles.update(i, pile).drop_last() =~= piles.drop_last());
    } else {
        lemma_piles_update(piles.drop_last(), i, pile, worth);
        assert(piles.update(i, pile).drop_last() =~= piles.drop_last().update(i, pile));
    }
}

/// One pile is worth no more than all piles together.
pub proof fn lemma_piles_bound(piles: Seq<Seq<Card>>, i: int, worth: spec_fn(CardType) -> nat)
    requires
        0 <= i < piles.len(),
    ensures
        pile_value(piles[i], worth) <= piles_value(piles, worth),
    decreases piles.len(),
{
    if i < piles.len() - 1 {
        lemma_piles_bound(piles.drop_last(), i, worth);
    }
}

/// The seat of the first player of `players` with the given id, or the
/// number of players when none has it.
pub open spec fn seat_of(players: Seq<PlayerView>, id: i64) -> int
    decreases players.len(),
{
    if players.len() == 0 {
        0
    } else if players[0].id == id {
        0
    } else {
        1 + seat_of(players.drop_first(), id)
    }
}

/// [`seat_of`] finds the first seat with the id, if there is one.
pub proof fn lemma_seat_of(players: Seq<PlayerView>, id: i64)
    ensures
        0 <= seat_of(players, id) <= players.len(),
        seat_of(players, id) < players.len() ==> players[seat_of(players, id)].id == id,
        forall|j: int| 0 <= j < seat_of(players, id) ==> (#[trigger] players[j]).id != id,
    decreases players.len(),
{
    if players.len() > 0 && players[0].id != id {
        let rest = players.drop_first();
        lemma_seat_of(rest, id);
        assert forall|j: int| 0 <= j < seat_of(players, id) implies (#[trigger] players[j]).id
            != id by {
            if j > 0 {
                assert(players[j] == rest[j - 1]);
            }
        }
    }
}

/// Seating one more player moves nobody who already has a seat.
pub proof fn lemma_seat_of_push(players: Seq<PlayerView>, player: PlayerView, id: i64)
    ensures
        seat_of(players.push(player), id) == if seat_of(players, id) < players.len() {
            seat_of(players, id)
        } else if player.id == id {
            players.len() as int
        } else {
            (players.len() + 1) as int
        },
    decreases players.len(),
{
    lemma_seat_of(players, id);
    if players.len() == 0 {
        assert(players.push(player).drop_first() =~= players);
    } else if players[0].id != id {
        lemma_seat_of_push(players.drop_first(), player, id);
        lemma_seat_of(players.drop_first(), id);
        assert(players.push(player).drop_first() =~= players.drop_first().push(player));
    }
}

/// The first seat with the id of a player of the roster is no later than
/// that player's own.
pub proof fn lemma_seat_of_member(players: Seq<PlayerView>, j: int)
    requires
        0 <= j < players.len(),
    ensures
        0 <= seat_of(players, players[j].id) <= j,
        players[seat_of(players, players[j].id)].id == players[j].id,
{
    lemma_seat_of(players, players[j].id);
    let s = seat_of(players, players[j].id);
    if s > j {
        assert(players[j].id != players[j].id);
    }
}

/// The seat of the first of `players` whose id is `id`.
pub fn find_seat(players: &Vec<Player>, id: i64) -> (seat: usize)
    ensures
        seat == seat_of(crate::primitives::roster_view(players@), id),
{
    let ghost roster = crate::primitives::roster_view(players@);
    let mut i: usize = 0;
    while i < players.len()
        invariant
            i <= players.len(),
            roster == crate::primitives::roster_view(players@),
            forall|j: int| 0 <= j < i ==> (#[trigger] roster[j]).id != id,
        decreases players.len() - i,
    {
        if players[i].id == id {
            proof {
                lemma_seat_of(roster, id);
                let s = seat_of(roster, id);
                assert(roster[i as int].id == id);
                if s < i {
                    assert(roster[s].id != id);
                }
            }
            return i;
        }
        i = i + 1;
    }
    proof {
        lemma_seat_of(roster, id);
        let s = seat_of(roster, id);
        if s < players.len() {
            assert(roster[s].id != id);
        }
    }
    i
}

/// The place of the first copy of `card` in `cards`, or their number when
/// the card is not among them.
pub open spec fn place_of(cards: Seq<Card>, card: Card) -> int
    decreases cards.len(),
{
    if cards.len() == 0 {
        0
    } else if cards[0] == card {
        0
    } else {
        1 + place_of(cards.drop_first(), card)
    }
}

/// [`place_of`] finds the card exactly when the pile holds it.
pub proof fn lemma_place_of(cards: Seq<Card>, card: Card)
    ensures
        0 <= place_of(cards, card) <= cards.len(),
        place_of(cards, card) < cards.len() <==> cards.contains(card),
        place_of(cards, card) < cards.len() ==> cards[place_of(cards, card)] == card,
        forall|j: int| 0 <= j < place_of(cards, card) ==> #[trigger] cards[j] != card,
    decreases cards.len(),
{
    if cards.len() > 0 && cards[0] != card {
        let rest = cards.drop_first();
        lemma_place_of(rest, card);
        assert forall|j: int| 0 <= j < place_of(cards, card) implies #[trigger] cards[j]
            != card by {
            if j > 0 {
                assert(cards[j] == rest[j - 1]);
            }
        }
        if rest.contains(card) {
            let k = choose|k: int| 0 <= k < rest.len() && rest[k] == card;
            assert(cards[k + 1] == card);
        }
        if cards.contains(card) {
            let k = choose|k: int| 0 <= k < cards.len() && cards[k] == card;
            assert(rest[k - 1] == card);
        }
    } else if cards.len() > 0 {
        assert(cards[0] == card);
    }
}

/// The place of the first copy of `card` in `cards`.
pub fn find_card(cards: &Vec<Card>, card: &Card) -> (place: usize)
    ensures
        place == place_of(cards@, *card),
{
    let mut i: usize = 0;
    while i < cards.len()
        invariant
            i <= cards.len(),
            forall|j: int| 0 <= j < i ==> #[trigger] cards@[j] != *card,
        decreases cards.len() - i,
    {
        if crate::primitives::same_card(&cards[i], card) {
            proof {
                lemma_place_of(cards@, *card);
                let p = place_of(cards@, *card);
                if p < i {
                    assert(cards@[p] != *card);
                }
            }
            return i;
        }
        i = i + 1;
    }
    proof {
        lemma_place_of(cards@, *card);
        let p = place_of(cards@, *card);
        if p < cards.len() {
            assert(cards@[p] != *card);
        }
    }
    i
}

/// Whether a pile holds a card of the given suit.
pub open spec fn holds_suit(cards: Seq<Card>, suit: CardSuit) -> bool {
    exists|j: int| 0 <= j < cards.len() && (#[trigger] cards[j]).1 == suit
}

/// Whether `cards` holds a card of the given suit.
pub fn has_suit(cards: &Vec<Card>, suit: CardSuit) -> (r: bool)
    ensures
        r == holds_suit(cards@, suit),
{
    let mut i: usize = 0;
    while i < cards.len()
        invariant
            i <= cards.len(),
            forall|j: int| 0 <= j < i ==> (#[trigger] cards@[j]).1 != suit,
        decreases cards.len() - i,
    {
        if cards[i].1 == suit {
            return true;
        }
        i = i + 1;
    }
    false
}

/// How a trick stands after some of its cards have been looked at: the
/// place of the card that wins so far, the suit that wins and the best
/// strength seen in that suit.
pub struct TrickLead {
    pub winner: int,
    pub suit: CardSuit,
    pub best: int,
}

/// The standing of a trick after its first `k` cards, looked at in the
/// order in which they were played. Each card counts by its suit and its
/// strength.
///
/// The first card's suit leads. The first trump to appear takes the lead
/// over from another suit, whatever its strength; within the leading suit
/// a card takes over only when it is strictly stronger.
pub open spec fn trick_lead(plays: Seq<(CardSuit, u8)>, trump: CardSuit, k: nat) -> TrickLead
    decreases k,
{
    if k == 0 {
        TrickLead { winner: 0, suit: plays[0].0, best: -1 }
    } else {
        let before = trick_lead(plays, trump, (k - 1) as nat);
        let play = plays[k - 1];
        let turned = if play.0 == trump && before.suit != trump {
            TrickLead { winner: k - 1, suit: trump, best: play.1 as int }
        } else {
            before
        };
        if play.0 == turned.suit && play.1 > turned.best {
            TrickLead { winner: k - 1, suit: turned.suit, best: play.1 as int }
        } else {
            turned
        }
    }
}

/// The place, in play order, of the card that wins the trick.
pub open spec fn trick_winner(plays: Seq<(CardSuit, u8)>, trump: CardSuit) -> int {
    trick_lead(plays, trump, plays.len()).winner
}

/// The winner of a trick is one of its cards.
pub proof fn lemma_trick_lead_in_range(plays: Seq<(CardSuit, u8)>, trump: CardSuit, k: nat)
    requires
        0 < plays.len(),
        k <= plays.len(),
    ensures
        0 <= trick_lead(plays, trump, k).winner < plays.len(),
        -1 <= trick_lead(plays, trump, k).best <= 255,
    decreases k,
{
    if k > 0 {
        lemma_trick_lead_in_range(plays, trump, (k - 1) as nat);
    }
}

/// Whether one of the first `k` cards of a trick is of the suit.
pub open spec fn suit_played(plays: Seq<(CardSuit, u8)>, k: nat, suit: CardSuit) -> bool {
    exists|j: int| 0 <= j < k && (#[trigger] plays[j]).0 == suit
}

/// The suit that wins a trick after its first `k` cards: the trump if one
/// has been played, the suit of the first card otherwise.
pub open spec fn winning_suit(plays: Seq<(CardSuit, u8)>, trump: CardSuit, k: nat) -> CardSuit {
    if suit_played(plays, k, trump) {
        trump
    } else {
        plays[0].0
    }
}

/// After any number of cards the lead is with the first of the strongest
/// cards of the winning suit.
pub proof fn lemma_trick_lead(plays: Seq<(CardSuit, u8)>, trump: CardSuit, k: nat)
    requires
        0 < k <= plays.len(),
    ensures
        ({
            let lead = trick_lead(plays, trump, k);
            &&& 0 <= lead.winner < k
            &&& lead.suit == winning_suit(plays, trump, k)
            &&& plays[lead.winner].0 == lead.suit
            &&& plays[lead.winner].1 == lead.best
            &&& forall|j: int|
                0 <= j < k && (#[trigger] plays[j]).0 == lead.suit ==> plays[j].1 <= lead.best
            &&& forall|j: int|
                0 <= j < lead.winner && (#[trigger] plays[j]).0 == lead.suit ==> plays[j].1
                    < lead.best
        }),
    decreases k,
{
    let lead = trick_lead(plays, trump, k);
    let play = plays[k - 1];
    if k == 1 {
        reveal_with_fuel(trick_lead, 2);
        assert(trick_lead(plays, trump, 0).suit == plays[0].0);
        if plays[0].0 == trump {
            assert(suit_played(plays, 1, trump));
        }
    } else {
        lemma_trick_lead(plays, trump, (k - 1) as nat);
        let before = trick_lead(plays, trump, (k - 1) as nat);
        if suit_played(plays, (k - 1) as nat, trump) {
            let j = choose|j: int| 0 <= j < k - 1 && (#[trigger] plays[j]).0 == trump;
            assert(plays[j].0 == trump);
            assert(suit_played(plays, k, trump));
        } else if play.0 == trump {
            assert(suit_played(plays, k, trump));
            assert forall|j: int| 0 <= j < k - 1 implies (#[trigger] plays[j]).0 != trump by {
                if plays[j].0 == trump {
                    assert(suit_played(plays, (k - 1) as nat, trump));
                }
            }
        } else {
            if suit_played(plays, k, trump) {
                let j = choose|j: int| 0 <= j < k && (#[trigger] plays[j]).0 == trump;
                assert(j < k - 1);
                assert(suit_played(plays, (k - 1) as nat, trump));
            }
        }
    }
}

/// The winner of a trick is the first of the strongest cards of the
/// winning suit: a trump if a trump was played, a card of the led suit
/// otherwise. So the winner depends on nothing but the cards in the
/// order in which they were played and the trump.
pub proof fn lemma_trick_winner_is_best(plays: Seq<(CardSuit, u8)>, trump: CardSuit)
    requires
        plays.len() > 0,
    ensures
        ({
            let winner = trick_winner(plays, trump);
            let suit = winning_suit(plays, trump, plays.len());
            &&& 0 <= winner < plays.len()
            &&& plays[winner].0 == suit
            &&& forall|j: int|
                0 <= j < plays.len() && (#[trigger] plays[j]).0 == suit ==> plays[j].1
                    <= plays[winner].1
            &&& forall|j: int|
                0 <= j < winner && (#[trigger] plays[j]).0 == suit ==> plays[j].1
                    < plays[winner].1
        }),
{
    lemma_trick_lead(plays, trump, plays.len());
}

/// The suit and the strength of each card of a pile.
pub open spec fn plays_of(cards: Seq<Card>, strength: spec_fn(CardType) -> u8) -> Seq<
    (CardSuit, u8),
> {
    cards.map_values(|card: Card| (card.1, strength(card.0)))
}

/// The place, in play order, of the card that wins the trick.
pub fn winning_play(plays: &Vec<(CardSuit, u8)>, trump: CardSuit) -> (winner: usize)
    requires
        plays.len() > 0,
    ensures
        winner == trick_winner(plays@, trump),
        winner < plays.len(),
{
    let mut winner: usize = 0;
    let mut suit = plays[0].0;
    let mut best: i32 = -1;
    let mut k: usize = 0;
    while k < plays.len()
        invariant
            k <= plays.len(),
            plays.len() > 0,
            winner < plays.len(),
            trick_lead(plays@, trump, k as nat) == (TrickLead {
                winner: winner as int,
                suit,
                best: best as int,
            }),
            -1 <= best <= 255,
        decreases plays.len() - k,
    {
        let play = plays[k];
        if play.0 == trump && suit != trump {
            suit = trump;
            best = play.1 as i32;
            winner = k;
        }
        if play.0 == suit && play.1 as i32 > best {
            best = play.1 as i32;
            winner = k;
        }
        k = k + 1;
    }
    winner
}

/// The names of a list of players.
pub open spec fn names_of(players: Seq<PlayerView>) -> Seq<Seq<char>> {
    players.map_values(|p: PlayerView| p.name)
}

/// One line of the score board: the names, a colon, the score and the
/// word `punti`.
pub open spec fn line_of_score(names: Seq<Seq<char>>, score: Seq<char>) -> Seq<char> {
    joined(names, ", "@) + ": "@ + score + " punti"@
}

/// The line of the score board for a team and its score.
pub open spec fn score_line(entry: (Seq<PlayerView>, Score)) -> Seq<char> {
    line_of_score(names_of(entry.0), fraction_text(entry.1.numer, entry.1.denom))
}

/// One line of the table: a dash, the card and, in brackets, who played it.
pub open spec fn table_line(entry: (PlayerView, Card)) -> Seq<char> {
    "- "@ + card_name(entry.1) + " ("@ + entry.0.name + ")"@
}

/// The summary of a game for the given lines of the score board: the name
/// of the game, the score board, the trump, whose turn it is and the
/// cards on the table.
pub open spec fn summary_text(
    name: Seq<char>,
    score_lines: Seq<Seq<char>>,
    trump: Seq<char>,
    turn: Seq<char>,
    table: Seq<(PlayerView, Card)>,
) -> Seq<char> {
    "Partita di "@ + name + "\nPunteggi:\n"@ + joined(score_lines, "\n"@) + "\nBriscola è: "@
        + trump + "\nTocca a: "@ + turn + "\nCarte sul tavolo:\n"@ + joined(
        table.map_values(|e: (PlayerView, Card)| table_line(e)),
        "\n"@,
    )
}

/// The summary of a game: its name, the score board, the trump, whose turn
/// it is and the cards on the table.
pub open spec fn report_text(
    name: Seq<char>,
    standings: Seq<(Seq<PlayerView>, Score)>,
    trump: Seq<char>,
    turn: Seq<char>,
    table: Seq<(PlayerView, Card)>,
) -> Seq<char> {
    summary_text(
        name,
        standings.map_values(|e: (Seq<PlayerView>, Score)| score_line(e)),
        trump,
        turn,
        table,
    )
}

fn player_names(players: &Vec<Player>) -> (r: Vec<String>)
    ensures
        r.deep_view() == names_of(roster_view(players@)),
{
    let mut names: Vec<String> = Vec::new();
    let mut i: usize = 0;
    while i < players.len()
        invariant
            i <= players.len(),
            names.len() == i,
            forall|j: int| 0 <= j < i ==> (#[trigger] names[j])@ == players[j].name@,
        decreases players.len() - i,
    {
        names.push(players[i].name.clone());
        i = i + 1;
    }
    assert(names.deep_view() =~= names_of(roster_view(players@)));
    names
}

/// Writes one line of the score board.
pub fn write_score_line(names: &Vec<String>, score: &str) -> (r: String)
    ensures
        r@ == line_of_score(names.deep_view(), score@),
{
    let mut line = join(names, ", ");
    line.append(": ");
    line.append(score);
    line.append(" punti");
    line
}

fn write_table_line(entry: &(Player, Card)) -> (r: String)
    ensures
        r@ == table_line((entry.0@, entry.1)),
{
    let mut line = String::from_str("- ");
    let card = get_card_name(&entry.1);
    line.append(card.as_str());
    line.append(" (");
    line.append(entry.0.name.as_str());
    line.append(")");
    line
}

/// Writes the summary of a game for the given lines of the score board.
pub fn summary(
    name: &str,
    score_lines: &Vec<String>,
    trump: &str,
    turn: &str,
    table: &Vec<(Player, Card)>,
) -> (r: String)
    ensures
        r@ == summary_text(name@, score_lines.deep_view(), trump@, turn@, table_view(table@)),
{
    let ghost tv = table_view(table@);
    let mut table_lines: Vec<String> = Vec::new();
    let mut k: usize = 0;
    while k < table.len()
        invariant
            k <= table.len(),
            tv == table_view(table@),
            table_lines.len() == k,
            forall|j: int| 0 <= j < k ==> (#[trigger] table_lines[j])@ == table_line(tv[j]),
        decreases table.len() - k,
    {
        table_lines.push(write_table_line(&table[k]));
        k = k + 1;
    }
    assert(table_lines.deep_view() =~= tv.map_values(|e: (PlayerView, Card)| table_line(e)));
    let mut text = String::from_str("Partita di ");
    text.append(name);
    text.append("\nPunteggi:\n");
    let scores = join(score_lines, "\n");
    text.append(scores.as_str());
    text.append("\nBriscola è: ");
    text.append(trump);
    text.append("\nTocca a: ");
    text.append(turn);
    text.append("\nCarte sul tavolo:\n");
    let cards = join(&table_lines, "\n");
    text.append(cards.as_str());
    text
}

/// Writes the summary of a game.
pub fn report(
    name: &str,
    standings: &Vec<(Vec<Player>, Score)>,
    trump: &str,
    turn: &str,
    table: &Vec<(Player, Card)>,
) -> (r: String)
    requires
        forall|i: int| 0 <= i < standings.len() ==> (#[trigger] standings[i]).1.denom != 0,
    ensures
        r@ == report_text(name@, standings_view(standings@), trump@, turn@, table_view(table@)),
{
    let ghost sv = standings_view(standings@);
    let mut score_lines: Vec<String> = Vec::new();
    let mut i: usize = 0;
    while i < standings.len()
        invariant
            i <= standings.len(),
            sv == standings_view(standings@),
            forall|j: int| 0 <= j < standings.len() ==> (#[trigger] standings[j]).1.denom != 0,
            score_lines.len() == i,
            forall|j: int| 0 <= j < i ==> (#[trigger] score_lines[j])@ == score_line(sv[j]),
        decreases standings.len() - i,
    {
        let names = player_names(&standings[i].0);
        let score = standings[i].1.to_text();
        score_lines.push(write_score_line(&names, score.as_str()));
        i = i + 1;
    }
    assert(score_lines.deep_view() =~= sv.map_values(
        |e: (Seq<PlayerView>, Score)| score_line(e),
    ));
    summary(name, &score_lines, trump, turn, table)
}

/// The views of several piles of cards.
pub open spec fn piles_view(piles: Seq<Vec<Card>>) -> Seq<Seq<Card>> {
    Seq::new(piles.len(), |i: int| piles[i]@)
}

/// The cards on a table, without who played them.
pub open spec fn cards_of(table: Seq<(PlayerView, Card)>) -> Seq<Card> {
    table.map_values(|e: (PlayerView, Card)| e.1)
}

/// Takes the card at `place` out of pile `i`.
pub fn take_from_pile(piles: &mut Vec<Vec<Card>>, i: usize, place: usize) -> (card: Card)
    requires
        i < old(piles).len(),
        place < old(piles)[i as int].len(),
    ensures
        card == old(piles)[i as int]@[place as int],
        piles_view(final(piles)@) == piles_view(old(piles)@).update(
            i as int,
            old(piles)[i as int]@.remove(place as int),
        ),
{
    let mut pile = copy_cards(&piles[i]);
    let card = pile.remove(place);
    piles.set(i, pile);
    assert(piles_view(piles@) =~= piles_view(old(piles)@).update(
        i as int,
        old(piles)[i as int]@.remove(place as int),
    ));
    card
}

/// Puts `card` on top of pile `i`.
pub fn put_on_pile(piles: &mut Vec<Vec<Card>>, i: usize, card: Card)
    requires
        i < old(piles).len(),
    ensures
        piles_view(final(piles)@) == piles_view(old(piles)@).update(
            i as int,
            old(piles)[i as int]@.push(card),
        ),
{
    let mut pile = copy_cards(&piles[i]);
    pile.push(card);
    piles.set(i, pile);
    assert(piles_view(piles@) =~= piles_view(old(piles)@).update(
        i as int,
        old(piles)[i as int]@.push(card),
    ));
}

/// The cards on the table, in the order in which they were played.
pub fn table_cards(table: &Vec<(Player, Card)>) -> (cards: Vec<Card>)
    ensures
        cards@ == cards_of(table_view(table@)),
{
    let mut cards: Vec<Card> = Vec::new();
    let mut i: usize = 0;
    while i < table.len()
        invariant
            i <= table.len(),
            cards.len() == i,
            forall|j: int| 0 <= j < i ==> #[trigger] cards[j] == table[j].1,
        decreases table.len() - i,
    {
        cards.push(table[i].1);
        i = i + 1;
    }
    assert(cards@ =~= cards_of(table_view(table@)));
    cards
}

/// The games this crate knows.
#[derive(Clone, Copy, PartialEq, Eq, Structural, Debug)]
pub enum GameKind {
    Briscola,
    Beccaccino,
    /// Known by name only: its rules are not written yet, and it is not
    /// offered for play.
    Scala40,
}

impl GameKind {
    /// The name of the game.
    pub open spec fn name(self) -> Seq<char> {
        match self {
            GameKind::Briscola => "Briscola"@,
            GameKind::Beccaccino => "Beccaccino"@,
            GameKind::Scala40 => "Scala 40"@,
        }
    }

    /// The smallest and the largest number of players.
    pub open spec fn players(self) -> (u8, u8) {
        match self {
            GameKind::Briscola => (2, 4),
            GameKind::Beccaccino => (4, 4),
            GameKind::Scala40 => (2, 6),
        }
    }

    /// Whether the game can be played.
    pub open spec fn playable(self) -> bool {
        self != GameKind::Scala40
    }

    /// The name of the game.
    pub fn get_name(&self) -> (r: &'static str)
        ensures
            r@ == self.name(),
    {
        match self {
            GameKind::Briscola => "Briscola",
            GameKind::Beccaccino => "Beccaccino",
            GameKind::Scala40 => "Scala 40",
        }
    }

    /// The smallest and the largest number of players.
    pub fn get_num_players(&self) -> (r: std::ops::Range<u8>)
        ensures
            (r.start, r.end) == self.players(),
    {
        match self {
            GameKind::Briscola => std::ops::Range { start: 2, end: 4 },
            GameKind::Beccaccino => std::ops::Range { start: 4, end: 4 },
            GameKind::Scala40 => std::ops::Range { start: 2, end: 6 },
        }
    }

    /// Whether the game can be played.
    pub fn is_playable(&self) -> (r: bool)
        ensures
            r == self.playable(),
    {
        match self {
            GameKind::Scala40 => false,
            _ => true,
        }
    }
}

/// The games on offer, in the order of the menu.
pub open spec fn menu() -> Seq<GameKind> {
    seq![GameKind::Briscola, GameKind::Beccaccino]
}

/// The games on offer, in the order of the menu.
pub fn playable_games() -> (r: Vec<GameKind>)
    ensures
        r@ == menu(),
{
    let mut r: Vec<GameKind> = Vec::new();
    r.push(GameKind::Briscola);
    r.push(GameKind::Beccaccino);
    assert(r@ =~= menu());
    r
}

} // verus!
