//! Decks and the names of cards.

use crate::primitives::{Card, CardDeckType, CardSuit, CardType};
use crate::text::{decimal, decimal_string};
use rand::seq::SliceRandom;
use vstd::prelude::*;
use vstd::seq_lib::group_to_multiset_ensures;

verus! {

/// Number of cards in a deck of the given type.
pub open spec fn deck_size(of_type: CardDeckType) -> nat {
    match of_type {
        CardDeckType::Briscola => 40,
        CardDeckType::Poker => 54,
    }
}

/// The card at position `x` of the ordered 40-card regional deck: four
/// suits of ten cards, ace to seven followed by jack, queen and king.
pub open spec fn briscola_card(x: nat) -> Card {
    let value = x % 10;
    let suit = if x / 10 == 0 {
        CardSuit::Bastoni
    } else if x / 10 == 1 {
        CardSuit::Coppe
    } else if x / 10 == 2 {
        CardSuit::Denari
    } else {
        CardSuit::Spade
    };
    let rank = if value == 9 {
        CardType::King
    } else if value == 8 {
        CardType::Queen
    } else if value == 7 {
        CardType::Jack
    } else {
        CardType::Numeric((value + 1) as u8)
    };
    (rank, suit)
}

/// The card at position `x` of the ordered 54-card deck: four suits of
/// thirteen cards, ace to ten followed by jack, queen and king, then two
/// jokers.
pub open spec fn poker_card(x: nat) -> Card {
    if x > 51 {
        (CardType::Jolly, CardSuit::Bastoni)
    } else {
        let value = x % 13;
        let rank = if value == 12 {
            CardType::King
        } else if value == 11 {
            CardType::Queen
        } else if value == 10 {
            CardType::Jack
        } else {
            CardType::Numeric((value + 1) as u8)
        };
        let suit = if x / 13 == 0 {
            CardSuit::Bastoni
        } else if x / 13 == 1 {
            CardSuit::Coppe
        } else if x / 13 == 2 {
            CardSuit::Denari
        } else {
            CardSuit::Spade
        };
        (rank, suit)
    }
}

/// The card at position `x` of the ordered deck of the given type.
pub open spec fn deck_card(of_type: CardDeckType, x: nat) -> Card {
    match of_type {
        CardDeckType::Briscola => briscola_card(x),
        CardDeckType::Poker => poker_card(x),
    }
}

/// The ordered deck of the given type.
pub open spec fn full_deck(of_type: CardDeckType) -> Seq<Card> {
    Seq::new(deck_size(of_type), |x: int| deck_card(of_type, x as nat))
}

/// The positions `0, 1, .., n - 1`.
pub open spec fn identity_order(n: nat) -> Seq<u8> {
    Seq::new(n, |x: int| x as u8)
}

/// `order` lists every position of the deck exactly once.
pub open spec fn is_deck_order(of_type: CardDeckType, order: Seq<u8>) -> bool {
    order.to_multiset() == identity_order(deck_size(of_type)).to_multiset()
}

/// `deck` holds the cards of the full deck, each as often as the full deck
/// holds it, in some order.
pub open spec fn is_shuffled_deck(of_type: CardDeckType, deck: Seq<Card>) -> bool {
    deck.to_multiset() == full_deck(of_type).to_multiset()
}

/// The cards that the positions in `order` stand for.
pub open spec fn cards_in_order(of_type: CardDeckType, order: Seq<u8>) -> Seq<Card> {
    order.map_values(|x: u8| deck_card(of_type, x as nat))
}

/// Mapping two arrangements of the same items gives two arrangements of
/// the same images.
pub proof fn lemma_map_keeps_arrangement<A, B>(s1: Seq<A>, s2: Seq<A>, f: spec_fn(A) -> B)
    requires
        s1.to_multiset() == s2.to_multiset(),
    ensures
        s1.map_values(f).to_multiset() == s2.map_values(f).to_multiset(),
    decreases s1.len(),
{
    broadcast use group_to_multiset_ensures;

    if s1.len() == 0 {
        assert(s2.to_multiset().len() == 0);
        assert(s1.map_values(f) =~= s2.map_values(f));
    } else {
        let a = s1.last();
        assert(s1.contains(a));
        assert(s2.to_multiset().count(a) > 0);
        let i = s2.index_of(a);
        let t1 = s1.drop_last();
        let t2 = s2.remove(i);
        assert(t1 =~= s1.remove(s1.len() - 1));
        lemma_map_keeps_arrangement(t1, t2, f);
        assert(s1.map_values(f) =~= t1.map_values(f).push(f(a)));
        assert(s2.map_values(f) =~= t2.map_values(f).insert(i, f(a)));
    }
}

/// Every arrangement of the deck's positions stands for a shuffled deck.
pub proof fn lemma_order_gives_shuffled_deck(of_type: CardDeckType, order: Seq<u8>)
    requires
        is_deck_order(of_type, order),
    ensures
        is_shuffled_deck(of_type, cards_in_order(of_type, order)),
{
    let f = |x: u8| deck_card(of_type, x as nat);
    lemma_map_keeps_arrangement(order, identity_order(deck_size(of_type)), f);
    assert(identity_order(deck_size(of_type)).map_values(f) =~= full_deck(of_type));
}

/// Puts the items of `order` into a uniformly random order; wraps
/// `rand::seq::SliceRandom::shuffle` with the thread-local generator.
/// The shuffle only swaps items, so the same items are there afterwards.
#[verifier::external_body]
pub(crate) fn shuffle(order: &mut Vec<u8>)
    ensures
        final(order)@.to_multiset() == old(order)@.to_multiset(),
{
    order.shuffle(&mut rand::thread_rng())
}

fn card_at(of_type: CardDeckType, x: u8) -> (card: Card)
    requires
        x < deck_size(of_type),
    ensures
        card == deck_card(of_type, x as nat),
{
    match of_type {
        CardDeckType::Briscola => {
            let value: u8 = x % 10;
            let suit = if x / 10 == 0 {
                CardSuit::Bastoni
            } else if x / 10 == 1 {
                CardSuit::Coppe
            } else if x / 10 == 2 {
                CardSuit::Denari
            } else {
                CardSuit::Spade
            };
            let rank = if value == 9 {
                CardType::King
            } else if value == 8 {
                CardType::Queen
            } else if value == 7 {
                CardType::Jack
            } else {
                CardType::Numeric(value + 1)
            };
            (rank, suit)
        },
        CardDeckType::Poker => {
            if x > 51 {
                (CardType::Jolly, CardSuit::Bastoni)
            } else {
                let value: u8 = x % 13;
                let rank = if value == 12 {
                    CardType::King
                } else if value == 11 {
                    CardType::Queen
                } else if value == 10 {
                    CardType::Jack
                } else {
                    CardType::Numeric(value + 1)
                };
                let suit = if x / 13 == 0 {
                    CardSuit::Bastoni
                } else if x / 13 == 1 {
                    CardSuit::Coppe
                } else if x / 13 == 2 {
                    CardSuit::Denari
                } else {
                    CardSuit::Spade
                };
                (rank, suit)
            }
        },
    }
}

/// The deck whose cards come in the given order of positions.
pub fn deck_from_order(of_type: CardDeckType, order: &Vec<u8>) -> (deck: Vec<Card>)
    requires
        forall|i: int| 0 <= i < order.len() ==> (#[trigger] order[i]) < deck_size(of_type),
    ensures
        deck@ == cards_in_order(of_type, order@),
{
    let mut deck: Vec<Card> = Vec::new();
    let mut i: usize = 0;
    while i < order.len()
        invariant
            i <= order.len(),
            forall|j: int| 0 <= j < order.len() ==> (#[trigger] order[j]) < deck_size(of_type),
            deck@ == cards_in_order(of_type, order@.subrange(0, i as int)),
        decreases order.len() - i,
    {
        deck.push(card_at(of_type, order[i]));
        i = i + 1;
        assert(deck@ =~= cards_in_order(of_type, order@.subrange(0, i as int)));
    }
    assert(order@.subrange(0, order.len() as int) =~= order@);
    deck
}

/// A freshly shuffled deck of the given type.
pub fn random_deck(of_type: CardDeckType) -> (deck: Vec<Card>)
    ensures
        is_shuffled_deck(of_type, deck@),
{
    let size: u8 = match of_type {
        CardDeckType::Briscola => 40,
        CardDeckType::Poker => 54,
    };
    let mut order: Vec<u8> = Vec::new();
    let mut x: u8 = 0;
    while x < size
        invariant
            x <= size,
            size == deck_size(of_type),
            order@ == identity_order(x as nat),
        decreases size - x,
    {
        order.push(x);
        x = x + 1;
        assert(order@ =~= identity_order(x as nat));
    }
    shuffle(&mut order);
    proof {
        broadcast use group_to_multiset_ensures;

        let whole = identity_order(deck_size(of_type));
        assert forall|i: int| 0 <= i < order.len() implies (#[trigger] order[i]) < deck_size(
            of_type,
        ) by {
            assert(order@.contains(order[i]));
            assert(whole.to_multiset().count(order[i]) > 0);
            assert(whole.contains(order[i]));
        }
        lemma_order_gives_shuffled_deck(of_type, order@);
    }
    deck_from_order(of_type, &order)
}

/// The symbol of a suit.
pub open spec fn suit_symbol(suit: CardSuit) -> Seq<char> {
    match suit {
        CardSuit::Bastoni => "🥢"@,
        CardSuit::Spade => "🗡 "@,
        CardSuit::Coppe => "🏆"@,
        CardSuit::Denari => "💰"@,
    }
}

/// The symbol of a suit, as a string.
pub fn suit_string(suit: &CardSuit) -> (r: String)
    ensures
        r@ == suit_symbol(*suit),
{
    String::from_str(
        match suit {
            CardSuit::Bastoni => "🥢",
            CardSuit::Spade => "🗡 ",
            CardSuit::Coppe => "🏆",
            CardSuit::Denari => "💰",
        },
    )
}

/// The name of a rank: a symbol for the figures, `Asso` for the ace and
/// the number itself for the other cards.
pub open spec fn rank_name(rank: CardType) -> Seq<char> {
    match rank {
        CardType::Jack => "🚶‍♂️"@,
        CardType::Queen => "🐴"@,
        CardType::King => "🤴"@,
        CardType::Jolly => "🃏"@,
        CardType::Numeric(x) => if x == 1 {
            "Asso"@
        } else {
            decimal(x as nat)
        },
    }
}

/// The name of a card: its rank, ` di ` and its suit.
pub open spec fn card_name(card: Card) -> Seq<char> {
    rank_name(card.0) + " di "@ + suit_symbol(card.1)
}

/// The name of a card.
pub fn get_card_name(card: &Card) -> (r: String)
    ensures
        r@ == card_name(*card),
{
    let mut name = match card.0 {
        CardType::Jack => String::from_str("🚶‍♂️"),
        CardType::Queen => String::from_str("🐴"),
        CardType::King => String::from_str("🤴"),
        CardType::Jolly => String::from_str("🃏"),
        CardType::Numeric(x) => if x == 1 {
            String::from_str("Asso")
        } else {
            decimal_string(x as u64)
        },
    };
    name.append(" di ");
    let suit = suit_string(&card.1);
    name.append(suit.as_str());
    name
}

/// How a user is called: the first name, and after a blank the
/// surname if there is one.
pub open spec fn user_name(name: Seq<char>, surname: Option<Seq<char>>) -> Seq<char> {
    match surname {
        Some(s) => name + " "@ + s,
        None => name,
    }
}

/// How a user is called.
pub fn get_user_name(name: &str, surname: &Option<String>) -> (r: String)
    ensures
        r@ == user_name(
            name@,
            match *surname {
                Some(s) => Some(s@),
                None => None,
            },
        ),
{
    let mut full = String::from_str(name);
    match surname {
        Some(s) => {
            full.append(" ");
            full.append(s.as_str());
        },
        None => {},
    }
    full
}

} // verus!
