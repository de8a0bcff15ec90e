//! Cards packed into one byte, a 52-card deck, and a player's hand held in
//! a ring buffer.

use rand::seq::SliceRandom;
use rand::SeedableRng;
use vstd::prelude::*;

use crate::ring_buffer::{accepted_count, RingBuffer};

verus! {

/// The four suits.
#[derive(Debug, Copy, Clone, PartialEq, Eq, Structural)]
pub enum Suit {
    Hearts,
    Spades,
    Clubs,
    Diamonds,
}

impl Suit {
    /// The suit's two-bit code: Hearts 0, Spades 1, Clubs 2, Diamonds 3.
    pub open spec fn spec_code(self) -> u8 {
        match self {
            Suit::Hearts => 0,
            Suit::Spades => 1,
            Suit::Clubs => 2,
            Suit::Diamonds => 3,
        }
    }

    /// The suit whose code is `c`, for `c < 4`.
    pub open spec fn from_code(c: u8) -> Suit {
        if c == 0 {
            Suit::Hearts
        } else if c == 1 {
            Suit::Spades
        } else if c == 2 {
            Suit::Clubs
        } else {
            Suit::Diamonds
        }
    }

    pub fn code(self) -> (r: u8)
        ensures
            r == self.spec_code(),
    {
        match self {
            Suit::Hearts => 0,
            Suit::Spades => 1,
            Suit::Clubs => 2,
            Suit::Diamonds => 3,
        }
    }
}

/// The thirteen ranks, ordered from Two up to Ace.
#[derive(Debug, Copy, Clone, PartialEq, PartialOrd, Eq, Ord, Structural)]
pub enum Rank {
    Two,
    Three,
    Four,
    Five,
    Six,
    Seven,
    Eight,
    Nine,
    Ten,
    Jack,
    Queen,
    King,
    Ace,
}

impl Rank {
    /// The rank's value: 2 to 10 for the numbered ranks, then Jack 11,
    /// Queen 12, King 13 and Ace 14.
    pub open spec fn spec_value(self) -> u8 {
        match self {
            Rank::Two => 2,
            Rank::Three => 3,
            Rank::Four => 4,
            Rank::Five => 5,
            Rank::Six => 6,
            Rank::Seven => 7,
            Rank::Eight => 8,
            Rank::Nine => 9,
            Rank::Ten => 10,
            Rank::Jack => 11,
            Rank::Queen => 12,
            Rank::King => 13,
            Rank::Ace => 14,
        }
    }

    /// The rank whose value is `v`, for `2 <= v <= 14`.
    pub open spec fn from_value(v: u8) -> Rank {
        if v <= 2 {
            Rank::Two
        } else if v == 3 {
            Rank::Three
        } else if v == 4 {
            Rank::Four
        } else if v == 5 {
            Rank::Five
        } else if v == 6 {
            Rank::Six
        } else if v == 7 {
            Rank::Seven
        } else if v == 8 {
            Rank::Eight
        } else if v == 9 {
            Rank::Nine
        } else if v == 10 {
            Rank::Ten
        } else if v == 11 {
            Rank::Jack
        } else if v == 12 {
            Rank::Queen
        } else if v == 13 {
            Rank::King
        } else {
            Rank::Ace
        }
    }

    pub fn value(self) -> (r: u8)
        ensures
            r == self.spec_value(),
    {
        match self {
            Rank::Two => 2,
            Rank::Three => 3,
            Rank::Four => 4,
            Rank::Five => 5,
            Rank::Six => 6,
            Rank::Seven => 7,
            Rank::Eight => 8,
            Rank::Nine => 9,
            Rank::Ten => 10,
            Rank::Jack => 11,
            Rank::Queen => 12,
            Rank::King => 13,
            Rank::Ace => 14,
        }
    }
}

/// A card in one byte: bits 0-1 hold the suit's code, bits 2-7 the rank's value.
#[derive(Debug, Copy, Clone, PartialEq, Eq, Structural)]
pub struct Card(u8);

impl Card {
    /// The byte always encodes a rank value from 2 to 14.
    #[verifier::type_invariant]
    spec fn packed_rank_valid(self) -> bool {
        2 <= self.0 / 4 <= 14
    }

    /// The suit this card encodes.
    pub closed spec fn spec_suit(self) -> Suit {
        Suit::from_code(self.0 % 4)
    }

    /// The rank this card encodes.
    pub closed spec fn spec_rank(self) -> Rank {
        Rank::from_value((self.0 / 4) as u8)
    }

    /// The card of the given suit and rank.
    pub fn new(suit: Suit, rank: Rank) -> (r: Self)
        ensures
            r.spec_suit() == suit,
            r.spec_rank() == rank,
    {
        let code = suit.code();
        let value = rank.value();
        let suit_bits = code & 0b11;
        let rank_bits = value & 0b111111;
        let packed = (rank_bits << 2) | suit_bits;
        assert(packed / 4 == value && packed % 4 == code) by (bit_vector)
            requires
                code < 4,
                2 <= value <= 14,
                suit_bits == code & 0b11,
                rank_bits == value & 0b111111,
                packed == (rank_bits << 2) | suit_bits,
        ;
        Card(packed)
    }

    /// This card's suit.
    pub fn suit(&self) -> (r: Suit)
        ensures
            r == self.spec_suit(),
    {
        let byte = self.0;
        let code = byte & 0b11;
        assert(code == byte % 4) by (bit_vector)
            requires
                code == byte & 0b11,
        ;
        match code {
            0 => Suit::Hearts,
            1 => Suit::Spades,
            2 => Suit::Clubs,
            _ => Suit::Diamonds,
        }
    }

    /// This card's rank.
    pub fn rank(&self) -> (r: Rank)
        ensures
            r == self.spec_rank(),
    {
        let rank_value = self.value();
        match rank_value {
            2 => Rank::Two,
            3 => Rank::Three,
            4 => Rank::Four,
            5 => Rank::Five,
            6 => Rank::Six,
            7 => Rank::Seven,
            8 => Rank::Eight,
            9 => Rank::Nine,
            10 => Rank::Ten,
            11 => Rank::Jack,
            12 => Rank::Queen,
            13 => Rank::King,
            _ => Rank::Ace,
        }
    }

    /// The value of this card's rank, which decides who wins a battle.
    pub fn value(&self) -> (r: u8)
        ensures
            r == self.spec_rank().spec_value(),
            r == self.spec_value(),
    {
        proof {
            use_type_invariant(self);
        }
        let byte = self.0;
        let v = (byte >> 2) & 0b111111;
        assert(v == byte / 4) by (bit_vector)
            requires
                v == (byte >> 2) & 0b111111,
        ;
        v
    }

    /// The value of this card's rank, as a spec function.
    pub open spec fn spec_value(self) -> u8 {
        self.spec_rank().spec_value()
    }

    /// The symbol of this card's suit, for display.
    pub fn suit_symbol(&self) -> (r: &'static str)
        ensures
            r@ == suit_symbol_of(self.spec_suit()),
    {
        match self.suit() {
            Suit::Hearts => "♥",
            Suit::Spades => "♠",
            Suit::Clubs => "♣",
            Suit::Diamonds => "♦",
        }
    }
}

/// The display symbol of a suit.
pub open spec fn suit_symbol_of(s: Suit) -> Seq<char> {
    match s {
        Suit::Hearts => "♥"@,
        Suit::Spades => "♠"@,
        Suit::Clubs => "♣"@,
        Suit::Diamonds => "♦"@,
    }
}

/// The suit of the card at position `i` of a new deck: thirteen cards of
/// each suit, in the order Hearts, Spades, Clubs, Diamonds.
pub open spec fn deck_suit(i: int) -> Suit {
    Suit::from_code((i / 13) as u8)
}

/// The rank of the card at position `i` of a new deck: Two up to Ace within
/// each suit.
pub open spec fn deck_rank(i: int) -> Rank {
    Rank::from_value((i % 13 + 2) as u8)
}

/// Whether `cards` holds a card of the suit and rank at position `i` of a
/// new deck.
pub open spec fn has_deck_card(cards: Seq<Card>, i: int) -> bool {
    exists|k: int|
        0 <= k < cards.len() && (#[trigger] cards[k]).spec_suit() == deck_suit(i)
            && cards[k].spec_rank() == deck_rank(i)
}

/// Whether two hands of 26 cards hold, between them, a card of every suit
/// and rank; with 52 cards in all, each of them exactly once.
pub open spec fn deals_full_deck(hand1: Seq<Card>, hand2: Seq<Card>) -> bool {
    &&& hand1.len() == 26
    &&& hand2.len() == 26
    &&& forall|i: int| 0 <= i < 52 ==> #[trigger] has_deck_card(hand1 + hand2, i)
}

/// Dealing a permutation of a new deck alternately leaves every card in one
/// of the two hands.
pub proof fn lemma_deal_keeps_every_card(
    ordered: Seq<Card>,
    shuffled: Seq<Card>,
    hand1: Seq<Card>,
    hand2: Seq<Card>,
)
    requires
        ordered.len() == 52,
        forall|i: int|
            0 <= i < 52 ==> (#[trigger] ordered[i]).spec_suit() == deck_suit(i)
                && ordered[i].spec_rank() == deck_rank(i),
        shuffled.len() == 52,
        shuffled.to_multiset() == ordered.to_multiset(),
        hand1 == Seq::new(26, |j: int| shuffled[2 * j]),
        hand2 == Seq::new(26, |j: int| shuffled[2 * j + 1]),
    ensures
        deals_full_deck(hand1, hand2),
{
    let all = hand1 + hand2;
    assert forall|i: int| 0 <= i < 52 implies #[trigger] has_deck_card(all, i) by {
        let x = ordered[i];
        assert(ordered.contains(x));
        ordered.to_multiset_ensures();
        shuffled.to_multiset_ensures();
        assert(ordered.to_multiset().count(x) > 0);
        assert(shuffled.to_multiset().count(x) > 0);
        assert(shuffled.contains(x));
        let j = choose|j: int| 0 <= j < shuffled.len() && shuffled[j] == x;
        if j % 2 == 0 {
            assert(all[j / 2] == x);
        } else {
            assert(all[26 + (j - 1) / 2] == x);
        }
    }
}

/// Relies on rand's `SliceRandom::shuffle` driven by `rand::rng()`: it only
/// swaps elements of the slice, so the cards after are a permutation of those
/// before. (`rand::rng()` panics only when the operating system's generator
/// cannot be initialised, which no argument can rule out.)
#[verifier::external_body]
fn shuffle_cards(cards: &mut [Card; 52])
    ensures
        final(cards)@.to_multiset() == old(cards)@.to_multiset(),
{
    cards.shuffle(&mut rand::rng());
}

/// Relies on rand's `StdRng::seed_from_u64` and `SliceRandom::shuffle`: the
/// shuffle only swaps elements of the slice, so the cards after are a
/// permutation of those before.
#[verifier::external_body]
fn shuffle_cards_seeded(cards: &mut [Card; 52], seed: u64)
    ensures
        final(cards)@.to_multiset() == old(cards)@.to_multiset(),
{
    cards.shuffle(&mut rand::rngs::StdRng::seed_from_u64(seed));
}

/// A full deck of 52 cards.
#[derive(Debug)]
pub struct Deck {
    cards: [Card; 52],
}

impl View for Deck {
    type V = Seq<Card>;

    /// The cards from first to last.
    closed spec fn view(&self) -> Seq<Card> {
        self.cards@
    }
}

impl Deck {
    /// A deck in order: each suit in turn, each from Two up to Ace.
    pub fn new() -> (r: Self)
        ensures
            r@.len() == 52,
            forall|i: int|
                0 <= i < 52 ==> (#[trigger] r@[i]).spec_suit() == deck_suit(i) && r@[i].spec_rank()
                    == deck_rank(i),
    {
        let suits = [Suit::Hearts, Suit::Spades, Suit::Clubs, Suit::Diamonds];
        let ranks = [
            Rank::Two,
            Rank::Three,
            Rank::Four,
            Rank::Five,
            Rank::Six,
            Rank::Seven,
            Rank::Eight,
            Rank::Nine,
            Rank::Ten,
            Rank::Jack,
            Rank::Queen,
            Rank::King,
            Rank::Ace,
        ];
        let mut cards = [Card::new(Suit::Hearts, Rank::Two); 52];
        let mut index: usize = 0;
        let mut si: usize = 0;
        while si < 4
            invariant
                si <= 4,
                index == 13 * si,
                forall|k: int| 0 <= k < 4 ==> (#[trigger] suits@[k]) == Suit::from_code(k as u8),
                forall|k: int|
                    0 <= k < 13 ==> (#[trigger] ranks@[k]) == Rank::from_value((k + 2) as u8),
                forall|j: int|
                    0 <= j < index ==> (#[trigger] cards@[j]).spec_suit() == deck_suit(j)
                        && cards@[j].spec_rank() == deck_rank(j),
            decreases 4 - si,
        {
            let mut ri: usize = 0;
            while ri < 13
                invariant
                    si < 4,
                    ri <= 13,
                    index == 13 * si + ri,
                    forall|k: int|
                        0 <= k < 4 ==> (#[trigger] suits@[k]) == Suit::from_code(k as u8),
                    forall|k: int|
                        0 <= k < 13 ==> (#[trigger] ranks@[k]) == Rank::from_value(
                            (k + 2) as u8,
                        ),
                    forall|j: int|
                        0 <= j < index ==> (#[trigger] cards@[j]).spec_suit() == deck_suit(j)
                            && cards@[j].spec_rank() == deck_rank(j),
                decreases 13 - ri,
            {
                cards[index] = Card::new(suits[si], ranks[ri]);
                assert(index as int / 13 == si && index as int % 13 == ri);
                index = index + 1;
                ri = ri + 1;
            }
            si = si + 1;
        }
        Deck { cards }
    }

    /// Put the cards in a random order.
    pub fn shuffle(&mut self)
        ensures
            final(self)@.to_multiset() == old(self)@.to_multiset(),
            final(self)@.len() == 52,
    {
        shuffle_cards(&mut self.cards);
    }

    /// Put the cards in an order drawn from a generator seeded with `seed`.
    pub fn shuffle_with_seed(&mut self, seed: u64)
        ensures
            final(self)@.to_multiset() == old(self)@.to_multiset(),
            final(self)@.len() == 52,
    {
        shuffle_cards_seeded(&mut self.cards, seed);
    }

    /// Deal the deck alternately: cards at even positions to the first hand,
    /// those at odd positions to the second, each in deck order.
    pub fn split(self) -> (r: (PlayerHand, PlayerHand))
        ensures
            r.0.wf(),
            r.1.wf(),
            r.0@ == Seq::new(26, |j: int| self@[2 * j]),
            r.1@ == Seq::new(26, |j: int| self@[2 * j + 1]),
    {
        let mut player1 = PlayerHand::new();
        let mut player2 = PlayerHand::new();
        let mut i: usize = 0;
        while i < 52
            invariant
                i <= 52,
                player1.wf(),
                player2.wf(),
                player1@ == Seq::new(((i + 1) / 2) as nat, |j: int| self.cards@[2 * j]),
                player2@ == Seq::new((i / 2) as nat, |j: int| self.cards@[2 * j + 1]),
            decreases 52 - i,
        {
            let card = self.cards[i];
            if i % 2 == 0 {
                player1.add_card(card);
                assert(player1@ =~= Seq::new(((i + 2) / 2) as nat, |j: int| self.cards@[2 * j]));
            } else {
                player2.add_card(card);
                assert(player2@ =~= Seq::new(((i + 1) / 2) as nat, |j: int| self.cards@[2 * j + 1]));
            }
            i = i + 1;
        }
        (player1, player2)
    }
}

/// A player's cards, in a ring buffer of one deck's size: drawn from the
/// back, won cards added at the front.
#[derive(Debug)]
pub struct PlayerHand {
    cards: RingBuffer<Card, 52>,
}

impl View for PlayerHand {
    type V = Seq<Card>;

    /// The cards from front to back; the back card is drawn next.
    closed spec fn view(&self) -> Seq<Card> {
        self.cards@
    }
}

impl PlayerHand {
    pub closed spec fn wf(&self) -> bool {
        self.cards.wf()
    }

    /// A well-formed hand holds at most one deck.
    pub proof fn lemma_at_most_one_deck(&self)
        requires
            self.wf(),
        ensures
            self@.len() <= 52,
    {
        self.cards.lemma_len_within_capacity();
    }

    /// An empty hand.
    pub fn new() -> (r: Self)
        ensures
            r.wf(),
            r@ == Seq::<Card>::empty(),
    {
        PlayerHand { cards: RingBuffer::new(Card::new(Suit::Hearts, Rank::Two)) }
    }

    /// Number of cards held.
    pub fn len(&self) -> (r: usize)
        requires
            self.wf(),
        ensures
            r == self@.len(),
            r <= 52,
    {
        self.cards.len()
    }

    /// True when no card is held.
    pub fn is_empty(&self) -> (r: bool)
        requires
            self.wf(),
        ensures
            r == (self@.len() == 0),
    {
        self.cards.is_empty()
    }

    /// Take the card at the back of the hand; `None` when the hand is empty.
    pub fn draw_card(&mut self) -> (r: Option<Card>)
        requires
            old(self).wf(),
        ensures
            final(self).wf(),
            old(self)@.len() == 0 ==> r is None && final(self)@ == old(self)@,
            old(self)@.len() > 0 ==> r == Some(old(self)@.last()) && final(self)@ == old(
                self,
            )@.drop_last(),
    {
        self.cards.pop_back()
    }

    /// Put `card` at the back of the hand; a hand that already holds a whole
    /// deck is left as it is.
    pub fn add_card(&mut self, card: Card)
        requires
            old(self).wf(),
        ensures
            final(self).wf(),
            old(self)@.len() < 52 ==> final(self)@ == old(self)@.push(card),
            old(self)@.len() >= 52 ==> final(self)@ == old(self)@,
    {
        self.cards.push_back(card);
    }

    /// Move the pot's cards to the front of the hand one by one, in the pot's
    /// front-to-back order, so the pot's last card ends up frontmost. Once the
    /// hand holds a whole deck the remaining pot cards are not added.
    pub fn take_battle_cards(&mut self, battle_buffer: &RingBuffer<Card, 52>)
        requires
            old(self).wf(),
            battle_buffer.wf(),
        ensures
            final(self).wf(),
            final(self)@ == battle_buffer@.take(
                accepted_count(old(self)@.len(), battle_buffer@.len(), 52) as int,
            ).reverse() + old(self)@,
    {
        let ghost start = self@;
        proof {
            self.lemma_at_most_one_deck();
            battle_buffer.lemma_len_within_capacity();
        }
        let mut it = battle_buffer.iter();
        let ghost pot = it@;
        let mut taken: usize = 0;
        while it.len() > 0
            invariant
                self.wf(),
                it.wf(),
                start.len() <= 52,
                pot.len() <= 52,
                pot == battle_buffer@,
                taken + it@.len() == pot.len(),
                it@ == pot.skip(taken as int),
                self@ == pot.take(accepted_count(start.len(), taken as nat, 52) as int).reverse()
                    + start,
            decreases it@.len(),
        {
            let ghost before = self@;
            let ghost k = accepted_count(start.len(), taken as nat, 52) as int;
            if let Some(card) = it.next() {
                assert(card == pot[taken as int]);
                let pushed = self.cards.push_front(card);
                if pushed {
                    assert(k == taken);
                    assert(pot.take(k + 1).reverse() =~= seq![card] + pot.take(k).reverse());
                }
                assert(it@ =~= pot.skip(taken + 1));
                taken = taken + 1;
            }
        }
        assert(taken == pot.len());
    }
}

} // verus!
