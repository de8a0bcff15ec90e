use war_rust::{Card, Deck, PlayerHand, Rank, RingBuffer, Suit};

const SUITS: [Suit; 4] = [Suit::Hearts, Suit::Spades, Suit::Clubs, Suit::Diamonds];
const RANKS: [Rank; 13] = [
    Rank::Two,
    Rank::Three,
    Rank::Four,
    Rank::Five,
    Rank::Six,
    Rank::Seven,
    Rank::Eight,
    Rank::Nine,
    Rank::Ten,
    Rank::Jack,
    Rank::Queen,
    Rank::King,
    Rank::Ace,
];

#[test]
fn card_keeps_suit_and_rank() {
    for (si, suit) in SUITS.iter().enumerate() {
        for (ri, rank) in RANKS.iter().enumerate() {
            let card = Card::new(*suit, *rank);
            assert_eq!(card.suit(), *suit);
            assert_eq!(card.rank(), *rank);
            assert_eq!(card.value() as usize, ri + 2);
            assert_eq!(suit.code() as usize, si);
            assert_eq!(rank.value(), card.value());
        }
    }
}

#[test]
fn card_values_and_symbols() {
    assert_eq!(Card::new(Suit::Spades, Rank::Ace).value(), 14);
    assert_eq!(Card::new(Suit::Hearts, Rank::Jack).value(), 11);
    assert_eq!(Card::new(Suit::Hearts, Rank::Two).suit_symbol(), "♥");
    assert_eq!(Card::new(Suit::Spades, Rank::Two).suit_symbol(), "♠");
    assert_eq!(Card::new(Suit::Clubs, Rank::Two).suit_symbol(), "♣");
    assert_eq!(Card::new(Suit::Diamonds, Rank::Two).suit_symbol(), "♦");
    assert_eq!(std::mem::size_of::<Card>(), 1);
}

fn drain(hand: &mut PlayerHand) -> Vec<Card> {
    let mut out = Vec::new();
    while let Some(c) = hand.draw_card() {
        out.push(c);
    }
    out
}

#[test]
fn new_deck_splits_alternately_in_order() {
    let (mut hand1, mut hand2) = Deck::new().split();
    assert_eq!(hand1.len(), 26);
    assert_eq!(hand2.len(), 26);
    let a = drain(&mut hand1);
    let b = drain(&mut hand2);
    assert_eq!(a[0], Card::new(Suit::Diamonds, Rank::King));
    assert_eq!(b[0], Card::new(Suit::Diamonds, Rank::Ace));
    assert_eq!(a[25], Card::new(Suit::Hearts, Rank::Two));
    assert_eq!(b[25], Card::new(Suit::Hearts, Rank::Three));
    assert!(hand1.is_empty());
}

fn all_cards(deck: Deck) -> Vec<(usize, u8)> {
    let (mut hand1, mut hand2) = deck.split();
    let mut cards: Vec<(usize, u8)> = drain(&mut hand1)
        .into_iter()
        .chain(drain(&mut hand2))
        .map(|c| (c.suit().code() as usize, c.value()))
        .collect();
    cards.sort();
    cards
}

#[test]
fn shuffles_keep_every_card_once() {
    let full = all_cards(Deck::new());
    assert_eq!(full.len(), 52);
    let mut seeded = Deck::new();
    seeded.shuffle_with_seed(42);
    assert_eq!(all_cards(seeded), full);
    let mut random = Deck::new();
    random.shuffle();
    assert_eq!(all_cards(random), full);
}

#[test]
fn seeded_shuffle_moves_cards_and_repeats() {
    let mut a = Deck::new();
    a.shuffle_with_seed(7);
    let mut b = Deck::new();
    b.shuffle_with_seed(7);
    let (mut a1, _) = a.split();
    let (mut b1, _) = b.split();
    let (mut c1, _) = Deck::new().split();
    let da = drain(&mut a1);
    assert_eq!(da, drain(&mut b1));
    assert_ne!(da, drain(&mut c1));
}

#[test]
fn hand_draws_from_back_and_takes_pot_reversed_at_front() {
    let mut hand = PlayerHand::new();
    assert!(hand.is_empty());
    hand.add_card(Card::new(Suit::Hearts, Rank::Two));
    hand.add_card(Card::new(Suit::Hearts, Rank::Three));
    let mut pot = RingBuffer::<Card, 52>::new(Card::new(Suit::Hearts, Rank::Two));
    assert!(pot.push_back(Card::new(Suit::Clubs, Rank::Ten)));
    assert!(pot.push_back(Card::new(Suit::Clubs, Rank::Jack)));
    hand.take_battle_cards(&pot);
    assert_eq!(hand.len(), 4);
    assert_eq!(pot.len(), 2);
    assert_eq!(
        drain(&mut hand),
        vec![
            Card::new(Suit::Hearts, Rank::Three),
            Card::new(Suit::Hearts, Rank::Two),
            Card::new(Suit::Clubs, Rank::Ten),
            Card::new(Suit::Clubs, Rank::Jack),
        ]
    );
    assert_eq!(hand.draw_card(), None);
}

#[test]
fn full_hand_ignores_more_cards() {
    let (mut hand1, mut hand2) = Deck::new().split();
    let mut pot = RingBuffer::<Card, 52>::new(Card::new(Suit::Hearts, Rank::Two));
    for _ in 0..26 {
        let c = hand2.draw_card().unwrap();
        assert!(pot.push_back(c));
    }
    hand1.take_battle_cards(&pot);
    assert_eq!(hand1.len(), 52);
    hand1.add_card(Card::new(Suit::Hearts, Rank::Two));
    assert_eq!(hand1.len(), 52);
    hand1.take_battle_cards(&pot);
    assert_eq!(hand1.len(), 52);
}
