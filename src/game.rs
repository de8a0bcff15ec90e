//! The War game's state and round rules. A round's decisions are made here;
//! what should be shown, and where to pause, is handed back as a list of
//! events for the caller to display.

use vstd::prelude::*;

use crate::cards::{
    deals_full_deck, lemma_deal_keeps_every_card, Card, Deck, PlayerHand, Rank, Suit,
};
use crate::ring_buffer::RingBuffer;

verus! {

/// What can go wrong in a game.
#[derive(Debug, Clone, Copy, PartialEq, Eq, Structural)]
pub enum GameError {
    PlayerOutOfCards(usize),
    InvalidPlayerNumber(usize),
    BattleBufferFull,
}

/// Something that happened during a round, in the order it happened.
#[derive(Debug, Clone, Copy, PartialEq, Eq, Structural)]
pub enum RoundEvent {
    /// A round begins, with each player's card count.
    Start { round: usize, player1_cards: usize, player2_cards: usize },
    /// A player drew a card.
    Draw { player: usize, card: Card },
    /// The two cards that face off.
    Play { card1: Card, card2: Card },
    /// A player won the round outright.
    RoundWon { player: usize },
    /// The two cards tied at `value`: a war starts (and play pauses).
    War { value: u8 },
    /// A player put a card face down into the pot during a war.
    Burn { player: usize, number: usize, card: Card },
    /// A player had no card left during a war.
    OutOfCards { player: usize },
    /// The two cards that decide a war.
    WarCards { card1: Card, card2: Card },
    /// A player won the war.
    WarWon { player: usize },
    /// The deciding cards tied too; player 1 takes the pot.
    WarTie,
}

/// The pot of a war fought from hands `hand1` and `hand2`: both players' cards
/// taken alternately from the back, player 1 first, five each (the tied
/// card, three face down, and the deciding card).
pub open spec fn war_pot(hand1: Seq<Card>, hand2: Seq<Card>) -> Seq<Card> {
    Seq::new(
        10,
        |i: int|
            if i % 2 == 0 {
                hand1[hand1.len() - 1 - i / 2]
            } else {
                hand2[hand2.len() - 1 - i / 2]
            },
    )
}

/// The winner of a game when a war finds a player short of cards: the
/// player who runs out first loses, and player 1 is asked first each time.
pub open spec fn short_war_winner(n1: nat, n2: nat) -> usize {
    if n1 <= n2 {
        2
    } else {
        1
    }
}

/// A game between two hands, with the pot of the current round.
pub struct WarGame {
    pub player1_cards: PlayerHand,
    pub player2_cards: PlayerHand,
    pub battle_buffer: RingBuffer<Card, 52>,
    pub round: usize,
    pub test_mode: bool,
    pub interactive: bool,
}

impl WarGame {
    /// Hands and pot are well formed and hold at most one deck between them.
    pub open spec fn wf(&self) -> bool {
        &&& self.player1_cards.wf()
        &&& self.player2_cards.wf()
        &&& self.battle_buffer.wf()
        &&& self.player1_cards@.len() + self.player2_cards@.len() + self.battle_buffer@.len()
            <= 52
    }

    /// A game whose hands are `hands`, before the first round.
    fn from_hands(hands: (PlayerHand, PlayerHand), test_mode: bool, interactive: bool) -> (r:
        Self)
        requires
            hands.0.wf(),
            hands.1.wf(),
            hands.0@.len() == 26,
            hands.1@.len() == 26,
        ensures
            r.wf(),
            r.player1_cards@ == hands.0@,
            r.player2_cards@ == hands.1@,
            r.battle_buffer@ == Seq::<Card>::empty(),
            r.round == 0,
            r.test_mode == test_mode,
            r.interactive == interactive,
    {
        let (player1_cards, player2_cards) = hands;
        WarGame {
            player1_cards,
            player2_cards,
            battle_buffer: RingBuffer::new(Card::new(Suit::Hearts, Rank::Two)),
            round: 0,
            test_mode,
            interactive,
        }
    }

    /// A new game: a freshly shuffled deck dealt alternately into two hands
    /// of 26 cards, every card of the deck in one of them.
    pub fn new(test_mode: bool, interactive: bool) -> (r: Self)
        ensures
            r.wf(),
            deals_full_deck(r.player1_cards@, r.player2_cards@),
            r.battle_buffer@ == Seq::<Card>::empty(),
            r.round == 0,
            r.test_mode == test_mode,
            r.interactive == interactive,
    {
        let mut deck = Deck::new();
        let ghost ordered = deck@;
        deck.shuffle();
        let ghost shuffled = deck@;
        let hands = deck.split();
        proof {
            lemma_deal_keeps_every_card(ordered, shuffled, hands.0@, hands.1@);
        }
        Self::from_hands(hands, test_mode, interactive)
    }

    /// A new game whose deck is shuffled by a generator seeded with `seed`.
    pub fn new_with_seed(test_mode: bool, interactive: bool, seed: u64) -> (r: Self)
        ensures
            r.wf(),
            deals_full_deck(r.player1_cards@, r.player2_cards@),
            r.battle_buffer@ == Seq::<Card>::empty(),
            r.round == 0,
            r.test_mode == test_mode,
            r.interactive == interactive,
    {
        let mut deck = Deck::new();
        let ghost ordered = deck@;
        deck.shuffle_with_seed(seed);
        let ghost shuffled = deck@;
        let hands = deck.split();
        proof {
            lemma_deal_keeps_every_card(ordered, shuffled, hands.0@, hands.1@);
        }
        Self::from_hands(hands, test_mode, interactive)
    }

    /// Draw from the back of player `player`'s hand (1 or 2).
    pub fn draw_card(&mut self, player: usize) -> (r: Result<Option<Card>, GameError>)
        requires
            old(self).wf(),
        ensures
            final(self).wf(),
            final(self).battle_buffer == old(self).battle_buffer,
            final(self).round == old(self).round,
            final(self).test_mode == old(self).test_mode,
            final(self).interactive == old(self).interactive,
            player != 1 && player != 2 ==> r == Err::<Option<Card>, GameError>(
                GameError::InvalidPlayerNumber(player),
            ) && final(self).player1_cards@ == old(self).player1_cards@
                && final(self).player2_cards@ == old(self).player2_cards@,
            player == 1 ==> final(self).player2_cards@ == old(self).player2_cards@ && (if old(
                self,
            ).player1_cards@.len() == 0 {
                r == Ok::<Option<Card>, GameError>(None) && final(self).player1_cards@ == old(
                    self,
                ).player1_cards@
            } else {
                r == Ok::<Option<Card>, GameError>(Some(old(self).player1_cards@.last()))
                    && final(self).player1_cards@ == old(self).player1_cards@.drop_last()
            }),
            player == 2 ==> final(self).player1_cards@ == old(self).player1_cards@ && (if old(
                self,
            ).player2_cards@.len() == 0 {
                r == Ok::<Option<Card>, GameError>(None) && final(self).player2_cards@ == old(
                    self,
                ).player2_cards@
            } else {
                r == Ok::<Option<Card>, GameError>(Some(old(self).player2_cards@.last()))
                    && final(self).player2_cards@ == old(self).player2_cards@.drop_last()
            }),
    {
        match player {
            1 => Ok(self.player1_cards.draw_card()),
            2 => Ok(self.player2_cards.draw_card()),
            _ => Err(GameError::InvalidPlayerNumber(player)),
        }
    }

    /// Give the pot to player `winner` (1 or 2), at the front of their hand in
    /// reverse pot order, then empty the pot.
    pub fn add_cards_to_winner(&mut self, winner: usize) -> (r: Result<(), GameError>)
        requires
            old(self).wf(),
        ensures
            final(self).wf(),
            final(self).round == old(self).round,
            final(self).test_mode == old(self).test_mode,
            final(self).interactive == old(self).interactive,
            winner != 1 && winner != 2 ==> r == Err::<(), GameError>(
                GameError::InvalidPlayerNumber(winner),
            ) && final(self).player1_cards@ == old(self).player1_cards@
                && final(self).player2_cards@ == old(self).player2_cards@
                && final(self).battle_buffer@ == old(self).battle_buffer@,
            winner == 1 ==> r is Ok && final(self).player1_cards@ == old(
                self,
            ).battle_buffer@.reverse() + old(self).player1_cards@ && final(self).player2_cards@
                == old(self).player2_cards@ && final(self).battle_buffer@ == Seq::<Card>::empty(),
            winner == 2 ==> r is Ok && final(self).player2_cards@ == old(
                self,
            ).battle_buffer@.reverse() + old(self).player2_cards@ && final(self).player1_cards@
                == old(self).player1_cards@ && final(self).battle_buffer@ == Seq::<Card>::empty(),
    {
        let ghost pot = self.battle_buffer@;
        match winner {
            1 => {
                self.player1_cards.take_battle_cards(&self.battle_buffer);
            },
            2 => {
                self.player2_cards.take_battle_cards(&self.battle_buffer);
            },
            _ => {
                return Err(GameError::InvalidPlayerNumber(winner));
            },
        }
        assert(pot.take(pot.len() as int) =~= pot);
        self.battle_buffer.clear();
        Ok(())
    }

    /// Play one round, appending to `events` what happened.
    ///
    /// Returns `Some(w)` when the game is over with player `w` the winner:
    /// at the start of the round a player had no card, or during a war a
    /// player ran out. Otherwise each player draws from the back; the higher
    /// value takes both cards; on a tie each adds three cards face down and a
    /// deciding card, the higher deciding card takes the pot of ten, and a
    /// second tie goes to player 1. The winner puts the pot at the front of
    /// their hand in reverse pot order.
    pub fn play_round(&mut self, events: &mut Vec<RoundEvent>) -> (r: Result<
        Option<usize>,
        GameError,
    >)
        requires
            old(self).wf(),
            old(self).round < usize::MAX,
        ensures
            final(self).wf(),
            final(self).round == old(self).round + 1,
            final(self).test_mode == old(self).test_mode,
            final(self).interactive == old(self).interactive,
            final(events)@.len() >= old(events)@.len(),
            final(events)@.subrange(0, old(events)@.len() as int) == old(events)@,
            ({
                let hand1 = old(self).player1_cards@;
                let hand2 = old(self).player2_cards@;
                let n1 = hand1.len();
                let n2 = hand2.len();
                let c1 = hand1.last();
                let c2 = hand2.last();
                let q1 = final(self).player1_cards@;
                let q2 = final(self).player2_cards@;
                let tie = c1.spec_value() == c2.spec_value();
                &&& (n1 == 0 || n2 == 0) ==> r == Ok::<Option<usize>, GameError>(
                    Some(if n1 == 0 { 2usize } else { 1usize }),
                ) && q1 == hand1 && q2 == hand2 && final(events)@ == old(events)@
                &&& n1 > 0 && n2 > 0 && !tie ==> {
                    let w: usize = if c1.spec_value() > c2.spec_value() { 1 } else { 2 };
                    &&& r == Ok::<Option<usize>, GameError>(None)
                    &&& final(self).battle_buffer@ == Seq::<Card>::empty()
                    &&& w == 1 ==> q1 == seq![c2, c1] + hand1.drop_last() && q2 == hand2.drop_last()
                    &&& w == 2 ==> q2 == seq![c2, c1] + hand2.drop_last() && q1 == hand1.drop_last()
                    &&& final(events)@ == old(events)@ + seq![
                        RoundEvent::Start {
                            round: final(self).round,
                            player1_cards: n1 as usize,
                            player2_cards: n2 as usize,
                        },
                        RoundEvent::Draw { player: 1, card: c1 },
                        RoundEvent::Draw { player: 2, card: c2 },
                        RoundEvent::Play { card1: c1, card2: c2 },
                        RoundEvent::RoundWon { player: w },
                    ]
                }
                &&& n1 > 0 && n2 > 0 && tie && (n1 < 5 || n2 < 5) ==> r == Ok::<
                    Option<usize>,
                    GameError,
                >(Some(short_war_winner(n1, n2)))
                &&& n1 >= 5 && n2 >= 5 && tie ==> {
                    let pot = war_pot(hand1, hand2);
                    let w: usize = if hand2[n2 - 5].spec_value() > hand1[n1 - 5].spec_value() {
                        2
                    } else {
                        1
                    };
                    &&& r == Ok::<Option<usize>, GameError>(None)
                    &&& final(self).battle_buffer@ == Seq::<Card>::empty()
                    &&& w == 1 ==> q1 == pot.reverse() + hand1.take(n1 - 5) && q2 == hand2.take(n2 - 5)
                    &&& w == 2 ==> q2 == pot.reverse() + hand2.take(n2 - 5) && q1 == hand1.take(n1 - 5)
                }
            }),
    {
        let ghost hand1 = self.player1_cards@;
        let ghost hand2 = self.player2_cards@;
        let ghost n1 = hand1.len();
        let ghost n2 = hand2.len();
        let ghost log0 = events@;
        self.round = self.round + 1;
        if self.player1_cards.is_empty() {
            return Ok(Some(2));
        }
        if self.player2_cards.is_empty() {
            return Ok(Some(1));
        }
        events.push(
            RoundEvent::Start {
                round: self.round,
                player1_cards: self.player1_cards.len(),
                player2_cards: self.player2_cards.len(),
            },
        );
        self.battle_buffer.clear();
        let card1 = match self.draw_card(1) {
            Ok(Some(c)) => c,
            Ok(None) => {
                return Err(GameError::PlayerOutOfCards(1));
            },
            Err(e) => {
                return Err(e);
            },
        };
        let card2 = match self.draw_card(2) {
            Ok(Some(c)) => c,
            Ok(None) => {
                return Err(GameError::PlayerOutOfCards(2));
            },
            Err(e) => {
                return Err(e);
            },
        };
        events.push(RoundEvent::Draw { player: 1, card: card1 });
        events.push(RoundEvent::Draw { player: 2, card: card2 });
        self.battle_buffer.push_back(card1);
        self.battle_buffer.push_back(card2);
        events.push(RoundEvent::Play { card1, card2 });
        let ghost pot = war_pot(hand1, hand2);
        let value1 = card1.value();
        let value2 = card2.value();
        if value1 > value2 {
            events.push(RoundEvent::RoundWon { player: 1 });
            if let Err(e) = self.add_cards_to_winner(1) {
                return Err(e);
            }
            assert(seq![card1, card2].reverse() =~= seq![card2, card1]);
        } else if value2 > value1 {
            events.push(RoundEvent::RoundWon { player: 2 });
            if let Err(e) = self.add_cards_to_winner(2) {
                return Err(e);
            }
            assert(seq![card1, card2].reverse() =~= seq![card2, card1]);
        } else {
            events.push(RoundEvent::War { value: value1 });
            assert(self.battle_buffer@ =~= pot.take(2));
            assert(hand1.drop_last() =~= hand1.take(n1 - 1));
            assert(hand2.drop_last() =~= hand2.take(n2 - 1));
            let mut i: usize = 1;
            while i <= 3
                invariant
                    1 <= i <= 4,
                    self.wf(),
                    self.round == old(self).round + 1,
                    self.test_mode == old(self).test_mode,
                    self.interactive == old(self).interactive,
                    hand1 == old(self).player1_cards@,
                    hand2 == old(self).player2_cards@,
                    n1 == hand1.len(),
                    n2 == hand2.len(),
                    n1 + n2 <= 52,
                    pot == war_pot(hand1, hand2),
                    n1 >= i,
                    n2 >= i,
                    hand1.last().spec_value() == hand2.last().spec_value(),
                    self.player1_cards@ == hand1.take(n1 - i),
                    self.player2_cards@ == hand2.take(n2 - i),
                    self.battle_buffer@ == pot.take(2 * i),
                    events@.len() >= log0.len(),
                    events@.subrange(0, log0.len() as int) == log0,
                    log0 == old(events)@,
                decreases 4 - i,
            {
                let ghost e0 = events@;
                match self.draw_card(1) {
                    Ok(Some(burn1)) => {
                        events.push(RoundEvent::Draw { player: 1, card: burn1 });
                        self.battle_buffer.push_back(burn1);
                        events.push(RoundEvent::Burn { player: 1, number: i, card: burn1 });
                    },
                    Ok(None) => {
                        events.push(RoundEvent::OutOfCards { player: 1 });
                        assert(events@.subrange(0, log0.len() as int) =~= log0);
                        return Ok(Some(2));
                    },
                    Err(e) => {
                        return Err(e);
                    },
                }
                match self.draw_card(2) {
                    Ok(Some(burn2)) => {
                        events.push(RoundEvent::Draw { player: 2, card: burn2 });
                        self.battle_buffer.push_back(burn2);
                        events.push(RoundEvent::Burn { player: 2, number: i, card: burn2 });
                    },
                    Ok(None) => {
                        events.push(RoundEvent::OutOfCards { player: 2 });
                        assert(events@.subrange(0, log0.len() as int) =~= log0);
                        return Ok(Some(1));
                    },
                    Err(e) => {
                        return Err(e);
                    },
                }
                assert(hand1.take(n1 - i).drop_last() =~= hand1.take(n1 - i - 1));
                assert(hand2.take(n2 - i).drop_last() =~= hand2.take(n2 - i - 1));
                assert(self.battle_buffer@ =~= pot.take(2 * i + 2));
                assert(events@.subrange(0, log0.len() as int) =~= log0);
                i = i + 1;
            }
            let war_card1 = match self.draw_card(1) {
                Ok(Some(c)) => c,
                Ok(None) => {
                    events.push(RoundEvent::OutOfCards { player: 1 });
                    assert(events@.subrange(0, log0.len() as int) =~= log0);
                    return Ok(Some(2));
                },
                Err(e) => {
                    return Err(e);
                },
            };
            let war_card2 = match self.draw_card(2) {
                Ok(Some(c)) => c,
                Ok(None) => {
                    events.push(RoundEvent::OutOfCards { player: 2 });
                    assert(events@.subrange(0, log0.len() as int) =~= log0);
                    return Ok(Some(1));
                },
                Err(e) => {
                    return Err(e);
                },
            };
            events.push(RoundEvent::Draw { player: 1, card: war_card1 });
            events.push(RoundEvent::Draw { player: 2, card: war_card2 });
            self.battle_buffer.push_back(war_card1);
            self.battle_buffer.push_back(war_card2);
            events.push(RoundEvent::WarCards { card1: war_card1, card2: war_card2 });
            assert(self.battle_buffer@ =~= pot);
            assert(hand1.take(n1 - 4).drop_last() =~= hand1.take(n1 - 5));
            assert(hand2.take(n2 - 4).drop_last() =~= hand2.take(n2 - 5));
            let war_value1 = war_card1.value();
            let war_value2 = war_card2.value();
            if war_value1 > war_value2 {
                events.push(RoundEvent::WarWon { player: 1 });
                if let Err(e) = self.add_cards_to_winner(1) {
                    return Err(e);
                }
            } else if war_value2 > war_value1 {
                events.push(RoundEvent::WarWon { player: 2 });
                if let Err(e) = self.add_cards_to_winner(2) {
                    return Err(e);
                }
            } else {
                events.push(RoundEvent::WarTie);
                if let Err(e) = self.add_cards_to_winner(1) {
                    return Err(e);
                }
            }
        }
        assert(events@.subrange(0, log0.len() as int) =~= log0);
        Ok(None)
    }

    /// The round after which the game stops: 20 in test mode, else 10000.
    pub fn round_limit(&self) -> (r: usize)
        ensures
            r == (if self.test_mode {
                20usize
            } else {
                10000usize
            }),
    {
        if self.test_mode {
            20
        } else {
            10000
        }
    }

    /// The player holding more cards, or `None` when both hold as many.
    pub fn leader(&self) -> (r: Option<usize>)
        requires
            self.wf(),
        ensures
            self.player1_cards@.len() > self.player2_cards@.len() ==> r == Some(1usize),
            self.player2_cards@.len() > self.player1_cards@.len() ==> r == Some(2usize),
            self.player1_cards@.len() == self.player2_cards@.len() ==> r is None,
    {
        let len1 = self.player1_cards.len();
        let len2 = self.player2_cards.len();
        if len1 > len2 {
            Some(1)
        } else if len2 > len1 {
            Some(2)
        } else {
            None
        }
    }
}

} // verus!
