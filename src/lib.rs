//! A War card game built on a fixed-capacity, double-ended ring buffer.

pub mod calls;
pub mod cards;
pub mod game;
pub mod ring_buffer;

pub use game::{GameError, RoundEvent, WarGame};
pub use cards::{Card, Deck, PlayerHand, Rank, Suit};
pub use ring_buffer::{RingBuffer, RingBufferIter};
