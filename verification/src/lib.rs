//! A two-party Blackjack engine: the card model, hand scoring with soft and
//! hard aces, the deck, and the state machine of one round between a player
//! and a dealer who follows a fixed policy.

pub mod card;
pub mod scoring;
pub mod hand;
pub mod deck;
pub mod game;
pub mod input;
pub mod viewer;
