//! Rules engine for Schafkopf, a trick-taking card game for four players.
//!
//! The engine decides which bids are open during the auction, which contract
//! the auction produces, which cards may be played on a trick, who wins each
//! trick and how the card points add up. It does not choose: players are
//! asked through [`agent::Agent`], and every answer is checked.
//!
//! A deal runs through [`auction::Auction`] and then [`game::Game`];
//! [`match_logic::Match`] drives both for four players.

pub mod agent;
pub mod auction;
pub mod card;
pub mod contract;
pub mod deal_laws;
pub mod dealer;
pub mod error;
pub mod game;
pub mod hand;
pub mod legal;
pub mod match_logic;
pub mod play;
pub mod random;
pub mod text;
pub mod trick;

pub use crate::agent::{Agent, RandomAgent};
pub use crate::auction::Auction;
pub use crate::card::{Card, Suit, Value};
pub use crate::contract::{get_trump_order, is_trump, Contract};
pub use crate::dealer::Dealer;
pub use crate::error::LegalityError;
pub use crate::game::{Game, PlayerGameState};
pub use crate::hand::Hand;
pub use crate::match_logic::Match;
pub use crate::trick::PlayedCard;
