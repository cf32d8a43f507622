//! Rules engine of a two-player card battle: card zones, the mana economy,
//! the effect ledger and the cascade of card reactions to game events.

pub mod cards;
pub mod codes;
pub mod deck;
pub mod decoder;
pub mod errors;
pub mod game;
pub mod keywords;
pub mod laws;
pub mod ledger;
pub mod model;
pub mod player;
pub mod seqs;

pub use crate::codes::faction_int_to_str;
pub use crate::decoder::DeckEntry;
pub use crate::errors::{Error, ErrorView};
pub use crate::game::{Game, GameView, User};
pub use crate::ledger::{ActiveEffect, Expiry, Ledger};
pub use crate::model::{
    Card, CardIndex, CardType, CardView, Duration, Effect, Event, Faction, Keyword, Rarity,
    Reaction, SubType,
};
pub use crate::player::{Player, PlayerView};
