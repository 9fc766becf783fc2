//! Turn-decision policies for automated players of a seven-card,
//! hidden-information card game.
//!
//! Each turn a player swaps one held card for a visible card of the shared
//! discard pile or for an unseen card of the face-down deck. The policies
//! here pick the swap with the greatest evaluation, and their contracts say
//! exactly which swap that is.
//!
//! - `cards`: cards, hands and draw actions as plain values.
//! - `collection`: the card sets and the scoring oracle of the game crate,
//!   and what is assumed of them.
//! - `evaluation`: exact fractions and their comparison.
//! - `moves`: one-move outcomes and the set of unknown cards.
//! - `search`: the candidate turns, their evaluation with or without one
//!   turn of lookahead, and the choice among them.
//! - `bot`, `randy`, `automatos_v1`, `automatos_v2`, `roster`: the bots and
//!   their selection by name.
//! - `text`, `answers`: what typed answers mean.
//! - `laws`: what holds of the search for every position.

pub mod text;
pub mod cards;
pub mod collection;
pub mod evaluation;
pub mod moves;
pub mod search;
pub mod bot;
pub mod automatos_v1;
pub mod automatos_v2;
pub mod randy;
pub mod roster;
pub mod answers;
pub mod laws;

pub use automatos_v1::AutomatosV1;
pub use automatos_v2::AutomatosV2;
pub use bot::FantasyRealmsBot;
pub use cards::Card;
pub use cards::DrawCard;
pub use cards::Hand;
pub use randy::Randy;
pub use roster::new_bot;
pub use roster::Bot;
pub use roster::PlayerType;
