//! Goat, a card game for three to fifteen players: a war of tricks, a rummy of
//! runs, and a goat at the end.
//!
//! The crate holds the rules and those who keep them:
//!
//! - `cards`: multisets of cards in one 128-bit word, with their algebra
//!   (`bits` holds the facts about the word), and `card`, `rank`, `suit`;
//! - `rand_id`, `id`: random identifiers and their text;
//! - `action`, `event`, `response`: what is said to the server, what happened,
//!   and what the server tells;
//! - `war_trick`, `war_hand`, `war_phase` and `rummy_trick`, `rummy_hand`,
//!   `rummy_phase`, `dreck`: the two phases of play and the passage between them;
//! - `server_game`: the game and its log, which every accepted action extends;
//! - `client_game`, `client`: the game as one who is sent the log holds it;
//! - `server`, `subscriber`: the registry of games and users, which decides what
//!   is sent to whom;
//! - `strategy`, `bot`: players that choose their own actions.
//!
//! What holds of every game is proved in `tally` (the cards are all there),
//! `copies` (no card is there more than three times, so no hand or pile ever
//! refuses one) and `mirror` with `handover` (a client that is sent the log,
//! each event as its receiver may see it, holds what the server holds).
pub mod action;
pub mod bits;
pub mod bot;
pub mod card;
pub mod cards;
pub mod client;
pub mod client_game;
pub mod copies;
pub mod deck;
pub mod dreck;
pub mod error;
pub mod event;
pub mod goat_phase;
pub mod handover;
pub mod id;
pub mod lists;
pub mod mirror;
pub mod one_action;
pub mod prev_trick;
pub mod rand_id;
pub mod rank;
pub mod response;
pub mod rummy_hand;
pub mod rummy_history;
pub mod rummy_phase;
pub mod rummy_trick;
pub mod server;
pub mod server_game;
pub mod slot;
pub mod strategy;
pub mod subscriber;
pub mod suit;
pub mod tally;
pub mod text;
pub mod user;
pub mod user_db;
pub mod war_hand;
pub mod war_phase;
pub mod war_trick;
pub mod war_trick_play;

pub use action::Action;
pub use bot::{bot_action, changed_game, game_action};
pub use card::Card;
pub use cards::Cards;
pub use client::Client;
pub use client_game::{ClientGame, ClientPhase};
pub use deck::{ClientDeck, Deck};
pub use error::GoatError;
pub use event::Event;
pub use goat_phase::GoatPhase;
pub use id::{GameId, PlayerIdx, UserId};
pub use one_action::{LastAction, OneAction};
pub use prev_trick::PreviousTrick;
pub use rand_id::RandId;
pub use rank::Rank;
pub use response::Response;
pub use rummy_hand::{ClientRummyHand, RummyHand};
pub use rummy_history::RummyHistory;
pub use rummy_phase::RummyPhase;
pub use rummy_trick::RummyTrick;
pub use server::{Delivery, Server};
pub use server_game::{ServerGame, ServerPhase};
pub use slot::Slot;
pub use strategy::{
    rummy_random, rummy_simple, rummy_simulate, simulate_once, war_cover, war_duck, war_play_top,
    AdaptSimple, AdaptSimulate, CoverSimple, DuckSimple, PlayTopSimple, Strategy,
};
pub use subscriber::Subscriber;
pub use suit::Suit;
pub use user::User;
pub use user_db::UserDb;
pub use war_hand::{ClientWarHand, ServerWarHand, WarHand};
pub use war_phase::WarPhase;
pub use war_trick::WarTrick;
pub use war_trick_play::{WarPlay, WarPlayKind};
