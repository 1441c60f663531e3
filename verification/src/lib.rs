//! Headless match engine: card data model, game state, action encoding and
//! the rules that act on them, with their contracts proved by Verus.

pub mod ids;
pub mod limits;
pub mod card;
pub mod trace;
pub mod state;
pub mod action;
pub mod action_id;
pub mod error;
pub mod event;
pub mod play;
pub mod lethal;
pub mod oracle;
pub mod apply;
pub mod refs;
pub mod db;
pub mod select;
pub mod info;
pub mod encode;
pub mod determinize;
pub mod effects;
pub mod eval;
pub mod gates;
pub mod playable;
pub mod fusion;
pub mod form;
pub mod lasting;

pub use action::{acting_player, from_neutral, legal_actions_neutral, to_neutral, Action};
pub use action_id::{legal_ids, legal_mask, ActionId};
pub use apply::{legal_actions, zone_count};
pub use card::{Card, CardId, CardOrCrest};
pub use db::CardDb;
pub use gates::{board_info, hand_info};
pub use ids::{AttackTarget, First, PlayerId, Slot};
pub use info::{player_info, BoardCardInfo, GateInfo, HandCardInfo, PlayerInfo};
