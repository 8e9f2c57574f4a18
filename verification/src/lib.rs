//! The verified core of a daily "bingo card" to-do tracker: domains with
//! template tasks, daily cards opened from them, the edits made to a card,
//! archiving, and the statistics shown on the performance page.

pub mod outside;

pub mod cards;
pub mod domains;
pub mod model;
pub mod series;
pub mod state;
pub mod stats;
pub mod laws;
pub mod lookup;
pub mod text;

