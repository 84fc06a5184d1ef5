//! Positions, orders and the procedures that keep two legs hedged.

pub mod account;
pub mod amounts;
pub mod batch;
pub mod books;
pub mod fills;
pub mod guard;
pub mod holdings;
pub mod income;
pub mod live;
pub mod logs;
pub mod matching;
pub mod no_loss;
pub mod orders;
pub mod paper;
pub mod plan;
pub mod protection;
pub mod quantities;
pub mod reconcile;
pub mod recovery;
pub mod rules;
pub mod service;
pub mod sizing;
pub mod tasks;
pub mod worth;
