//! The bot: what it is told, and what it answers.

pub mod callbacks;
pub mod questions;
pub mod replies;
pub mod shows;
pub mod text;
pub mod updates;
pub mod words;
