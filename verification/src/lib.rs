//! The decision core of ArbiView, a funding-rate and spread arbitrage desk
//! that trades hedged pairs of positions on Binance and Bybit.

pub mod account_stream;
pub mod advisor;
pub mod config;
pub mod failure;
pub mod funding_cycle_strategy;
pub mod json;
pub mod ledger;
pub mod market;
pub mod models;
pub mod num;
pub mod parsing;
pub mod signing;
pub mod sorting;
pub mod spread_strategy;
pub mod telegram;
pub mod text;
pub mod trading;
pub mod yields;
