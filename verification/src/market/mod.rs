//! Markets, and the routes between them.

pub mod averages;
pub mod changes;
pub mod decode;
pub mod history;
pub mod projection;
pub mod routes;
pub mod scan;
pub mod search;
pub mod service;
