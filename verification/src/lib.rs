//! Verified core of the football training engine: match bookkeeping,
//! calendar and naming helpers, tournament tables and training control.

pub mod text;
pub mod datetime;
pub mod order;
pub mod sessions;
pub mod tournament;
pub mod registry;
pub mod game;
pub mod clock;
pub mod rules;
pub mod anneal;
pub mod params;
pub mod combos;
pub mod teams;
pub mod matrix;
pub mod spatial;
pub mod trainer;
pub mod frame;
pub mod history;
pub mod mutation;
