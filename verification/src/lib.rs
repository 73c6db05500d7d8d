//! The map's overlay layers: what each holds and fetches, which picture a pane is
//! to draw at an instant, what its options offer, and the bytes a painter is asked
//! with.
//!
//! The layers are [`model`], [`mrms`], [`outlook`], [`reports`] and [`sites`];
//! [`layers`] lists all there are. [`jobs`] holds the rows that go to a painter and
//! come back, over the encodings of [`wire`]. Under the layers lie a store with a
//! budget and an order of use ([`recency`]), a table ([`table`]), a ledger of
//! failures ([`fetch`]), frames and stretches of time ([`frames`], [`residency`]),
//! and what a pane's settings are saved as ([`json`]).
//!
//! Numbers that are floating point elsewhere are carried here as bit patterns, and
//! a clock's reading is an argument.
pub mod controls;
pub mod fetch;
pub mod frames;
pub mod idset;
pub mod instant;
pub mod jobs;
pub mod json;
pub mod layers;
pub mod memo;
pub mod model;
pub mod mrms;
pub mod outlook;
pub mod pane;
pub mod popup;
pub mod price;
pub mod recency;
pub mod reports;
pub mod residency;
pub mod sites;
pub mod state;
pub mod table;
pub mod text;
pub mod wire;
