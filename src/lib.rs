//! A bounded, recency-ordered clipboard history with a memo store, and the key-chord
//! detection that drives captures.
pub mod date;
pub mod history;
pub mod key_combination;
pub mod localization;
pub mod memo;
pub mod pump;
pub mod settings;
pub mod store;
