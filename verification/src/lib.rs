//! The library behind a small desktop RSS reader: feed items become stories,
//! stories are kept per subscription, and the reader lists them in order.

pub mod date;
pub mod entries;
pub mod feed;
pub mod layout;
pub mod menu;
pub mod source;
pub mod text;
