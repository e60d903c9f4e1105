//! decayfmt: a file format where decay is a first-class property.
//!
//! Every open corrupts the payload by an amount taken from the filename. This crate
//! holds the format itself: the typed error model ([`error`]), the binary header and
//! filename convention ([`format`]), the corruption algorithm ([`corrupt`]), and the
//! pure halves of the two flows built on them, [`encode`] and [`open`].

pub mod corrupt;
pub mod encode;
pub mod error;
pub mod format;
pub mod open;
