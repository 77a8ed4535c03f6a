//! Parsing of outline headlines and of inline markup objects, on bytes.
//!
//! `title` reads a headline with the planning line, property drawer and blank
//! lines after it; `objects` finds the first inline construct of a text. Both
//! borrow what they return from their input wherever no copy is needed.

pub mod inline;
pub mod objects;
pub mod planning;
pub mod props;
pub mod scan;
pub mod tags;
pub mod text;
pub mod title;
