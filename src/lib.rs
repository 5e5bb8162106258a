//! Binary search for a line in a text source whose lines are sorted by a key,
//! using only random access to single characters.
pub mod source;
pub mod locate;
pub mod search;
pub mod datetime;
