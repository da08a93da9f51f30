//! A verified library that measures "keyboard travel": how far a typist's
//! finger travels between consecutive letters of a word on a staggered
//! QWERTY-like layout.
//!
//! The library builds a complete pairwise distance table over the layout's
//! characters, scores words by the average distance between consecutive
//! characters, and scans a word list for the word with the highest score.
//!
//! Distances are held in an exact fixed-point form: the distance between two
//! keys is `floor(sqrt(d) * SCALE)` where `d` is the integer squared
//! Euclidean distance between their positions and `SCALE` is `2^20`. Every
//! arithmetic step is verified; nothing is rounded in an unspecified way.

pub mod layout;
pub mod point;
pub mod scan;
pub mod sqrt;
pub mod table;
