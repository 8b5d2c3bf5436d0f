//! Pairs the elements of two collections by similarity of their keys, so that
//! the total edit distance over all pairs is as small as possible, and
//! reports the elements of the larger side that found no partner.
pub mod assignment;
pub mod blueprint;
pub mod distance;
pub mod fuzip;
pub mod laws;
pub mod sequencer;
pub mod two;
