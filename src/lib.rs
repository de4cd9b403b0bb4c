//! Keyboard layout optimisation: an ergonomic penalty model over the
//! four-keystroke sequences of a corpus, and the searches that minimise it.
//!
//! - `layout`: layouts, swaps, position maps, neighbourhoods, text form.
//! - `corpus`: the quartad table of a text.
//! - `penalty`: the sixteen rules on four key presses.
//! - `scoring` and `details`: the score of a layout on a corpus, and its
//!   breakdown by rule and keys.
//! - `annealing` and `simulator`: simulated annealing and refinement.
//! - `utils`: a bounded sorted list of the best entries.

pub mod annealing;
pub mod config;
pub mod corpus;
pub mod details;
pub mod layout;
pub mod penalty;
pub mod presets;
pub mod random;
pub mod scoring;
pub mod simulator;
pub mod utils;
