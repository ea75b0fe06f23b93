//! Rule-based placement of vocal ad-libs on a detected beat grid: the
//! integer decisions of the analysis pipeline, each with its contract.

pub mod catalog;
pub mod gaps;
pub mod key;
pub mod placement;
pub mod selection;
pub mod structure;
pub mod tempo;
pub mod window;
