//! Conversion of a national airspace dataset into OpenAir text.
//!
//! The dataset is held in `yaixm`, the user's choices in `settings`, and
//! what the user is offered in `choices`. `select` decides which volumes
//! go into an export, `boundary` turns a volume's boundary into the points
//! of its outline, and `openair` writes the text. `convert` ties the three
//! together. Everything is done in whole numbers: positions are
//! arc-seconds, distances are scaled metres.

pub mod boundary;
pub mod choices;
pub mod convert;
pub mod error;
pub mod geo;
pub mod openair;
pub mod select;
pub mod select_proofs;
pub mod settings;
pub mod text;
pub mod yaixm;
