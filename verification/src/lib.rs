//! A decoder for QR codes in grayscale images.
//!
//! The crate has two halves. [`identify`] finds symbols in an image: it
//! thresholds the pixels, labels connected regions, finds the finder patterns
//! and fits a grid over each symbol. [`decode`] turns the module bitmap of one
//! symbol into its payload: it reads the format word, walks the data cells,
//! corrects errors with Reed-Solomon codes and decodes the segments.
//!
//! Every function states what it computes in its contract, and the contracts
//! are proved. Arithmetic on real numbers (the perspective transforms) is not
//! part of this crate: the functions that need a transformed point take it as
//! an argument.

pub mod constants;
pub mod decode;
pub mod error;
pub mod identify;
pub mod ops;
pub mod version_db;
