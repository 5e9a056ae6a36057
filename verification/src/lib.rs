//! Inference of printf-style filename patterns for numbered frame sequences.
//!
//! Given two filenames that belong to the same numbered sequence, the library
//! locates the single run of decimal digits that varies between them, checks
//! that everything around that run is identical, and reports the shared
//! prefix, the shared suffix, and the digit width of the varying index.

pub mod scan;
pub mod compare;
pub mod pattern;
pub mod laws;
