//! An archive filter for ZIP-like game containers.
//!
//! A container is inspected entry by entry, each entry is classified by a
//! removal policy over its name, and when anything is removable the
//! container is rebuilt with only the kept entries, every one of them a
//! verbatim raw copy of its compressed record. A container with nothing to
//! remove is left untouched. Per-container counts feed a saturating
//! aggregate.
//!
//! The container format itself is read and written by the `zip` crate
//! behind a small trusted boundary in [`zipio`]; everything else —
//! the predicate, the classification, the rebuild loop and the
//! accounting — is verified.

#![verifier::loop_isolation(false)]

pub mod classify;
pub mod policy;
pub mod rebuild;
pub mod totals;
pub mod zipio;
