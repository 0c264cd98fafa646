//! Status reconciliation and reporting for data files under tracking.
//!
//! The crate classifies each entry of a status snapshot by its tracking
//! state, its local state and its remote state, groups the entries by
//! directory, lays them out as an aligned table and fingerprints file
//! contents. Every function carries a contract that Verus proves.

pub mod fingerprint;
pub mod grouping;
pub mod groups;
pub mod modtime;
pub mod remote;
pub mod render;
pub mod report;
pub mod status;
pub mod style;
pub mod table;
pub mod text;
