//! Reads a Mars weather report, picks its earliest fully valid sol, and
//! decodes that sol into a self-contained record.
//!
//! `document` reads JSON text into the `json` tree; `report` and `validity`
//! decode the report and select a sol; `sol` decodes the selected sol.

pub mod document;
pub mod error;
pub mod json;
pub mod report;
pub mod sol;
pub mod validity;
