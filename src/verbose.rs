//! Reading the fields of verbose-mode payloads.
pub mod field_slicer;
