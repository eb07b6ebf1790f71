//! Equality generation for record types that deliberately ignores
//! timestamp-like fields.
//!
//! A record shape (an ordered list of named fields) together with a small
//! rule set — suffix tokens from an `exclude_suffix`-style directive, plus
//! per-field skip markers — determines, for every field, one of three
//! treatments: compare by value, compare presence only, or omit. The
//! resulting comparator is an AND of one term per non-omitted field, and is
//! evaluated here as a verified predicate over two record instances.

pub mod classify;
pub mod compare;
pub mod generate;
pub mod laws;
pub mod rules;
pub mod shape;
