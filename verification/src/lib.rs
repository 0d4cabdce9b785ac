//! The data-access core of a small inventory desktop application: an
//! in-memory relational store holding tasks, bookmarks and network
//! switches, with per-entity repositories, a derived bookmark-section
//! view, and a whole-database backup document that can be exported and
//! imported atomically. Every operation carries a verified contract; the
//! unverified shell around it only moves rows between this store and its
//! on-disk form.

pub mod store;
pub mod strorder;
pub mod json;
pub mod models;
pub mod tags;

use vstd::prelude::*;

verus! {

/// Largest text length, in characters, that the storage engine accepts in a
/// single field; longer strings are rejected with `DbError::TextTooLarge`.
pub const MAX_TEXT_LEN: usize = 1000000000;

/// A text value fits within the storage engine's per-field size limit.
pub open spec fn text_fits(s: Seq<char>) -> bool {
    s.len() <= MAX_TEXT_LEN
}

/// Errors surfaced by the store. Reads never fail; writes fail only when a
/// field exceeds the storage size limit or the identity space is exhausted.
#[derive(Clone, Copy, PartialEq, Eq, Structural, Debug)]
pub enum DbError {
    /// A text field exceeds the storage engine's size limit.
    TextTooLarge,
    /// No fresh identity can be assigned: the identity counter is exhausted.
    IdExhausted,
    /// A generic row lacks a column, or holds the wrong type in one, for
    /// the record being read.
    ColumnMismatch,
}

impl DbError {
    /// A human-readable description of the failure.
    pub fn message(&self) -> String {
        match self {
            DbError::TextTooLarge => "text value exceeds the storage size limit".to_string(),
            DbError::IdExhausted => "identity space exhausted".to_string(),
            DbError::ColumnMismatch => "row does not match the record's columns".to_string(),
        }
    }
}

} // verus!
