//! Intermediate representation of QL declarations and their textual rendering.

pub mod laws;
pub mod ql;
