//! Verified core of a note inbox: notes, their tags, and typed relations
//! between notes.

pub mod time;
pub mod order;
pub mod seqs;
pub mod models;
pub mod tags;
pub mod db;
pub mod listing;
pub mod tag_index;
pub mod api;
pub mod laws;
