//! Front-end core for a pure functional language: a comment-preserving
//! expression formatter and the bookkeeping of a module loader.

pub mod annotation;
pub mod ast;
pub mod buffer;
pub mod can;
pub mod collections;
pub mod comments;
pub mod coordinator;
pub mod expr;
pub mod header;
pub mod layout;
pub mod lines;
pub mod load;
pub mod margins;
pub mod neat;
pub mod pattern;
pub mod reading;
pub mod render;
pub mod room;
pub mod reread;
pub mod solve;
pub mod spaces;
pub mod trim;
pub mod validity;
