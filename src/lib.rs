//! Recoverable text markers embedded at the tail of arbitrary files, and the
//! planning of batch duplication into numbered, individually marked copies.

pub mod cipher;
pub mod search;
pub mod frame;
pub mod text;
pub mod marker;
pub mod classify;
pub mod listing;
pub mod numbering;
pub mod batch;
pub mod sweep;
pub mod run;
