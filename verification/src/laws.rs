//! What the operations are for, stated over what goes in and what comes out.

pub mod cancelling;
pub mod commands;
pub mod reading;
pub mod scheduling;
pub mod showing;
pub mod submitting;
pub mod summaries;
pub mod tables;
pub mod texts;
