//! Search, ordering and grouping of the command palette's rows.

pub mod filter;
pub mod groups;
pub mod items;
pub mod modal;
