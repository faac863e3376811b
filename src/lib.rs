//! Core of a desktop browser for the Arch User Repository: package records,
//! the four result orderings, bookmarks, the fetch state machine that keeps
//! only the newest response, the install cool-down, and request addresses.

pub mod package;
pub mod sorting;
pub mod results;
pub mod fetch;
pub mod install;
pub mod request;
