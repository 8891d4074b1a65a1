//! The items that are defined or visible in a scope. Modules and blocks have one.

pub mod imports;
pub mod names;
pub mod keys;
pub mod derives;
pub mod scope;
pub mod push;
pub mod taking;
pub mod shrink;
pub mod update;
pub mod censor;
pub mod query;
pub mod listing;
pub mod resolve;
pub mod ways;
pub mod calls;
pub mod dump;
pub mod showing;
pub mod printed;
pub mod keeping;
pub mod builtin;
