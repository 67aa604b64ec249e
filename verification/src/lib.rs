//! Finds the newest published version of each artifact in a Maven repository
//! index, at or above a requested release channel.

pub mod channel;
pub mod exclusions;
pub mod package;
pub mod parse;
pub mod report;
pub mod resolver;
pub mod search;
pub mod stability;
pub mod text;
pub mod version;
pub mod xml;
