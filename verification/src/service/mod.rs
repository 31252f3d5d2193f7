//! The result model shared by every engine, and the report made of it: read
//! by the places of the chunks where they fit the text, plainly where they
//! do not.

pub mod data_types;
pub mod report;
pub mod plain;
