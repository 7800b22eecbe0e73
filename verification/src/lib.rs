//! A source-code scanner that scores lines for generated-code signals.

pub mod text;
pub mod syntax;
pub mod scaffold;
pub mod stats;
pub mod source;
pub mod profile;
pub mod table;
pub mod template;
pub mod order;
pub mod analysis;
pub mod args;
pub mod paths;
pub mod report;
pub mod kinds;
pub mod laws;
