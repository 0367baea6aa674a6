//! What the operations of the agent are for: relations between their inputs and
//! their results.

pub mod delivery;
pub mod documents;
pub mod queries;
pub mod rows;
pub mod settings;
pub mod words;
