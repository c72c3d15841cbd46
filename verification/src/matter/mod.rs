//! Matter kinds, their capabilities and their reaction rules.
pub mod example_matter_definitions;
pub mod matter_definition;
pub mod matter_state;
