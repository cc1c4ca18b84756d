pub mod component_processor;
pub mod helpers;
pub mod parser;
pub mod types;
