pub mod steps;
pub mod selector;
pub mod script;
pub mod reporting;
pub mod engine;
