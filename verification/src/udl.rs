//! The model of a document and what every backend shares.
pub mod class;
pub mod document;
pub mod enums;
pub mod generator;
pub mod utils;
pub mod validate;

pub use document::UDL;
pub use generator::LangGenerator;
