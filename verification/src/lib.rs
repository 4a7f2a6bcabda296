//! A schema compiler: it takes a description of enumerations and record
//! types with their properties, nullability and constraints, and renders
//! them as source text of a target language, with the checks of the
//! constraints written out.
//!
//! The `udl` modules hold the model of a document and the services that
//! every backend shares; `dart` and `rust` are the backends. What each
//! function returns is stated over sequences of characters and proved.
pub mod casing;
pub mod dart;
pub mod number;
pub mod rust;
pub mod text;
pub mod udl;
