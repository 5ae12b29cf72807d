pub mod error;
pub mod ir;
pub mod manifest;
pub mod validation;
