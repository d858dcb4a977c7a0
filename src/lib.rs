pub mod engine;
pub mod handle;
pub mod sequential;
pub mod value;
