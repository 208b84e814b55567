pub mod analysis;
pub mod error;
pub mod files;
pub mod hash;
pub mod markdown;
pub mod parser;
pub mod text;
