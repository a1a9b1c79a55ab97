pub mod error;
pub mod text;
pub mod weights;
pub mod template;
pub mod context;
pub mod plan;
pub mod palette;
pub mod scheme;
pub mod generator;
