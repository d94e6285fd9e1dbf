pub mod instance;
pub mod pipeline;
