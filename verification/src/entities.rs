pub mod entity;
pub mod key_manager;
