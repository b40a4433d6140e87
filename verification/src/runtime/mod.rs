//! Model metadata, loading and inference plans.

pub mod archive;
pub mod assembly;
pub mod blend;
pub mod blending;
pub mod brumby;
pub mod bundle;
pub mod convert;
pub mod described;
pub mod dispatch;
pub mod info;
pub mod job;
pub mod layout;
pub mod loader;
pub mod lora;
pub mod meaning;
pub mod model;
pub mod naming;
pub mod placing;
pub mod plain;
pub mod reader;
pub mod state;
