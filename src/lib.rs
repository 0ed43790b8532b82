pub mod codec;
pub mod store;
pub mod task;
pub mod text;
