pub mod id;
pub mod record;
pub mod session;
pub mod status;
pub mod store;
pub mod task;
pub mod text;
pub mod timestamp;
pub mod wrap;
