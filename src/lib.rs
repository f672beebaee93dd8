pub mod frame;
pub mod listener;
pub mod note;
pub mod server;
