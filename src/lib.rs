pub mod check;
pub mod infer;
pub mod log;
pub mod mark;
pub mod render;
pub mod time;
pub mod window;
