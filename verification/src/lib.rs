pub mod addr;
pub mod auth;
pub mod buffer;
pub mod bytestr;
pub mod frame;
pub mod padding;
pub mod perf;
pub mod pool;
pub mod session;
pub mod settings;
pub mod shaping;
pub mod stream;
