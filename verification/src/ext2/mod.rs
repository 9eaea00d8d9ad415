pub mod cache;
pub mod device;
pub mod dir;
pub mod fs;
pub mod ondisk;
