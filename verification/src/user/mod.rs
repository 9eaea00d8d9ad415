pub mod calls;
pub mod fs_client;
