pub mod laws;
pub mod process_table;
pub mod scheduler;
pub mod slots;
pub mod system;
pub mod thread_queue;
pub mod types;
