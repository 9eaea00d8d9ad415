//! Core of a small x86_64 operating system: the task model and scheduler,
//! file systems, and the rules of its system services.

pub mod boot;
pub mod bytes;
pub mod capability;
pub mod disk;
pub mod ext2;
pub mod fs_server;
pub mod fs_service;
pub mod gate;
pub mod initfs;
pub mod manifest;
pub mod ramfs;
pub mod task;
pub mod text;
pub mod ui;
pub mod user;
pub mod vfs;
pub mod vga;
