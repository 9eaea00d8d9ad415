pub mod client;
pub mod db;
pub mod policy;
pub mod protocol;
pub mod registry;
pub mod service;
