pub mod classify;
pub mod connection;
pub mod rules;
pub mod scheduler;
pub mod speed;
pub mod task;
pub mod writer;
