pub mod deposit;
pub mod error;
pub mod fetcher;
mod outside;
pub mod task;
