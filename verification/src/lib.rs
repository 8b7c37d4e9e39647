pub mod config;
pub mod sorting_array;
pub mod tools;
