pub mod array;
pub mod audio;
pub mod commands;
pub mod order;
pub mod pacing;
pub mod sorts;
