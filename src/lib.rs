pub mod arraydeque;
pub mod arrayqueue;
pub mod arraystack;
pub mod list;
pub mod ring;
pub mod sllist;
