pub mod device;
pub mod stdio;
