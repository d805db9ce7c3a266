pub mod consts;
pub mod context;
pub mod fs;
pub mod init;
pub mod interrupt;
pub mod io;
pub mod memory;
pub mod process;
pub mod sync;
pub mod syscall;
pub mod timer;
