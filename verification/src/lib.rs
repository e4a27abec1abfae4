pub mod atomic;
pub mod kalloc;
pub mod kmalloc;
pub mod mutex;
pub mod sync;
pub mod kbox;
pub mod io;
pub mod sys;
pub mod boot;
