pub mod context;
pub mod memory;
pub mod change_loop;
