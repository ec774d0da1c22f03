pub mod executor;
pub mod main_attr;
pub mod pool;
pub mod reactor;
pub mod runtime;
pub mod spawner;
pub mod sync;
pub mod task;
pub mod time;
pub mod utils;
