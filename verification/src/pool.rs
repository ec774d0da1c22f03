pub mod thread_pool;
