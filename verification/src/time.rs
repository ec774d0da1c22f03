pub mod timeout;
