pub mod mpsc;
