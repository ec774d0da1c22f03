pub mod bounded_channel;

pub use bounded_channel::BoundedReceiver;
