pub mod ring_buffer;
