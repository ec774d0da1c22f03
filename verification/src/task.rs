pub mod offload;
