//! A real-time rendering engine core: GPU resource lifecycle management,
//! swapchain creation and recreation, command-buffer recording for indexed
//! draws, and the frame-presentation synchronization protocol.
//!
//! Driver handles are modeled by an explicit ledger ([`driver::Driver`]) that
//! accounts for every handle the driver has issued and records every call in
//! order, so that destroy-order dependencies, leak-freedom, use-after-destroy
//! freedom and the frame synchronization protocol are verified facts about
//! the engine's logic. The ordered trace gives an unverified platform layer
//! the exact calls to issue against a real graphics API.

pub mod buffer;
pub mod device;
pub mod driver;
pub mod engine;
pub mod handles;
pub mod material;
pub mod pipeline_layout;
pub mod render_object;
pub mod sampler;
pub mod scene;
pub mod swapchain;
