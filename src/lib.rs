//! The verified core of a spectral Monte-Carlo ray tracer: per-pixel
//! accumulation with lazy clearing and merging, the depth-capped bounce loop,
//! nearest-hit selection, the checkpoint record, the image header, and the
//! session commands.
pub mod buffer;
pub mod checkpoint;
pub mod command;
pub mod image;
pub mod path;
pub mod scene;
pub mod wave;
