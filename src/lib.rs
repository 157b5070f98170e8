//! Interleaved vertex buffers, index buffers and a per-target binding cache
//! for a graphics pipeline.
//!
//! The library decides what has to reach the graphics driver: which handle to
//! bind, and which packed data to upload. The driver calls themselves are made
//! by the caller from the values handed back here.
pub mod binding;
pub mod buffer;
pub mod layout;
pub mod mesh;

pub use binding::{BindingCache, Target};
pub use buffer::{Att, ElementBuffer, Error, Upload, VertexBuffer, NO_BUFFER};
pub use mesh::{AttributeData, StaticMesh};
