//! A tile-based software rasterizer's integer core: images and views over
//! pixel buffers, depth testing, render passes that bin triangles to screen
//! tiles, and edge-function rasterization with the top-left fill rule.

pub mod clip;
pub mod image;
pub mod pipeline;
pub mod rasterize;
pub mod sampler;
pub mod terrain;
pub mod uniform;
pub mod uniforms;
pub mod util;
pub mod vector;

pub use image::view::{Image2dView, Image2dViewMut, ImageView, ImageViewMut};
pub use image::{Image, Image2d, ImageLoadError};
pub use pipeline::depth_state::{DepthState, DepthTest};
pub use pipeline::render_pass::RenderPass;
pub use pipeline::tile::TileMut;
pub use rasterize::CullMode;
pub use sampler::{FilterMode, Sampler2d};
pub use uniform::{unit_type_buf, Uniform, Uniforms};
pub use util::chunked_vec::ChunkedVec;
pub use vector::{vec2, IVec2};
