//! A batch path tracer over exact fixed-point arithmetic.
//!
//! Scene geometry, the bounding-volume hierarchy, materials, the recursive
//! integrator and the pixel scheduler are all verified; decoding and encoding
//! of image files and the thread pool live outside the library.

pub mod camera;
pub mod fx;
pub mod geometry;
pub mod mat4;
pub mod material;
pub mod optimize;
pub mod ray;
pub mod render;
pub mod rng;
pub mod scene;
pub mod schedule;
pub mod sprite;
pub mod util;
pub mod vec3;
pub mod vec4;
pub mod volume;

pub use fx::Fx;
pub use vec3::Vec3;
