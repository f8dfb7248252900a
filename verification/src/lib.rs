//! A small CPU ray tracer over exact fixed-point arithmetic.
//!
//! Scalars are `i64` multiples of `1 / fx::SCALE`, so every geometric and
//! color computation is integer arithmetic with stated rounding, and every
//! function's contract is an exact statement about its result. The pipeline
//! runs from vector algebra and rays through sphere intersection, scene
//! nearest-hit resolution, camera ray generation, per-pixel sampling, and
//! quantized text pixel-map output, with a companion reader and per-pixel
//! image differ.

pub mod fx;
pub mod math;
pub mod vec3;
pub mod ray;
pub mod hittable;
pub mod sphere;
pub mod hittable_list;
pub mod camera;
pub mod raytracer;
pub mod color;
pub mod ppm;
pub mod buffered_image;
