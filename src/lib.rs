//! Geometric core of a ray tracer, computed exactly on an integer grid.
//!
//! Points and vectors have `i64` coordinates; ray parameters and times are
//! integers. Intersections decide exactly whether a real root of the
//! intersection equation lies in the queried range, and report that root
//! rounded down. Materials are supplied by the caller through `Materials`,
//! looked up by the handle that primitives and hit records carry.
pub mod aabb;
pub mod color;
pub mod diffuse;
pub mod hit;
pub mod intersect;
pub mod ray;
pub mod roots;
pub mod shapes;
pub mod vec3;
pub mod world;
