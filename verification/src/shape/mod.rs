pub mod aabb;

pub use aabb::AABB;
