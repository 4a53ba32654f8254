//! Skeletal animation: the pose of a skeleton of bones, slots and skins at
//! any point in time, sampled from the keyframe timelines of an animation.
//!
//! A skeleton is built from a [`json::Document`], which holds what a skeleton
//! file holds. A [`skeleton::animation::SkinAnimation`] binds a skeleton to one
//! of its skins and one of its animations, and gives for any time the sprites
//! to draw: each an attachment with its colour and its place in the world.
//!
//! All numbers are fixed-point numbers, [`fixed::Fixed`]: the library holds
//! no floating-point number, and every result is the same on every machine.
pub mod fixed;
pub mod hex;
pub mod json;
pub mod skeleton;
mod text;
