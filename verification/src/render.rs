//! Plain records for the host renderer's GPU-side objects.
//!
//! The collision engine never reads these; they are the data half of the
//! drawing layer — object and buffer handles that the host's GPU code
//! fills in and owns.  They are kept as bare records here so the shapes
//! and their renderers can travel together.

use vstd::prelude::*;

verus! {

/// A scroll-wheel event direction.
#[derive(PartialEq, Clone, Copy, Debug)]
pub enum MouseScroll {
    Up,
    Down,
    Left,
    Right,
}

/// A shader program handle and its bound-texture counter.
#[derive(Clone, Copy, Debug)]
pub struct Shader {
    pub id: u32,
    pub cnt: u32,
}

impl Shader {
    /// An empty shader slot: no program, no textures bound.
    pub fn new() -> (r: Shader)
        ensures
            r.id == 0,
            r.cnt == 0,
    {
        Shader { id: 0, cnt: 0 }
    }
}

/// Buffers for batched line drawing.
#[derive(Clone, Copy, Debug)]
pub struct LineRenderer {
    pub vao: u32,
    pub ivbo: u32,
    pub shader: u32,
}

/// Buffers for drawing direction arrows.
#[derive(Clone, Copy, Debug)]
pub struct VectorRenderer {
    pub vao: u32,
    pub ivbo: u32,
    pub indices_len: i32,
    pub shader: u32,
}

/// Buffers for instanced box drawing.
#[derive(Clone, Copy, Debug)]
pub struct RectangleRenderer {
    pub vao: u32,
    pub ivbo: u32,
    pub indices_len: i32,
    pub shader: u32,
}

/// Buffers for instanced sphere drawing.
#[derive(Clone, Copy, Debug)]
pub struct SphereRenderer {
    pub vao: u32,
    pub ivbo: u32,
    pub indices_len: i32,
    pub shader: u32,
}

/// The sky cubemap's program, texture and quad buffers.
#[derive(Clone, Copy, Debug)]
pub struct Skybox {
    pub shader_id: u32,
    pub texture_id: u32,
    pub vao: u32,
    pub vbo: u32,
}

/// Buffers of the gravitational-lensing background effect.
#[derive(Clone, Copy, Debug)]
pub struct BlackHole {
    pub vao: u32,
    pub indices_len: i32,
    pub ssbo: u32,
    pub shader_id: u32,
    pub texture_id_1: u32,
    pub texture_id_2: u32,
}

} // verus!
