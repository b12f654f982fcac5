//! The identifiers of the built-in resources and object kinds, and how a
//! uniformly drawn number selects one of each.

use vstd::prelude::*;

verus! {

/// A built-in mesh.
#[derive(Debug, Clone, Copy, PartialEq, Eq, Hash, Structural)]
pub enum MeshID {
    Triangle,
    Quad,
    Cube,
}

impl MeshID {
    /// The mesh a uniform draw from `0..3` selects; out-of-range draws fall
    /// back to the last variant.
    pub fn from_index(r: u32) -> (m: MeshID)
        ensures
            m == if r == 0 {
                MeshID::Triangle
            } else if r == 1 {
                MeshID::Quad
            } else {
                MeshID::Cube
            },
    {
        match r {
            0 => MeshID::Triangle,
            1 => MeshID::Quad,
            _ => MeshID::Cube,
        }
    }
}

/// A built-in behaviour kind for world objects.
#[derive(Debug, Clone, Copy, PartialEq, Eq, Hash, Structural)]
pub enum SystemID {
    Rotation,
}

impl SystemID {
    /// The kind any uniform draw selects: there is only one.
    pub fn from_index(r: u32) -> (m: SystemID)
        ensures
            m == SystemID::Rotation,
    {
        let _ = r;
        SystemID::Rotation
    }
}

/// A built-in shader.
#[derive(Debug, Clone, Copy, PartialEq, Eq, Hash, Structural)]
pub enum ShaderID {
    Default,
}

impl ShaderID {
    /// The shader any uniform draw selects: there is only one.
    pub fn from_index(r: u32) -> (m: ShaderID)
        ensures
            m == ShaderID::Default,
    {
        let _ = r;
        ShaderID::Default
    }
}

} // verus!
