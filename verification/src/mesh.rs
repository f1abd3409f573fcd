//! Triangle meshes.
use vstd::prelude::*;

verus! {

/// A triangle mesh, indexed, whose coordinates are of type `T`.
///
/// `normals`, `uvs` and `colors` are either empty or as long as `positions`.
#[derive(Debug)]
pub struct Mesh<T> {
    pub positions: Vec<[T; 3]>,
    pub normals: Vec<[T; 3]>,
    pub uvs: Vec<[T; 2]>,
    pub colors: Vec<[T; 3]>,
    pub indices: Vec<[u32; 3]>,
}

/// The corners of a face.
pub open spec fn corners_of<T>(mesh: Mesh<T>, f: int) -> [[T; 3]; 3] {
    [
        mesh.positions@[mesh.indices@[f][0] as int],
        mesh.positions@[mesh.indices@[f][1] as int],
        mesh.positions@[mesh.indices@[f][2] as int],
    ]
}

impl<T> Mesh<T> {
    /// A mesh of nothing.
    pub fn empty() -> (mesh: Mesh<T>)
        ensures
            mesh.positions@.len() == 0,
            mesh.normals@.len() == 0,
            mesh.uvs@.len() == 0,
            mesh.colors@.len() == 0,
            mesh.indices@.len() == 0,
    {
        Mesh {
            positions: Vec::new(),
            normals: Vec::new(),
            uvs: Vec::new(),
            colors: Vec::new(),
            indices: Vec::new(),
        }
    }
}

impl<T: Copy> Mesh<T> {
    /// The three corners of a face.
    pub fn triangle(&self, face: usize) -> (corners: [[T; 3]; 3])
        requires
            face < self.indices@.len(),
            self.indices@[face as int][0] < self.positions@.len(),
            self.indices@[face as int][1] < self.positions@.len(),
            self.indices@[face as int][2] < self.positions@.len(),
        ensures
            corners == corners_of(*self, face as int),
    {
        let named = self.indices[face];
        let corners = [
            self.positions[named[0] as usize],
            self.positions[named[1] as usize],
            self.positions[named[2] as usize],
        ];
        assert(corners =~= corners_of(*self, face as int));
        corners
    }
}

} // verus!
