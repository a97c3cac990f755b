//! The mesh that every body of the scene is drawn from.

use crate::vertex::Vertex;
use vstd::prelude::*;

verus! {

/// The vertices of the sphere model, taken out of what loading it gave.
/// Whoever loads the model hands the outcome in; a model that could not be
/// loaded is not taken.
pub fn load_sphere_model(loaded: Option<Vec<Vertex>>) -> (vertices: Vec<Vertex>)
    requires
        loaded is Some,
    ensures
        Some(vertices) == loaded,
{
    loaded.unwrap()
}

} // verus!
