use vstd::prelude::*;
use crate::obj::model::Face;

verus! {

/// One animation keyframe: the faces read from one topology source, in
/// source order, referencing the shared geometry pools by global index.
#[derive(Debug, Clone)]
pub struct Frame {
    pub faces: Vec<Face>,
}

} // verus!
