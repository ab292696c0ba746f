use vstd::prelude::*;

use crate::image::Size;
use crate::model::Transformation;

verus! {

/// A compressed image: the size of the original and the affine maps that
/// reconstruct it.
#[derive(Debug, Clone)]
pub struct Compressed {
    /// The size of the compressed image.
    pub size: Size,
    /// All transformations needed to reconstruct the image.
    pub transformations: Vec<Transformation>,
}

} // verus!
