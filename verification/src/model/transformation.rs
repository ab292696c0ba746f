use vstd::prelude::*;

use crate::model::Block;
use crate::model::Rotation;

verus! {

/// The contraction factor of a transformation, held as the raw bit pattern
/// of an IEEE 754 binary64 value.  The codec never computes with the value;
/// it only stores, compares and transports the bits, so the bit pattern is
/// the exact representation.
#[derive(Debug, Copy, Clone, PartialEq, Eq, Structural)]
pub struct Saturation {
    pub bits: u64,
}

impl Saturation {
    /// Whether the encoded value has magnitude at most one.
    ///
    /// For IEEE 754 binary64, ordering non-negative finite values agrees with
    /// ordering their bit patterns, so `|v| <= 1.0` holds exactly of the
    /// patterns whose magnitude bits are at most those of `1.0`; the patterns
    /// of NaNs and infinities lie above and are excluded.
    pub open spec fn spec_is_contractive(&self) -> bool {
        (self.bits & 0x7fff_ffff_ffff_ffff) <= 0x3ff0_0000_0000_0000
    }

    pub fn is_contractive(&self) -> (r: bool)
        ensures
            r == self.spec_is_contractive(),
    {
        (self.bits & 0x7fff_ffff_ffff_ffff) <= 0x3ff0_0000_0000_0000
    }
}

/// One affine map of the model: the pixels of the downscaled and rotated
/// `domain` block, scaled by `saturation` and shifted by `brightness`,
/// approximate the pixels of the `range` block.
#[derive(Debug, Copy, Clone, PartialEq, Eq, Structural)]
pub struct Transformation {
    pub range: Block,
    pub domain: Block,
    pub rotation: Rotation,
    pub brightness: i16,
    pub saturation: Saturation,
}

impl Transformation {
    /// The quadtree invariant: a domain block spans twice the side of its
    /// range block.
    pub open spec fn spec_sizes_consistent(&self) -> bool {
        self.domain.block_size == 2 * self.range.block_size
    }

    /// Whether both blocks lie inside an image of the given size and the
    /// quadtree invariant holds: what a decoder needs of a transformation.
    pub open spec fn spec_fits_image(&self, size: crate::image::Size) -> bool {
        &&& self.range.spec_fits(size.width, size.height)
        &&& self.domain.spec_fits(size.width, size.height)
        &&& self.spec_sizes_consistent()
    }

    /// Builds a transformation, admitting it only when the map is
    /// contractive (`|saturation| <= 1`) and the block sizes satisfy the
    /// quadtree invariant.  Every transformation the encoder emits is built
    /// here, so every emitted transformation is contractive.
    pub fn checked(
        range: Block,
        domain: Block,
        rotation: Rotation,
        brightness: i16,
        saturation: Saturation,
    ) -> (r: Option<Transformation>)
        ensures
            match r {
                Some(t) => saturation.spec_is_contractive() && t == (Transformation {
                    range,
                    domain,
                    rotation,
                    brightness,
                    saturation,
                }) && t.spec_sizes_consistent() && t.saturation.spec_is_contractive(),
                None => !saturation.spec_is_contractive() || domain.block_size != 2
                    * range.block_size,
            },
    {
        if saturation.is_contractive() && range.block_size <= 0x7fff_ffff
            && domain.block_size == 2 * range.block_size {
            Some(Transformation { range, domain, rotation, brightness, saturation })
        } else {
            None
        }
    }
}

} // verus!
