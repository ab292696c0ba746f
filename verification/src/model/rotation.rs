use vstd::prelude::*;

verus! {

/// A quarter-turn rotation, counted clockwise.
#[derive(Copy, Clone, Debug, Eq, PartialEq, Structural)]
pub enum Rotation {
    By0,
    By90,
    By180,
    By270,
}

/// The error returned when a wire byte does not denote a rotation.
#[derive(Debug, Copy, Clone, Eq, PartialEq, Structural)]
pub struct RotationInvalidError {
    pub code: u8,
}

impl Rotation {
    /// The wire code of this rotation.
    pub open spec fn spec_code(self) -> u8 {
        match self {
            Rotation::By0 => 0,
            Rotation::By90 => 1,
            Rotation::By180 => 2,
            Rotation::By270 => 3,
        }
    }

    pub fn to_code(self) -> (c: u8)
        ensures
            c == self.spec_code(),
    {
        match self {
            Rotation::By0 => 0,
            Rotation::By90 => 1,
            Rotation::By180 => 2,
            Rotation::By270 => 3,
        }
    }

    /// The rotation a wire code in `{0, 1, 2, 3}` denotes; other bytes have
    /// no meaning and map arbitrarily to the zero turn.
    pub open spec fn spec_of_code(code: u8) -> Rotation {
        if code == 1 {
            Rotation::By90
        } else if code == 2 {
            Rotation::By180
        } else if code == 3 {
            Rotation::By270
        } else {
            Rotation::By0
        }
    }

    /// Reads a rotation back from its wire code; every byte above 3 is
    /// rejected.
    pub fn from_code(code: u8) -> (r: Result<Rotation, RotationInvalidError>)
        ensures
            match r {
                Ok(rot) => code <= 3 && rot.spec_code() == code && rot
                    == Rotation::spec_of_code(code),
                Err(e) => code > 3 && e == (RotationInvalidError { code }),
            },
    {
        match code {
            0 => Ok(Rotation::By0),
            1 => Ok(Rotation::By90),
            2 => Ok(Rotation::By180),
            3 => Ok(Rotation::By270),
            _ => Err(RotationInvalidError { code }),
        }
    }
}

/// The wire encoding of rotations is a bijection between the four rotations
/// and the bytes `{0, 1, 2, 3}`: codes stay in that set, and distinct
/// rotations have distinct codes.  Together with the contract of
/// [`Rotation::from_code`], which recovers the unique rotation of every byte
/// in the set and rejects every other byte, the two maps are inverse to each
/// other.
pub proof fn lemma_rotation_code_bijective(a: Rotation, b: Rotation)
    ensures
        a.spec_code() <= 3,
        a.spec_code() == b.spec_code() ==> a == b,
{
}

} // verus!
