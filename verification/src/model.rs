pub mod block;
pub mod compressed;
pub mod rotation;
pub mod transformation;

pub use block::Block;
pub use compressed::Compressed;
pub use rotation::Rotation;
pub use rotation::RotationInvalidError;
pub use transformation::Saturation;
pub use transformation::Transformation;
