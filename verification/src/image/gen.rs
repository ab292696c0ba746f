pub mod gen_circle;
pub mod gen_square;

pub use gen_circle::GenCircle;
pub use gen_square::GenSquare;
