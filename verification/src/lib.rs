pub mod position;
pub mod point_set;
pub mod braille;
pub mod canvas;
pub mod sprite;
pub mod braille_canvas;
pub mod timer;
pub mod animated;
pub mod animation_builder;
pub mod direction;
pub mod game_object;
pub mod obstacle;
pub mod shot;
pub mod tank;

pub use position::IndexType;
pub use position::Point;
