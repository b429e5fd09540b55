use vstd::prelude::*;

use crate::animated::Animated;
use crate::game_object::game_object_area::GameObjectAreaImpl;
use crate::sprite::Sprite;

verus! {

/// A positioned object whose shape is a timer-driven animation sequence.
pub type GameObjectAnimated = GameObjectAreaImpl<Animated>;

/// A positioned object whose shape is one static sprite.
pub type GameObjectStatic = GameObjectAreaImpl<Sprite>;

} // verus!
