use vstd::prelude::*;

use crate::vector::Vector2D;

verus! {

/// The player's world position; mutated only by movement requests that pass
/// the walkability check.
pub struct Player {
    pub position: Vector2D,
}

impl Player {
    /// A player at the world origin.
    pub fn new() -> (p: Player)
        ensures
            p.position.x == 0,
            p.position.y == 0,
    {
        Player { position: Vector2D::new(0, 0) }
    }

    /// Shift the position by `amount`.
    pub fn move_position(&mut self, amount: Vector2D)
        requires
            i32::MIN <= old(self).position.x + amount.x <= i32::MAX,
            i32::MIN <= old(self).position.y + amount.y <= i32::MAX,
        ensures
            final(self).position.x == old(self).position.x + amount.x,
            final(self).position.y == old(self).position.y + amount.y,
    {
        self.position = self.position.plus(amount);
    }
}

} // verus!
