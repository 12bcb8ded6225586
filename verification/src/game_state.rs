use vstd::prelude::*;

use crate::console::Console;
use crate::game::UpdateResult;
use crate::surface::{Surface, GAME_AREA_HEIGHT, GAME_AREA_WIDTH};

verus! {

/// The per-state contract of the pushdown machine: only the top state
/// receives input ticks and draw calls; states below keep their data
/// untouched until they resurface.
pub trait GameState {
    /// The state's internal invariant, preserved by every call.
    spec fn inv(&self) -> bool;

    /// Handle one turn's pre-tokenized input arguments and report what the
    /// loop should do next; `None` asks for no change.
    fn tick(&mut self, input_args: &Vec<String>, console: &mut Console) -> (r: Option<
        UpdateResult,
    >)
        requires
            old(self).inv(),
        ensures
            final(self).inv(),
    ;

    /// Draw the state into the game region of the surface.
    fn draw(&mut self, surface: &mut Surface, console: &mut Console)
        requires
            old(self).inv(),
            old(surface)@.wf(),
            old(surface)@.width == GAME_AREA_WIDTH as int,
            old(surface)@.height == GAME_AREA_HEIGHT as int,
        ensures
            final(self).inv(),
            final(surface)@.wf(),
            final(surface)@.width == old(surface)@.width,
            final(surface)@.height == old(surface)@.height,
    ;
}

} // verus!
