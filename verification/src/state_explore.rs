use vstd::prelude::*;

use crate::chunk::ChunkModel;
use crate::chunk::ChunkSource;
use crate::console::Console;
use crate::game::{parse_step, parse_step_spec, UpdateResult};
use crate::game_state::GameState;
use crate::player::Player;
use crate::surface::{
    cell_at, Surface, GAME_AREA_CENTRE_X, GAME_AREA_CENTRE_Y, GAME_AREA_HEIGHT, GAME_AREA_WIDTH,
};
use crate::vector::{clamp, clamp_spec, Vector2D};
use crate::world::{chunk_coord, load_missing, window_positions, world_rendered_cell, world_tile,
    World};

verus! {

/// Whether a tile symbol may be entered: the fixed open-tile set. Every
/// other symbol, the blank sentinel included, blocks movement.
pub open spec fn is_walkable(t: char) -> bool {
    t == '.' || t == ',' || t == '|' || t == '\''
}

/// Whether one step by `mv` from `pos` is possible: the destination must
/// exist on the map (no coordinate overflow) and its tile must be open.
pub open spec fn can_step(cache: Seq<ChunkModel>, pos: Vector2D, mv: Vector2D) -> bool {
    &&& i32::MIN <= pos.x + mv.x <= i32::MAX
    &&& i32::MIN <= pos.y + mv.y <= i32::MAX
    &&& is_walkable(
        world_tile(cache, Vector2D { x: (pos.x + mv.x) as i32, y: (pos.y + mv.y) as i32 }),
    )
}

/// The position after attempting one collision-checked step.
pub open spec fn step_pos(cache: Seq<ChunkModel>, pos: Vector2D, mv: Vector2D) -> Vector2D {
    if can_step(cache, pos, mv) {
        Vector2D { x: (pos.x + mv.x) as i32, y: (pos.y + mv.y) as i32 }
    } else {
        pos
    }
}

/// The position after up to `n` repetitions of the step `mv`, halting at the
/// first blocked repetition.
pub open spec fn walk_n(cache: Seq<ChunkModel>, pos: Vector2D, mv: Vector2D, n: nat) -> Vector2D
    decreases n,
{
    if n == 0 {
        pos
    } else if can_step(cache, pos, mv) {
        walk_n(cache, step_pos(cache, pos, mv), mv, (n - 1) as nat)
    } else {
        pos
    }
}

/// The canonical unit step a direction character maps to; an unrecognized
/// character moves nothing.
pub open spec fn step_char(cache: Seq<ChunkModel>, pos: Vector2D, c: char) -> Vector2D {
    if c == 'w' {
        step_pos(cache, pos, Vector2D { x: 0, y: -1i32 })
    } else if c == 'a' {
        step_pos(cache, pos, Vector2D { x: -1i32, y: 0 })
    } else if c == 's' {
        step_pos(cache, pos, Vector2D { x: 0, y: 1 })
    } else if c == 'd' {
        step_pos(cache, pos, Vector2D { x: 1, y: 0 })
    } else {
        pos
    }
}

/// The position after cycling through a buffer of step characters: a blocked
/// step does not halt the buffer.
pub open spec fn walk_steps(cache: Seq<ChunkModel>, pos: Vector2D, steps: Seq<char>) -> Vector2D
    decreases steps.len(),
{
    if steps.len() == 0 {
        pos
    } else {
        walk_steps(cache, step_char(cache, pos, steps[0]), steps.drop_first())
    }
}

/// The magnitude of an offset: how many unit steps it asks for.
pub open spec fn nabs(x: int) -> nat {
    if x >= 0 {
        x as nat
    } else {
        (-x) as nat
    }
}

/// The unit move vector an offset pair clamps to. A positive y offset means
/// an upward movement intent, so the y component is negated: screen y grows
/// downward.
pub open spec fn move_vector(x_offset: int, y_offset: int) -> Vector2D {
    Vector2D {
        x: clamp_spec(x_offset, -1, 1) as i32,
        y: (-clamp_spec(y_offset, -1, 1)) as i32,
    }
}

/// A world position whose chunk was never loaded yields the blank sentinel,
/// and the sentinel is never in the walkable set: the unloaded world blocks
/// movement.
pub proof fn lemma_void_blocks(cache: Seq<ChunkModel>, wp: Vector2D)
    requires
        crate::chunk::find_chunk(cache, chunk_coord(wp)) is None,
    ensures
        world_tile(cache, wp) == crate::chunk::VOID_TILE,
        !is_walkable(world_tile(cache, wp)),
{
}

/// The position an offset move request walks to: the offset pair clamps to
/// one unit step, repeated up to the x magnitude and then up to the y
/// magnitude, each run halting at its first blocked step.
pub open spec fn offset_walk(
    cache: Seq<ChunkModel>,
    pos: Vector2D,
    x_offset: int,
    y_offset: int,
) -> Vector2D {
    let mv = move_vector(x_offset, y_offset);
    walk_n(cache, walk_n(cache, pos, mv, nabs(x_offset)), mv, nabs(y_offset))
}

/// How one tick changes an exploration state, per recognized input form: a
/// single empty token replays the last step buffer; a single bare token is a
/// step buffer and becomes the new last buffer; `x`/`y` with a magnitude is
/// an offset move; anything else is ignored.
pub open spec fn tick_rel(s0: StateExplore, s1: StateExplore, args: Seq<Seq<char>>) -> bool {
    let cache = s0.world.cache();
    let pos0 = s0.player.position;
    &&& s1.world == s0.world
    &&& if args.len() == 1 && args[0].len() == 0 {
        &&& s1.player.position == walk_steps(cache, pos0, s0.last_move@)
        &&& s1.last_move == s0.last_move
    } else if args.len() == 1 {
        &&& s1.player.position == walk_steps(cache, pos0, args[0])
        &&& s1.last_move@ == args[0]
    } else if args.len() == 2 && args[0] == seq!['x'] {
        &&& s1.player.position == offset_walk(cache, pos0, parse_step_spec(args[1]), 0)
        &&& s1.last_move == s0.last_move
    } else if args.len() == 2 && args[0] == seq!['y'] {
        &&& s1.player.position == offset_walk(cache, pos0, 0, parse_step_spec(args[1]))
        &&& s1.last_move == s0.last_move
    } else {
        &&& s1.player.position == pos0
        &&& s1.last_move == s0.last_move
    }
}

/// What a tick reports: every recognized move form requests a redraw, and
/// everything else asks for no change.
pub open spec fn tick_result_spec(args: Seq<Seq<char>>) -> Option<UpdateResult> {
    if args.len() == 1 || (args.len() == 2 && (args[0] == seq!['x'] || args[0] == seq!['y'])) {
        Some(UpdateResult::Redraw)
    } else {
        None
    }
}

/// The scripted line the exploration state prints on every draw.
pub open spec fn greeting_text() -> Seq<char> {
    "Hello and welcome to the Asciimon centre. Would you like to heal your Asciimon? [y/n]"@
}

/// The exploration state: a player walking a chunked world.
pub struct StateExplore {
    pub player: Player,
    pub world: World,
    pub last_move: String,
}

impl StateExplore {
    pub open spec fn wf(self) -> bool {
        self.world.wf()
    }

    /// A fresh exploration state over the given chunk data source: player at
    /// the origin, nothing cached, no move to repeat.
    pub fn new(source: ChunkSource) -> (s: StateExplore)
        requires
            source.wf(),
        ensures
            s.wf(),
            s.player.position.x == 0,
            s.player.position.y == 0,
            s.world.src() == source@,
            s.world.cache() =~= Seq::<ChunkModel>::empty(),
            s.last_move@ =~= Seq::<char>::empty(),
    {
        StateExplore { player: Player::new(), world: World::new(source), last_move: String::new() }
    }

    /// Attempt one collision-checked step: the player moves exactly when the
    /// destination tile is open, and reports whether it moved.
    pub fn move_player(&mut self, move_amount: Vector2D) -> (moved: bool)
        requires
            old(self).wf(),
        ensures
            final(self).wf(),
            final(self).world == old(self).world,
            final(self).last_move == old(self).last_move,
            moved == can_step(old(self).world.cache(), old(self).player.position, move_amount),
            final(self).player.position == step_pos(
                old(self).world.cache(),
                old(self).player.position,
                move_amount,
            ),
    {
        let x = self.player.position.x.checked_add(move_amount.x);
        let y = self.player.position.y.checked_add(move_amount.y);
        match (x, y) {
            (Some(nx), Some(ny)) => {
                let next_position = Vector2D::new(nx, ny);
                match self.world.get_tile(next_position) {
                    '.' | ',' | '|' | '\'' => {
                        self.player.move_position(move_amount);
                        true
                    },
                    _ => false,
                }
            },
            _ => false,
        }
    }

    /// Attempts to move the player's position by the x/y offsets: the offset
    /// pair clamps to one unit step, repeated up to the x magnitude and then
    /// up to the y magnitude; the first blocked repetition of either run
    /// halts that run.
    pub fn handle_move_player(&mut self, x_offset: i32, y_offset: i32)
        requires
            old(self).wf(),
        ensures
            final(self).wf(),
            final(self).world == old(self).world,
            final(self).last_move == old(self).last_move,
            final(self).player.position == ({
                let cache = old(self).world.cache();
                let mv = move_vector(x_offset as int, y_offset as int);
                walk_n(
                    cache,
                    walk_n(cache, old(self).player.position, mv, nabs(x_offset as int)),
                    mv,
                    nabs(y_offset as int),
                )
            }),
    {
        let x_move = clamp(x_offset, -1, 1);
        let y_move = 0 - clamp(y_offset, -1, 1);
        let mv = Vector2D::new(x_move, y_move);
        let ghost cache = self.world.cache();
        let nx: i64 = if x_offset >= 0 {
            x_offset as i64
        } else {
            -(x_offset as i64)
        };
        let ny: i64 = if y_offset >= 0 {
            y_offset as i64
        } else {
            -(y_offset as i64)
        };
        let ghost target_x = walk_n(cache, self.player.position, mv, nabs(x_offset as int));
        let mut i: i64 = 0;
        let mut blocked = false;
        while i < nx && !blocked
            invariant
                self.wf(),
                0 <= i <= nx,
                nx == nabs(x_offset as int),
                mv == move_vector(x_offset as int, y_offset as int),
                cache == self.world.cache(),
                self.world == old(self).world,
                self.last_move == old(self).last_move,
                target_x == walk_n(cache, old(self).player.position, mv, nabs(x_offset as int)),
                !blocked ==> walk_n(cache, self.player.position, mv, (nx - i) as nat) == target_x,
                blocked ==> self.player.position == target_x,
            decreases nx - i,
        {
            let moved = self.move_player(mv);
            if !moved {
                blocked = true;
            }
            i = i + 1;
        }
        proof {
            assert(self.player.position == target_x);
        }
        let ghost target_y = walk_n(cache, target_x, mv, nabs(y_offset as int));
        let mut j: i64 = 0;
        let mut blocked_y = false;
        while j < ny && !blocked_y
            invariant
                self.wf(),
                0 <= j <= ny,
                ny == nabs(y_offset as int),
                mv == move_vector(x_offset as int, y_offset as int),
                cache == self.world.cache(),
                self.world == old(self).world,
                self.last_move == old(self).last_move,
                target_y == walk_n(cache, target_x, mv, nabs(y_offset as int)),
                !blocked_y ==> walk_n(cache, self.player.position, mv, (ny - j) as nat)
                    == target_y,
                blocked_y ==> self.player.position == target_y,
            decreases ny - j,
        {
            let moved = self.move_player(mv);
            if !moved {
                blocked_y = true;
            }
            j = j + 1;
        }
    }

    /// Cycles through a buffer of move characters one by one and steps the
    /// player: `w`/`a`/`s`/`d` step up, left, down and right; an unrecognized
    /// character is skipped; a blocked step does not halt the buffer.
    pub fn handle_move_player_step(&mut self, steps: &str)
        requires
            old(self).wf(),
        ensures
            final(self).wf(),
            final(self).world == old(self).world,
            final(self).last_move == old(self).last_move,
            final(self).player.position == walk_steps(
                old(self).world.cache(),
                old(self).player.position,
                steps@,
            ),
    {
        let ghost cache = self.world.cache();
        let ghost target = walk_steps(cache, self.player.position, steps@);
        proof {
            assert(steps@.skip(0) =~= steps@);
        }
        let n = steps.unicode_len();
        let mut i: usize = 0;
        while i < n
            invariant
                self.wf(),
                i <= n,
                n == steps@.len(),
                cache == self.world.cache(),
                self.world == old(self).world,
                self.last_move == old(self).last_move,
                walk_steps(cache, self.player.position, steps@.skip(i as int)) == target,
            decreases n - i,
        {
            proof {
                assert(steps@.skip(i as int)[0] == steps@[i as int]);
                assert(steps@.skip(i as int).drop_first() =~= steps@.skip(i + 1));
            }
            let c = steps.get_char(i);
            if c == 'w' {
                self.move_player(Vector2D::new(0, -1));
            } else if c == 'a' {
                self.move_player(Vector2D::new(-1, 0));
            } else if c == 's' {
                self.move_player(Vector2D::new(0, 1));
            } else if c == 'd' {
                self.move_player(Vector2D::new(1, 0));
            }
            i = i + 1;
        }
        proof {
            assert(steps@.skip(n as int) =~= Seq::<char>::empty());
        }
    }
}

impl GameState for StateExplore {
    open spec fn inv(&self) -> bool {
        self.wf()
    }

    fn tick(&mut self, input_args: &Vec<String>, console: &mut Console) -> (r: Option<
        UpdateResult,
    >)
        ensures
            final(self).wf(),
            tick_rel(*old(self), *final(self), input_args@.map_values(|t: String| t@)),
            r == tick_result_spec(input_args@.map_values(|t: String| t@)),
            *final(console) == *old(console),
    {
        let ghost args = input_args@.map_values(|t: String| t@);
        if input_args.len() == 1 {
            let len0 = input_args[0].as_str().unicode_len();
            if len0 == 0 {
                let steps = self.last_move.clone();
                self.handle_move_player_step(steps.as_str());
                Some(UpdateResult::Redraw)
            } else {
                self.handle_move_player_step(input_args[0].as_str());
                self.last_move = input_args[0].clone();
                Some(UpdateResult::Redraw)
            }
        } else if input_args.len() == 2 {
            let len0 = input_args[0].as_str().unicode_len();
            if len0 == 1 && input_args[0].as_str().get_char(0) == 'x' {
                proof {
                    assert(args[0] =~= seq!['x']);
                }
                let step = parse_step(input_args[1].as_str());
                self.handle_move_player(step, 0);
                Some(UpdateResult::Redraw)
            } else if len0 == 1 && input_args[0].as_str().get_char(0) == 'y' {
                proof {
                    assert(args[0] =~= seq!['y']);
                }
                let step = parse_step(input_args[1].as_str());
                self.handle_move_player(0, step);
                Some(UpdateResult::Redraw)
            } else {
                proof {
                    if args[0] == seq!['x'] || args[0] == seq!['y'] {
                        assert(args[0].len() == 1);
                        assert(false);
                    }
                }
                None
            }
        } else {
            None
        }
    }

    /// Draws the world centred on the player, then overlays the player glyph
    /// at the fixed centre of the game region: the world scrolls around the
    /// player, not the reverse.
    fn draw(&mut self, surface: &mut Surface, console: &mut Console)
        ensures
            final(self).wf(),
            final(self).player == old(self).player,
            final(self).last_move == old(self).last_move,
            final(self).world.src() == old(self).world.src(),
            final(self).world.cache() == load_missing(
                old(self).world.cache(),
                old(self).world.src(),
                window_positions(chunk_coord(old(self).player.position)),
            ),
            final(console)@ == old(console)@.push(greeting_text()),
            forall|sx: int, sy: int|
                0 <= sx < old(surface)@.width && 0 <= sy < old(surface)@.height ==> cell_at(
                    final(surface)@,
                    sx,
                    sy,
                ) == (if sx == GAME_AREA_CENTRE_X as int && sy == GAME_AREA_CENTRE_Y as int {
                    '@'
                } else {
                    world_rendered_cell(
                        final(self).world.cache(),
                        chunk_coord(old(self).player.position),
                        old(self).player.position,
                        cell_at(old(surface)@, sx, sy),
                        sx,
                        sy,
                    )
                }),
    {
        console.write(
            "Hello and welcome to the Asciimon centre. Would you like to heal your Asciimon? [y/n]".to_owned(),
        );
        let centre = self.player.position;
        let ghost surf_mid0 = surface@;
        self.world.render(surface, centre);
        let ghost surf_mid = surface@;
        surface.set_cell(
            GAME_AREA_CENTRE_X as usize,
            GAME_AREA_CENTRE_Y as usize,
            '@',
        );
        proof {
            assert forall|sx: int, sy: int|
                0 <= sx < old(surface)@.width && 0 <= sy < old(surface)@.height implies cell_at(
                surface@,
                sx,
                sy,
            ) == (if sx == GAME_AREA_CENTRE_X as int && sy == GAME_AREA_CENTRE_Y as int {
                '@'
            } else {
                world_rendered_cell(
                    self.world.cache(),
                    chunk_coord(old(self).player.position),
                    old(self).player.position,
                    cell_at(old(surface)@, sx, sy),
                    sx,
                    sy,
                )
            }) by {
                if !(sx == GAME_AREA_CENTRE_X as int && sy == GAME_AREA_CENTRE_Y as int) {
                    assert(cell_at(surface@, sx, sy) == cell_at(surf_mid, sx, sy));
                }
            }
        }
    }
}

} // verus!
