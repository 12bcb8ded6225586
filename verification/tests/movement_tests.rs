use asciimon::chunk::{Chunk, ChunkSource, CHUNK_AREA, CHUNK_WIDTH};
use asciimon::state_explore::StateExplore;
use asciimon::surface::Surface;
use asciimon::vector::Vector2D;

fn open_tiles() -> Vec<char> {
    vec!['.'; CHUNK_AREA]
}

/// A source whose chunks (0, 0) and (0, -1) are fully open ground, so the
/// player can roam around the origin.
fn open_source() -> ChunkSource {
    let mut source = ChunkSource::new();
    source.add_chunk(Chunk::new(Vector2D::new(0, 0), open_tiles(), Vec::new()));
    source.add_chunk(Chunk::new(Vector2D::new(0, -1), open_tiles(), Vec::new()));
    source
}

fn loaded_state(source: ChunkSource) -> StateExplore {
    let mut state = StateExplore::new(source);
    let mut surface = Surface::new(81, 45, ' ');
    state.world.render(&mut surface, Vector2D::new(0, 0));
    state
}

#[test]
fn offset_move_walks_the_full_corridor() {
    let mut state = loaded_state(open_source());
    state.handle_move_player(3, 0);
    assert_eq!(state.player.position, Vector2D::new(3, 0));
}

#[test]
fn offset_move_halts_at_the_first_blocked_tile() {
    let mut tiles = open_tiles();
    tiles[(0 * CHUNK_WIDTH + 2) as usize] = '#';
    let mut source = ChunkSource::new();
    source.add_chunk(Chunk::new(Vector2D::new(0, 0), tiles, Vec::new()));
    let mut state = loaded_state(source);
    state.handle_move_player(3, 0);
    assert_eq!(state.player.position, Vector2D::new(1, 0));
}

#[test]
fn offset_move_y_is_inverted() {
    let mut state = loaded_state(open_source());
    // A positive y offset is upward movement intent: screen y decreases.
    state.handle_move_player(0, 2);
    assert_eq!(state.player.position, Vector2D::new(0, -2));
}

#[test]
fn step_buffer_net_displacement() {
    let mut state = loaded_state(open_source());
    state.handle_move_player_step("wwwssdd");
    // 3 up, 2 down, 2 right: net 2 right and 1 up.
    assert_eq!(state.player.position, Vector2D::new(2, -1));
}

#[test]
fn step_buffer_skips_unrecognized_characters() {
    let mut state = loaded_state(open_source());
    state.handle_move_player_step("wzwqw!s?sXdd");
    assert_eq!(state.player.position, Vector2D::new(2, -1));
}

#[test]
fn step_buffer_continues_after_a_blocked_step() {
    let mut tiles = open_tiles();
    // Block the tile to the right of the origin; downward and further moves
    // stay open.
    tiles[(0 * CHUNK_WIDTH + 1) as usize] = '#';
    let mut source = ChunkSource::new();
    source.add_chunk(Chunk::new(Vector2D::new(0, 0), tiles, Vec::new()));
    let mut state = loaded_state(source);
    state.handle_move_player_step("dsd");
    // 'd' is blocked, 's' moves down, the second 'd' then succeeds.
    assert_eq!(state.player.position, Vector2D::new(1, 1));
}

#[test]
fn blocked_moves_leave_the_player_in_place() {
    // Nothing is loaded: every destination is the void sentinel and blocks.
    let mut state = StateExplore::new(ChunkSource::new());
    state.handle_move_player(5, 0);
    state.handle_move_player_step("wasd");
    assert_eq!(state.player.position, Vector2D::new(0, 0));
}

#[test]
fn walkable_set_is_exact() {
    let symbols = ['.', ',', '|', '\''];
    for (i, s) in symbols.iter().enumerate() {
        let mut tiles = open_tiles();
        tiles[(0 * CHUNK_WIDTH + 1) as usize] = *s;
        let mut source = ChunkSource::new();
        source.add_chunk(Chunk::new(Vector2D::new(0, 0), tiles, Vec::new()));
        let mut state = loaded_state(source);
        state.handle_move_player(1, 0);
        assert_eq!(state.player.position, Vector2D::new(1, 0), "symbol {}", i);
    }
    for s in ['#', ' ', '1', '@', '~'] {
        let mut tiles = open_tiles();
        tiles[(0 * CHUNK_WIDTH + 1) as usize] = s;
        let mut source = ChunkSource::new();
        source.add_chunk(Chunk::new(Vector2D::new(0, 0), tiles, Vec::new()));
        let mut state = loaded_state(source);
        state.handle_move_player(1, 0);
        assert_eq!(state.player.position, Vector2D::new(0, 0));
    }
}
