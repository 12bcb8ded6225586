use asciimon::chunk::{Chunk, ChunkSource, Portal, CHUNK_AREA, CHUNK_WIDTH};
use asciimon::surface::Surface;
use asciimon::vector::Vector2D;
use asciimon::world::World;

fn open_chunk(x: i32, y: i32) -> Chunk {
    Chunk::new(Vector2D::new(x, y), vec!['.'; CHUNK_AREA], Vec::new())
}

fn game_surface() -> Surface {
    Surface::new(81, 45, ' ')
}

#[test]
fn chunk_coordinates_use_floor_division() {
    let c = World::world_to_chunk_position(Vector2D::new(-1, -1));
    assert_eq!(c, Vector2D::new(-1, -1));
    let c = World::world_to_chunk_position(Vector2D::new(0, 0));
    assert_eq!(c, Vector2D::new(0, 0));
    let c = World::world_to_chunk_position(Vector2D::new(99, 49));
    assert_eq!(c, Vector2D::new(0, 0));
    let c = World::world_to_chunk_position(Vector2D::new(100, 50));
    assert_eq!(c, Vector2D::new(1, 1));
    let c = World::world_to_chunk_position(Vector2D::new(-100, -50));
    assert_eq!(c, Vector2D::new(-1, -1));
    let c = World::world_to_chunk_position(Vector2D::new(-101, -51));
    assert_eq!(c, Vector2D::new(-2, -2));
}

#[test]
fn render_caches_each_chunk_exactly_once() {
    let mut source = ChunkSource::new();
    source.add_chunk(open_chunk(0, 0));
    let mut world = World::new(source);
    let mut surface = game_surface();
    assert_eq!(world.loaded_chunk_count(), 0);
    world.render(&mut surface, Vector2D::new(0, 0));
    assert_eq!(world.loaded_chunk_count(), 1);
    world.render(&mut surface, Vector2D::new(0, 0));
    world.render(&mut surface, Vector2D::new(3, 2));
    assert_eq!(world.loaded_chunk_count(), 1);
}

#[test]
fn get_tile_on_unloaded_chunk_is_void() {
    let mut source = ChunkSource::new();
    source.add_chunk(open_chunk(0, 0));
    let world = World::new(source);
    // No render has happened: point queries never trigger loads.
    assert_eq!(world.get_tile(Vector2D::new(5, 5)), ' ');
    assert_eq!(world.get_tile(Vector2D::new(-1, 0)), ' ');
}

#[test]
fn get_tile_reads_loaded_chunk_with_true_modulo() {
    let mut tiles = vec!['.'; CHUNK_AREA];
    tiles[(3 * CHUNK_WIDTH + 7) as usize] = '#';
    let mut source = ChunkSource::new();
    source.add_chunk(Chunk::new(Vector2D::new(0, 0), tiles, Vec::new()));
    let mut rock = vec!['.'; CHUNK_AREA];
    // World position (-1, -1) is the bottom-right tile of chunk (-1, -1).
    rock[(49 * CHUNK_WIDTH + 99) as usize] = '%';
    source.add_chunk(Chunk::new(Vector2D::new(-1, -1), rock, Vec::new()));
    let mut world = World::new(source);
    let mut surface = game_surface();
    world.render(&mut surface, Vector2D::new(0, 0));
    assert_eq!(world.get_tile(Vector2D::new(7, 3)), '#');
    assert_eq!(world.get_tile(Vector2D::new(8, 3)), '.');
    assert_eq!(world.get_tile(Vector2D::new(-1, -1)), '%');
    assert_eq!(world.get_tile(Vector2D::new(-2, -1)), '.');
}

#[test]
fn portals_resolve_by_local_position() {
    let mut tiles = vec!['.'; CHUNK_AREA];
    tiles[(4 * CHUNK_WIDTH + 3) as usize] = '1';
    let portal = Portal {
        local_position: Vector2D::new(3, 4),
        destination: Vector2D::new(250, 125),
    };
    let mut source = ChunkSource::new();
    source.add_chunk(Chunk::new(Vector2D::new(0, 0), tiles, vec![portal]));
    let mut world = World::new(source);
    let mut surface = game_surface();
    // Unloaded: portal queries are absence, not a fault.
    assert!(world.get_portal_at(Vector2D::new(3, 4)).is_none());
    world.render(&mut surface, Vector2D::new(0, 0));
    assert!(world.is_portal_at(Vector2D::new(3, 4)));
    assert!(!world.is_portal_at(Vector2D::new(4, 4)));
    let found = world.get_portal_at(Vector2D::new(3, 4)).unwrap();
    assert_eq!(found.destination, Vector2D::new(250, 125));
    assert!(world.get_portal_at(Vector2D::new(10, 10)).is_none());
}

#[test]
fn chunk_load_reports_absence() {
    let mut source = ChunkSource::new();
    source.add_chunk(open_chunk(2, 1));
    assert!(Chunk::load(Vector2D::new(2, 1), &source).is_some());
    assert!(Chunk::load(Vector2D::new(0, 0), &source).is_none());
}

#[test]
fn render_draws_tiles_around_the_focus() {
    let mut tiles = vec!['.'; CHUNK_AREA];
    tiles[(0 * CHUNK_WIDTH + 1) as usize] = ',';
    let mut source = ChunkSource::new();
    source.add_chunk(Chunk::new(Vector2D::new(0, 0), tiles, Vec::new()));
    let mut world = World::new(source);
    let mut surface = game_surface();
    world.render(&mut surface, Vector2D::new(0, 0));
    // The focus tile (0, 0) lands at the surface centre (40, 22).
    assert_eq!(surface.get_cell(40, 22), '.');
    assert_eq!(surface.get_cell(41, 22), ',');
    // World position (-1, 0) is in the unloaded chunk (-1, 0): untouched.
    assert_eq!(surface.get_cell(39, 22), ' ');
}
