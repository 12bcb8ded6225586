use asciimon::chunk::{Chunk, ChunkSource, CHUNK_AREA};
use asciimon::game::{parse_step, tokenize, Game, UpdateResult};
use asciimon::state_explore::StateExplore;
use asciimon::surface::Surface;
use asciimon::vector::Vector2D;

fn open_source() -> ChunkSource {
    let mut source = ChunkSource::new();
    source.add_chunk(Chunk::new(
        Vector2D::new(0, 0),
        vec!['.'; CHUNK_AREA],
        Vec::new(),
    ));
    source
}

fn game_surface() -> Surface {
    Surface::new(81, 45, ' ')
}

fn views(tokens: &[String]) -> Vec<&str> {
    tokens.iter().map(|t| t.as_str()).collect()
}

#[test]
fn tokenize_trims_and_splits_on_single_spaces() {
    assert_eq!(views(&tokenize("x 3")), ["x", "3"]);
    assert_eq!(views(&tokenize("  x 3 \n")), ["x", "3"]);
    assert_eq!(views(&tokenize("a b  c")), ["a", "b", "", "c"]);
    assert_eq!(views(&tokenize("")), [""]);
    assert_eq!(views(&tokenize("   \n")), [""]);
    assert_eq!(views(&tokenize("quit")), ["quit"]);
}

#[test]
fn parse_step_reads_numbers_and_defaults_to_zero() {
    assert_eq!(parse_step("42"), 42);
    assert_eq!(parse_step("-7"), -7);
    assert_eq!(parse_step("+5"), 5);
    assert_eq!(parse_step("0"), 0);
    assert_eq!(parse_step("abc"), 0);
    assert_eq!(parse_step(""), 0);
    assert_eq!(parse_step("-"), 0);
    assert_eq!(parse_step("12x"), 0);
    assert_eq!(parse_step("2147483647"), 2147483647);
    assert_eq!(parse_step("-2147483648"), -2147483648);
    assert_eq!(parse_step("2147483648"), 0);
    assert_eq!(parse_step("-2147483649"), 0);
    assert_eq!(parse_step("99999999999999999999999"), 0);
}

#[test]
fn game_starts_with_one_exploration_state_at_origin() {
    let game = Game::new(open_source());
    assert!(game.is_running);
    assert!(game.needs_redraw);
    assert_eq!(game.state_stack.len(), 1);
    assert_eq!(game.state_stack[0].player.position, Vector2D::new(0, 0));
}

#[test]
fn push_then_pop_returns_to_the_prior_state() {
    let mut game = Game::new(open_source());
    let mut surface = game_surface();
    game.prepare_frame(&mut surface);
    assert!(!game.needs_redraw);
    let drawn_before = game.console.messages.len();

    game.apply_result(Some(UpdateResult::StatePush(StateExplore::new(
        ChunkSource::new(),
    ))));
    assert_eq!(game.state_stack.len(), 2);
    assert!(game.needs_redraw);
    game.apply_result(Some(UpdateResult::StatePop));
    assert_eq!(game.state_stack.len(), 1);
    assert!(game.is_running);
    assert!(game.needs_redraw);

    // The prior state's draw runs exactly once before the next input read.
    game.prepare_frame(&mut surface);
    assert_eq!(game.console.messages.len(), drawn_before + 1);
    assert!(!game.needs_redraw);
    game.prepare_frame(&mut surface);
    assert_eq!(game.console.messages.len(), drawn_before + 1);
}

#[test]
fn popping_the_last_state_exits() {
    let mut game = Game::new(open_source());
    game.apply_result(Some(UpdateResult::StatePop));
    assert_eq!(game.state_stack.len(), 0);
    assert!(!game.is_running);
}

#[test]
fn exit_result_stops_at_any_depth() {
    let mut game = Game::new(open_source());
    game.apply_result(Some(UpdateResult::StatePush(StateExplore::new(
        ChunkSource::new(),
    ))));
    game.apply_result(Some(UpdateResult::Exit));
    assert!(!game.is_running);
    assert_eq!(game.state_stack.len(), 2);
}

#[test]
fn input_d_moves_right_and_requests_redraw() {
    let mut game = Game::new(open_source());
    let mut surface = game_surface();
    game.prepare_frame(&mut surface);
    assert!(!game.needs_redraw);
    let line = String::from("d");
    let result = game.handle_line(Some(&line));
    assert!(matches!(result, Some(UpdateResult::Redraw)));
    game.apply_result(result);
    assert_eq!(game.state_stack[0].player.position, Vector2D::new(1, 0));
    assert!(game.needs_redraw);
}

#[test]
fn quit_terminates_from_any_state_depth() {
    let mut game = Game::new(open_source());
    game.apply_result(Some(UpdateResult::StatePush(StateExplore::new(
        open_source(),
    ))));
    let line = String::from("quit");
    let result = game.handle_line(Some(&line));
    game.apply_result(result);
    assert!(!game.is_running);

    let mut game = Game::new(open_source());
    let line = String::from("exit");
    let result = game.handle_line(Some(&line));
    game.apply_result(result);
    assert!(!game.is_running);
}

#[test]
fn end_of_input_acts_as_exit() {
    let mut game = Game::new(open_source());
    let result = game.handle_line(None);
    game.apply_result(result);
    assert!(!game.is_running);
}

#[test]
fn offset_commands_and_malformed_magnitudes() {
    let mut game = Game::new(open_source());
    let mut surface = game_surface();
    game.prepare_frame(&mut surface);
    let line = String::from("x 3");
    let r = game.handle_line(Some(&line));
    assert!(matches!(r, Some(UpdateResult::Redraw)));
    assert_eq!(game.state_stack[0].player.position, Vector2D::new(3, 0));
    // A non-numeric magnitude parses to zero: a silent no-op move.
    let line = String::from("x lots");
    let r = game.handle_line(Some(&line));
    assert!(matches!(r, Some(UpdateResult::Redraw)));
    assert_eq!(game.state_stack[0].player.position, Vector2D::new(3, 0));
    // An unrecognized form is ignored entirely.
    let line = String::from("x 1 2");
    let r = game.handle_line(Some(&line));
    assert!(r.is_none());
    assert_eq!(game.state_stack[0].player.position, Vector2D::new(3, 0));
}

#[test]
fn empty_token_replays_the_last_move() {
    let mut game = Game::new(open_source());
    let mut surface = game_surface();
    game.prepare_frame(&mut surface);
    let line = String::from("dd");
    game.handle_line(Some(&line));
    assert_eq!(game.state_stack[0].player.position, Vector2D::new(2, 0));
    let line = String::from("");
    let r = game.handle_line(Some(&line));
    assert!(matches!(r, Some(UpdateResult::Redraw)));
    assert_eq!(game.state_stack[0].player.position, Vector2D::new(4, 0));
}

#[test]
fn frame_draws_player_glyph_at_the_centre() {
    let mut game = Game::new(open_source());
    let mut surface = game_surface();
    game.prepare_frame(&mut surface);
    assert_eq!(surface.get_cell(40, 22), '@');
    assert_eq!(surface.get_cell(41, 22), '.');
}
