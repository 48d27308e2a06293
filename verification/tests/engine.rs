//! End-to-end checks of the engine: geometry, the tile cache, the world's
//! event replay with containment filtering, and the command queue.

use tileworld::apps::{FillScreensApp, TestApp};
use tileworld::client::{driver_for_system_id, Button, Client, HandshakeError, StagedQueue};
use tileworld::color::Color;
use tileworld::commands::ServerCommand;
use tileworld::driver::{Driver, DrawError, GameBoyColorDriver, GameBoyDriver};
use tileworld::geom::{Aabb, Point, Screen};
use tileworld::sprite::Sprite;
use tileworld::tile::Tile;
use tileworld::world::{to_client_space, World, WorldError};

fn screen(px: i64, py: i64, sx: i64, sy: i64, rx: usize, ry: usize) -> Screen {
    Screen {
        pos: Point { x: px, y: py },
        size: Point { x: sx, y: sy },
        res_x: rx,
        res_y: ry,
    }
}

fn gameboy_client(id: u8, s: Screen) -> Client {
    let mut driver = GameBoyDriver::new();
    driver.screen = s;
    Client::new(id, Driver::GameBoy(driver))
}

fn drain(client: &mut Client) -> Vec<u8> {
    let mut staged = StagedQueue::new();
    client.send_commands(&mut staged);
    staged.make_frame()
}

fn black_tile() -> Tile {
    Tile::filled(8, 8, Color::rgb(0, 0, 0))
}

// A black 8x8 tile encodes to sixteen 0xFF bytes; uploading it as device
// tile 1 gives this load record.
fn black_load_record(index: u8) -> Vec<u8> {
    let mut r = vec![1, 1, 0, index, 0, 1];
    r.extend_from_slice(&[0xFF; 16]);
    r
}

#[test]
fn screen_contains_is_half_open() {
    let s = screen(0, 0, 10, 10, 160, 144);
    assert!(s.contains(&Point { x: 0, y: 0 }));
    assert!(s.contains(&Point { x: 9, y: 9 }));
    assert!(!s.contains(&Point { x: 10, y: 0 }));
    assert!(!s.contains(&Point { x: 0, y: 10 }));
    assert!(!s.contains(&Point { x: -1, y: 0 }));
}

#[test]
fn screen_mapping_truncates() {
    let s = screen(0, 0, 10, 10, 160, 144);
    assert_eq!(s.to_local(&Point { x: 5, y: 5 }), (80, 72));
    // 3 world steps across 2 pixels: floor(2 * 2 / 3) = 1.
    let t = screen(0, 0, 3, 3, 2, 2);
    assert_eq!(t.to_local(&Point { x: 2, y: 1 }), (1, 0));
}

#[test]
fn screen_mapping_roundtrip_within_one_pixel() {
    // Inverse of the mapping: pos + floor(local * size / res).
    let s = screen(0, 0, 3, 3, 2, 2);
    for wx in 0..3i64 {
        let (lx, _) = s.to_local(&Point { x: wx, y: 0 });
        let wx2 = s.pos.x + (lx as i64) * s.size.x / (s.res_x as i64);
        assert!(wx2 <= wx);
        // Error below one pixel unit (size / res) plus one coordinate step.
        assert!((wx - wx2) * (s.res_x as i64) < s.size.x + s.res_x as i64);
    }
}

#[test]
fn screen_gameboy_default() {
    let s = Screen::gameboy();
    assert_eq!(s.pos, Point { x: 0, y: 0 });
    assert_eq!(s.size, Point { x: 14800, y: 9000 });
    assert_eq!((s.res_x, s.res_y), (160, 144));
}

#[test]
fn aabb_invalid_merges_to_other() {
    let mut a = Aabb::new_invalid();
    assert!(!a.valid());
    let b = Aabb { min_x: 1, min_y: 2, max_x: 3, max_y: 4 };
    a.merge(&b);
    assert_eq!(a, b);
    assert!(a.valid());
}

#[test]
fn handshake_selects_driver() {
    assert!(matches!(driver_for_system_id(0), Ok(Driver::GameBoy(_))));
    assert!(matches!(driver_for_system_id(1), Ok(Driver::GameBoyColor(_))));
    assert_eq!(driver_for_system_id(2).err(), Some(HandshakeError::UnknownSystem));
    assert_eq!(driver_for_system_id(255).err(), Some(HandshakeError::UnknownSystem));
}

#[test]
fn tile_cache_deduplicates_identical_content() {
    let mut driver = GameBoyDriver::new();
    let first = driver.draw_tile(&black_tile(), 0, 0);
    // Miss: one upload, then the placement.
    assert_eq!(
        first,
        vec![black_load_record(1), vec![2, 0, 0, 1, 1, 1]]
    );
    // Bit-identical content drawn again: no second upload, same index.
    let second = driver.draw_tile(&black_tile(), 8, 16);
    assert_eq!(second, vec![vec![2, 1, 2, 1, 1, 1]]);
}

#[test]
fn tile_cache_distinct_content_gets_distinct_index() {
    let mut driver = GameBoyDriver::new();
    let _ = driver.draw_tile(&black_tile(), 0, 0);
    // One pixel differs: second upload under the next index.
    let mut pixels = vec![Color::rgb(0, 0, 0); 64];
    pixels[63] = Color::rgb(255, 255, 255);
    let other = Tile::from_pixels(8, 8, pixels);
    let cmds = driver.draw_tile(&other, 0, 0);
    assert_eq!(cmds.len(), 2);
    assert_eq!(cmds[0][0..6], [1, 1, 0, 2, 0, 1]);
    assert_eq!(cmds[1], vec![2, 0, 0, 1, 1, 2]);
}

#[test]
fn sprite_draw_wire_exactness() {
    let mut driver = GameBoyDriver::new();
    let sprite = Sprite::new(&black_tile());
    // First draw uploads the tile to index 1.
    let _ = driver.draw_sprite(7, &sprite, 0, 0);
    // A later draw at local (5, 9): exactly [3, s, t] then [4, s, 5, 9].
    let cmds = driver.draw_sprite(7, &sprite, 5, 9);
    assert_eq!(cmds, vec![vec![3, 7, 1], vec![4, 7, 5, 9]]);
}

#[test]
fn unsupported_capabilities_fail_fast() {
    let mut driver = Driver::GameBoyColor(GameBoyColorDriver::new());
    assert_eq!(driver.draw_text("X", 0, 0).err(), Some(DrawError::Unsupported));
    assert_eq!(driver.draw_tile(&black_tile(), 0, 0).err(), Some(DrawError::Unsupported));
    assert_eq!(driver.draw_image().err(), Some(DrawError::Unsupported));
    let sprite = Sprite::new(&black_tile());
    assert_eq!(driver.draw_sprite(0, &sprite, 0, 0).err(), Some(DrawError::Unsupported));
    // The monochrome variant does not implement whole-image drawing either.
    let mut gb = Driver::GameBoy(GameBoyDriver::new());
    assert_eq!(gb.draw_image().err(), Some(DrawError::Unsupported));
}

#[test]
fn move_sprite_unknown_id_is_not_found() {
    let mut world = World::new();
    assert_eq!(world.move_sprite(0, 1, 1), Err(WorldError::NotFound));
    let id = world.create_sprite(&black_tile());
    assert_eq!(id, 0);
    assert_eq!(world.move_sprite(id, 1, 1), Ok(()));
    assert_eq!(world.move_sprite(id + 1, 1, 1), Err(WorldError::NotFound));
}

#[test]
fn sprite_ids_are_sequential() {
    let mut world = World::new();
    assert_eq!(world.create_sprite(&black_tile()), 0);
    assert_eq!(world.create_sprite(&black_tile()), 1);
    assert_eq!(world.create_sprite(&black_tile()), 2);
    let s = world.get_sprite(0);
    assert_eq!(s.pos, Point { x: 0, y: 0 });
}

#[test]
fn fit_client_screens_unions_bounding_boxes() {
    let mut world = World::new();
    let clients = vec![
        gameboy_client(0, screen(0, 0, 10, 10, 160, 144)),
        gameboy_client(1, screen(10, 0, 10, 10, 160, 144)),
    ];
    let area = world.fit_client_screens(&clients);
    assert_eq!(area, Aabb { min_x: 0, min_y: 0, max_x: 20, max_y: 10 });
}

#[test]
fn sync_delivers_only_to_containing_client() {
    // Two clients side by side; a sprite at (5, 5) lands on the first only.
    let mut world = World::new();
    let mut clients = vec![
        gameboy_client(0, screen(0, 0, 10, 10, 160, 144)),
        gameboy_client(1, screen(10, 0, 10, 10, 160, 144)),
    ];
    let id = world.create_sprite(&black_tile());
    world.move_sprite(id, 5, 5).unwrap();
    world.sync_clients(&mut clients);
    let f0 = drain(&mut clients[0]);
    let f1 = drain(&mut clients[1]);
    // Both events replay against the sprite's position at sync time,
    // (5, 5) mapped to (80, 72): the creation uploads the tile and places
    // the sprite, the move places it again.
    let mut expected = vec![0, 5];
    expected.extend_from_slice(&black_load_record(1));
    expected.extend_from_slice(&[3, 0, 1, 4, 0, 80, 72]);
    expected.extend_from_slice(&[3, 0, 1, 4, 0, 80, 72]);
    assert_eq!(f0, expected);
    // The other client's screen contains neither position: nothing at all.
    assert_eq!(f1, vec![0, 0]);
}

#[test]
fn sync_follows_sprite_across_screens() {
    // The sprite then moves into the second client's rectangle; the first
    // client receives no further command for it.
    let mut world = World::new();
    let mut clients = vec![
        gameboy_client(0, screen(0, 0, 10, 10, 160, 144)),
        gameboy_client(1, screen(10, 0, 10, 10, 160, 144)),
    ];
    let id = world.create_sprite(&black_tile());
    world.move_sprite(id, 5, 5).unwrap();
    world.sync_clients(&mut clients);
    let _ = drain(&mut clients[0]);
    let _ = drain(&mut clients[1]);
    world.move_sprite(id, 15, 5).unwrap();
    world.sync_clients(&mut clients);
    let f0 = drain(&mut clients[0]);
    let f1 = drain(&mut clients[1]);
    assert_eq!(f0, vec![0, 0]);
    // Client 1 uploads to its own cache (index 1) and places at (80, 72).
    let mut expected = vec![0, 3];
    expected.extend_from_slice(&black_load_record(1));
    expected.extend_from_slice(&[3, 0, 1, 4, 0, 80, 72]);
    assert_eq!(f1, expected);
}

#[test]
fn repeated_move_changes_nothing_visible() {
    // Moving twice to the same coordinates re-sends only the same
    // last-wins slot assignment and position.
    let run = |moves: usize| -> (Vec<u8>, Vec<u8>) {
        let mut world = World::new();
        let mut clients = vec![gameboy_client(0, screen(0, 0, 10, 10, 160, 144))];
        let id = world.create_sprite(&black_tile());
        for _ in 0..moves {
            world.move_sprite(id, 5, 5).unwrap();
        }
        world.sync_clients(&mut clients);
        let frame = drain(&mut clients[0]);
        // Split off the trailing placement pair [3,0,1][4,0,80,72].
        let tail = frame[frame.len() - 7..].to_vec();
        (frame, tail)
    };
    let (frame_once, tail_once) = run(1);
    let (frame_twice, tail_twice) = run(2);
    // The second move appends exactly one more copy of the same pair.
    assert_eq!(tail_once, tail_twice);
    assert_eq!(frame_twice[2..frame_twice.len() - 7], frame_once[2..]);
    assert_eq!(frame_twice.len(), frame_once.len() + 7);
}

#[test]
fn deleted_event_has_no_handler() {
    // Deletion is recorded as an event kind but draws nothing; the public
    // surface never emits it, so a plain sync stays empty.
    let mut world = World::new();
    let mut clients = vec![gameboy_client(0, screen(0, 0, 10, 10, 160, 144))];
    world.sync_clients(&mut clients);
    assert_eq!(drain(&mut clients[0]), vec![0, 0]);
}

#[test]
fn queue_preserves_order_and_bytes() {
    let mut client = gameboy_client(0, screen(0, 0, 10, 10, 160, 144));
    let mut staged = StagedQueue::new();
    client.buffer_command(vec![9, 9]);
    client.buffer_command(vec![8]);
    client.send_commands(&mut staged);
    // More buffered after the handoff; drained later in order.
    client.buffer_command(vec![7, 7, 7]);
    client.send_commands(&mut staged);
    let frame = staged.make_frame();
    assert_eq!(frame, vec![0, 3, 9, 9, 8, 7, 7, 7]);
    // Everything was drained; nothing is duplicated on the next tick.
    assert_eq!(staged.make_frame(), vec![0, 0]);
}

#[test]
fn frame_count_is_big_endian() {
    let mut client = gameboy_client(0, screen(0, 0, 10, 10, 160, 144));
    let mut staged = StagedQueue::new();
    for _ in 0..258 {
        client.buffer_command(Vec::new());
    }
    client.send_commands(&mut staged);
    assert_eq!(staged.make_frame(), vec![1, 2]);
}

#[test]
fn buttons_decode_their_bits() {
    let mut client = gameboy_client(0, screen(0, 0, 10, 10, 160, 144));
    client.set_inputs(0x81);
    assert!(client.button_pressed(Button::Start));
    assert!(client.button_pressed(Button::Right));
    assert!(!client.button_pressed(Button::Select));
    assert!(!client.button_pressed(Button::B));
    assert!(!client.button_pressed(Button::A));
    assert!(!client.button_pressed(Button::Down));
    assert!(!client.button_pressed(Button::Up));
    assert!(!client.button_pressed(Button::Left));
    client.set_inputs(0x00);
    assert!(!client.button_pressed(Button::Start));
}

#[test]
fn position_command_targets_one_client() {
    let mut client = gameboy_client(3, screen(0, 0, 10, 10, 160, 144));
    let other = ServerCommand::Pos { client_id: 2, x: 50, y: 60 };
    assert_eq!(client.process_server_command(&other), None);
    assert_eq!(client.screen().pos, Point { x: 0, y: 0 });
    let mine = ServerCommand::Pos { client_id: 3, x: 50, y: 60 };
    assert_eq!(client.process_server_command(&mine), Some((50, 60)));
    assert_eq!(client.screen().pos, Point { x: 50, y: 60 });
    assert_eq!(client.process_server_command(&ServerCommand::Quit), None);
}

#[test]
fn client_draw_text_buffers_record() {
    let mut client = gameboy_client(0, screen(0, 0, 10, 10, 160, 144));
    client.draw_text("OK", 1, 2).unwrap();
    assert_eq!(drain(&mut client), vec![0, 1, 0, 1, 2, 2, 79, 75]);
}

#[test]
fn fill_screen_with_image_loads_first_128_tiles() {
    let mut client = gameboy_client(0, screen(0, 0, 10, 10, 160, 144));
    let pixels = vec![Color::rgb(255, 255, 255); 160 * 144];
    client.fill_screen_with_image(&pixels).unwrap();
    let frame = drain(&mut client);
    // Two commands: the 128-tile upload and the grid placement.
    assert_eq!(frame[0..2], [0, 2]);
    // Load record: background, first index 0, 128 tiles, 2048 zero bytes.
    assert_eq!(frame[2..8], [1, 1, 0, 0, 0, 128]);
    assert!(frame[8..8 + 2048].iter().all(|b| *b == 0));
    // Placement: 20 x 18 grid from the origin, indices 0..=127.
    let bg = &frame[8 + 2048..];
    assert_eq!(bg[0..5], [2, 0, 0, 20, 18]);
    let indices: Vec<u8> = (0..128).collect();
    assert_eq!(bg[5..], indices[..]);
    // The color variant refuses the capability.
    let mut color_client = Client::new(1, Driver::GameBoyColor(GameBoyColorDriver::new()));
    assert_eq!(color_client.fill_screen_with_image(&pixels), Err(DrawError::Unsupported));
}

#[test]
fn test_app_sweeps_the_screen() {
    let mut app = TestApp::new();
    let mut clients = vec![gameboy_client(0, screen(0, 0, 10, 10, 160, 144))];
    app.update(&mut clients);
    assert_eq!((app.x, app.y), (1, 0));
    assert_eq!(drain(&mut clients[0]), vec![0, 1, 7, 1, 0]);
    // After 160 steps the cursor wraps to the next row.
    for _ in 0..159 {
        app.update(&mut clients);
    }
    assert_eq!((app.x, app.y), (0, 1));
}

#[test]
fn fill_screens_clears_then_fills() {
    let mut app = FillScreensApp::new();
    let mut clients = vec![gameboy_client(0, screen(0, 0, 10, 10, 160, 144))];
    // A new client is cleared: 20 x 18 light tiles, one upload plus 360
    // placements; no time has passed, so no fill tile yet.
    app.update(0, &mut clients).unwrap();
    let frame = drain(&mut clients[0]);
    assert_eq!(frame[0..2], [1, 105]); // 361 commands, big-endian
    assert_eq!(frame[2..8], [1, 1, 0, 1, 0, 1]); // light tile to index 1
    assert!(frame[8..24].iter().all(|b| *b == 0));
    assert_eq!(frame[24..30], [2, 0, 0, 1, 1, 1]); // first placement
    // 250 ms at one tile per 100 ms: two dark tiles appear.
    app.update(250, &mut clients).unwrap();
    let f2 = drain(&mut clients[0]);
    let mut expected = vec![0, 3, 1, 1, 0, 2, 0, 1];
    expected.extend_from_slice(&[0xFF; 16]);
    expected.extend_from_slice(&[2, 0, 0, 1, 1, 2]);
    expected.extend_from_slice(&[2, 1, 0, 1, 1, 2]);
    assert_eq!(f2, expected);
}

#[test]
fn sprite_copies_tile_and_starts_at_origin() {
    let tile = black_tile();
    let mut sprite = Sprite::new(&tile);
    assert_eq!(sprite.pos, Point { x: 0, y: 0 });
    assert_eq!(sprite.tile.pixels.len(), 64);
    sprite.set_position(-3, 4);
    assert_eq!(sprite.pos, Point { x: -3, y: 4 });
}

#[test]
fn tile_constructors() {
    // A constructed tile is complete: one pixel per cell, black by default.
    let t = Tile::new(8, 8);
    assert_eq!((t.width, t.height), (8, 8));
    assert_eq!(t.pixels.len(), 64);
    assert!(t.pixels.iter().all(|p| *p == Color::rgb(0, 0, 0)));
    let f = Tile::filled(2, 3, Color::rgb(1, 2, 3));
    assert_eq!(f.pixels.len(), 6);
    assert_eq!(f.pixels[5], Color::rgb(1, 2, 3));
    let p = Tile::from_pixels(1, 2, vec![Color::rgb(0, 0, 0); 2]);
    assert_eq!(p.pixels.len(), 2);
}

#[test]
fn to_client_space_matches_screen_mapping() {
    let client = gameboy_client(0, screen(0, 0, 10, 10, 160, 144));
    assert_eq!(to_client_space(&client, &Point { x: 5, y: 5 }), (80, 72));
    assert_eq!(to_client_space(&client, &Point { x: 0, y: 0 }), (0, 0));
}
