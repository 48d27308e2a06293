//! Byte-exact checks of the wire encodings, the shade formula and the
//! device tile packing.

use tileworld::color::Color;
use tileworld::commands::ClientCommand;
use tileworld::driver::{shade, tile_to_gb};
use tileworld::tile::Tile;
use tileworld::wire::{
    command_draw_text, command_load_tiles, command_set_background_tiles,
    command_set_sprite_position, command_set_sprite_tile,
};

#[test]
fn shade_extremes_and_midpoint() {
    // Black: luminance 0, round((1 - 0) * 4) = 4, clamped to 3.
    assert_eq!(shade(Color::rgb(0, 0, 0)), 3);
    // White: luminance 1, shade 0.
    assert_eq!(shade(Color::rgb(255, 255, 255)), 0);
    // Mid gray 128/255: (1 - 0.50196) * 4 = 1.992..., rounds to 2.
    assert_eq!(shade(Color::rgb(128, 128, 128)), 2);
    // Pure red: luminance 0.2126, (1 - 0.2126) * 4 = 3.1496, rounds to 3.
    assert_eq!(shade(Color::rgb(255, 0, 0)), 3);
}

#[test]
fn tile_packing_black_and_white() {
    let black = Tile::filled(8, 8, Color::rgb(0, 0, 0));
    // Shade 3 everywhere: both bit planes all ones.
    assert_eq!(tile_to_gb(&black), vec![0xFF; 16]);
    let white = Tile::filled(8, 8, Color::rgb(255, 255, 255));
    assert_eq!(tile_to_gb(&white), vec![0x00; 16]);
}

#[test]
fn tile_packing_single_dark_pixel() {
    // One black pixel at column 0 of row 0: bit 7 of both planes of row 0.
    let mut pixels = vec![Color::rgb(255, 255, 255); 64];
    pixels[0] = Color::rgb(0, 0, 0);
    let tile = Tile::from_pixels(8, 8, pixels);
    let mut expected = vec![0u8; 16];
    expected[0] = 0x80;
    expected[1] = 0x80;
    assert_eq!(tile_to_gb(&tile), expected);
}

#[test]
fn draw_text_record() {
    assert_eq!(command_draw_text("HI", 3, 4), vec![0, 3, 4, 2, 72, 73]);
}

#[test]
fn draw_text_truncates_coordinates_modulo_256() {
    assert_eq!(command_draw_text("A", 300, 256), vec![0, 44, 0, 1, 65]);
}

#[test]
fn load_tiles_record_big_endian() {
    assert_eq!(
        command_load_tiles(true, 0x0102, 0x0304, vec![9, 8]),
        vec![1, 1, 1, 2, 3, 4, 9, 8]
    );
    assert_eq!(command_load_tiles(false, 1, 1, vec![]), vec![1, 0, 0, 1, 0, 1]);
}

#[test]
fn set_background_tiles_record() {
    assert_eq!(
        command_set_background_tiles(2, 3, 1, 1, vec![7]),
        vec![2, 2, 3, 1, 1, 7]
    );
}

#[test]
fn sprite_records() {
    assert_eq!(command_set_sprite_tile(5, 9), vec![3, 5, 9]);
    assert_eq!(command_set_sprite_position(5, 7, 11), vec![4, 5, 7, 11]);
}

#[test]
fn client_command_canonical_records() {
    // The commands the canonical opcode table covers encode per the table.
    assert_eq!(ClientCommand::SetSpriteTile(1, 2).to_bytes(), vec![3, 1, 2]);
    assert_eq!(ClientCommand::MoveSprite(1, 2, 3).to_bytes(), vec![4, 1, 2, 3]);
}

#[test]
fn client_command_primitive_records() {
    // The drawing primitives continue the table with tags 5 to 9.
    assert_eq!(ClientCommand::ClearScreen.to_bytes(), vec![5]);
    assert_eq!(ClientCommand::ClearRect(1, 2, 3, 4).to_bytes(), vec![6, 1, 2, 3, 4]);
    assert_eq!(ClientCommand::DrawPoint(9, 10).to_bytes(), vec![7, 9, 10]);
    assert_eq!(ClientCommand::DrawLine(1, 2, 3, 4).to_bytes(), vec![8, 1, 2, 3, 4]);
    assert_eq!(ClientCommand::DrawCircle(5, 6, 7).to_bytes(), vec![9, 5, 6, 7]);
}

#[test]
fn client_command_text_record() {
    // Same record the driver's draw-text path emits.
    let text = String::from("AB");
    assert_eq!(
        ClientCommand::PrintText(1, 2, text).to_bytes(),
        vec![0, 1, 2, 2, 65, 66]
    );
}

#[test]
fn client_command_load_tiles_record() {
    assert_eq!(
        ClientCommand::LoadTiles(true, 0x0102, 0x0304, vec![9, 8]).to_bytes(),
        vec![1, 1, 1, 2, 3, 4, 9, 8]
    );
    assert_eq!(
        ClientCommand::SetBackgroundTiles(0, 1, 2, 2, vec![4, 5, 6, 7]).to_bytes(),
        vec![2, 0, 1, 2, 2, 4, 5, 6, 7]
    );
}
