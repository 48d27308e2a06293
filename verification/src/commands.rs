//! High-level client commands with their byte encoding, and the control
//! commands the engine accepts from its surroundings.
//!
//! The encoding is the canonical opcode table of the wire protocol
//! (see [`crate::wire`]): 0 draws text, 1 loads tiles, 2 places background
//! tiles, 3 assigns a sprite slot's tile, 4 moves a sprite slot. The
//! drawing primitives the table leaves unassigned continue it with tags
//! 5 to 9.

use vstd::prelude::*;

use crate::wire::{
    command_draw_text, spec_draw_text_bytes, spec_load_tiles_bytes,
    spec_set_background_tiles_bytes, spec_set_sprite_position_bytes, spec_set_sprite_tile_bytes,
};

verus! {

/// A drawing or state command for a display client, with a byte encoding
/// produced by [`ClientCommand::to_bytes`] that matches the canonical
/// opcode table for the commands the table covers.
#[derive(Debug, Clone)]
pub enum ClientCommand {
    ClearScreen,
    ClearRect(u8, u8, u8, u8),
    DrawPoint(u8, u8),
    DrawLine(u8, u8, u8, u8),
    DrawCircle(u8, u8, u8),
    PrintText(u8, u8, String),
    LoadTiles(bool, u16, u16, Vec<u8>),
    SetBackgroundTiles(u8, u8, u8, u8, Vec<u8>),
    SetSpriteTile(u8, u8),
    MoveSprite(u8, u8, u8),
}

impl ClientCommand {
    /// Encodable commands: text is ASCII and fits the one-byte length field.
    pub open spec fn wf(self) -> bool {
        match self {
            ClientCommand::PrintText(_, _, text) => {
                &&& vstd::utf8::is_ascii_chars(text@)
                &&& text@.len() <= 255
            },
            _ => true,
        }
    }

    /// The byte encoding: the canonical opcode for the commands the wire
    /// protocol's table covers, tags 5 to 9 for the drawing primitives.
    pub open spec fn spec_to_bytes(self) -> Seq<u8> {
        match self {
            ClientCommand::PrintText(x, y, text) => spec_draw_text_bytes(
                x as u32,
                y as u32,
                text@,
            ),
            ClientCommand::LoadTiles(is_background, tile_index, tile_count, tile_data) => (
            spec_load_tiles_bytes(is_background, tile_index, tile_count, tile_data@)),
            ClientCommand::SetBackgroundTiles(tile_x, tile_y, columns, rows, tile_indices) => (
            spec_set_background_tiles_bytes(tile_x, tile_y, columns, rows, tile_indices@)),
            ClientCommand::SetSpriteTile(sprite_index, tile_index) => (
            spec_set_sprite_tile_bytes(sprite_index, tile_index)),
            ClientCommand::MoveSprite(sprite_index, x, y) => spec_set_sprite_position_bytes(
                sprite_index,
                x,
                y,
            ),
            ClientCommand::ClearScreen => seq![5u8],
            ClientCommand::ClearRect(x, y, w, h) => seq![6u8, x, y, w, h],
            ClientCommand::DrawPoint(x, y) => seq![7u8, x, y],
            ClientCommand::DrawLine(x1, y1, x2, y2) => seq![8u8, x1, y1, x2, y2],
            ClientCommand::DrawCircle(x, y, r) => seq![9u8, x, y, r],
        }
    }

    /// Encodes the command.
    pub fn to_bytes(&self) -> (r: Vec<u8>)
        requires
            self.wf(),
        ensures
            r@ == self.spec_to_bytes(),
    {
        match self {
            ClientCommand::PrintText(x, y, text) => {
                command_draw_text(text.as_str(), *x as u32, *y as u32)
            },
            ClientCommand::LoadTiles(is_background, tile_index, tile_count, tile_data) => {
                let mut data = vec![
                    1u8,
                    if *is_background { 1u8 } else { 0u8 },
                    (*tile_index / 256) as u8,
                    (*tile_index % 256) as u8,
                    (*tile_count / 256) as u8,
                    (*tile_count % 256) as u8,
                ];
                let mut i: usize = 0;
                while i < tile_data.len()
                    invariant
                        i <= tile_data@.len(),
                        data@ =~= seq![
                            1u8,
                            if *is_background { 1u8 } else { 0u8 },
                            (*tile_index / 256) as u8,
                            (*tile_index % 256) as u8,
                            (*tile_count / 256) as u8,
                            (*tile_count % 256) as u8,
                        ] + tile_data@.subrange(0, i as int),
                    decreases tile_data@.len() - i,
                {
                    let b = tile_data[i];
                    data.push(b);
                    i = i + 1;
                }
                assert(data@ =~= self.spec_to_bytes());
                data
            },
            ClientCommand::SetBackgroundTiles(tile_x, tile_y, columns, rows, tile_indices) => {
                let mut data = vec![2u8, *tile_x, *tile_y, *columns, *rows];
                let mut i: usize = 0;
                while i < tile_indices.len()
                    invariant
                        i <= tile_indices@.len(),
                        data@ =~= seq![2u8, *tile_x, *tile_y, *columns, *rows]
                            + tile_indices@.subrange(0, i as int),
                    decreases tile_indices@.len() - i,
                {
                    let b = tile_indices[i];
                    data.push(b);
                    i = i + 1;
                }
                assert(data@ =~= self.spec_to_bytes());
                data
            },
            ClientCommand::SetSpriteTile(sprite_index, tile_index) => {
                let r = vec![3u8, *sprite_index, *tile_index];
                assert(r@ =~= self.spec_to_bytes());
                r
            },
            ClientCommand::MoveSprite(sprite_index, x, y) => {
                let r = vec![4u8, *sprite_index, *x, *y];
                assert(r@ =~= self.spec_to_bytes());
                r
            },
            ClientCommand::ClearScreen => {
                let r = vec![5u8];
                assert(r@ =~= self.spec_to_bytes());
                r
            },
            ClientCommand::ClearRect(x, y, w, h) => {
                let r = vec![6u8, *x, *y, *w, *h];
                assert(r@ =~= self.spec_to_bytes());
                r
            },
            ClientCommand::DrawPoint(x, y) => {
                let r = vec![7u8, *x, *y];
                assert(r@ =~= self.spec_to_bytes());
                r
            },
            ClientCommand::DrawLine(x1, y1, x2, y2) => {
                let r = vec![8u8, *x1, *y1, *x2, *y2];
                assert(r@ =~= self.spec_to_bytes());
                r
            },
            ClientCommand::DrawCircle(x, y, r) => {
                let bytes = vec![9u8, *x, *y, *r];
                assert(bytes@ =~= self.spec_to_bytes());
                bytes
            },
        }
    }
}

/// The demo applications the engine can run.
#[derive(Debug, Clone, Copy, PartialEq, Eq, Structural)]
pub enum AppName {
    Info,
    Fill,
    Balls,
}

/// A control command from the engine's surroundings: quit, move a client's
/// screen (fixed-point world coordinates), or switch the active app.
#[derive(Debug, Clone)]
pub enum ServerCommand {
    Quit,
    Pos { client_id: u8, x: i64, y: i64 },
    App { app: AppName },
}

} // verus!
