//! The wire protocol: the byte-level command encoding emitted by the
//! hardware drivers, and the length-prefixed framing used by the client
//! transport.
//!
//! Each command record starts with an opcode byte: 0 draws text, 1 loads
//! tile data into device tile memory, 2 places background tiles, 3 assigns a
//! sprite slot's tile, 4 moves a sprite slot.

use vstd::prelude::*;

verus! {

/// Encoding of the draw-text command: opcode 0, one-byte x and y (taken
/// modulo 256), a length byte, then one byte per ASCII character.
pub open spec fn spec_draw_text_bytes(x: u32, y: u32, text: Seq<char>) -> Seq<u8> {
    seq![0u8, (x % 256) as u8, (y % 256) as u8, text.len() as u8] + Seq::new(
        text.len(),
        |i: int| text[i] as u8,
    )
}

/// Encoding of the load-tiles command: opcode 1, a background flag, the
/// first device tile index and the tile count (both big-endian, two bytes),
/// then the packed pixel bytes.
pub open spec fn spec_load_tiles_bytes(
    is_background: bool,
    tile_index: u16,
    tile_count: u16,
    tiles_data: Seq<u8>,
) -> Seq<u8> {
    seq![
        1u8,
        if is_background { 1u8 } else { 0u8 },
        (tile_index / 256) as u8,
        (tile_index % 256) as u8,
        (tile_count / 256) as u8,
        (tile_count % 256) as u8,
    ] + tiles_data
}

/// Encoding of the set-background-tiles command: opcode 2, the tile-grid
/// position and extent, then one device tile index per cell.
pub open spec fn spec_set_background_tiles_bytes(
    tile_x: u8,
    tile_y: u8,
    tiles_w: u8,
    tiles_h: u8,
    tiles_indices: Seq<u8>,
) -> Seq<u8> {
    seq![2u8, tile_x, tile_y, tiles_w, tiles_h] + tiles_indices
}

/// Encoding of the set-sprite-tile command: opcode 3, sprite slot, device
/// tile index.
pub open spec fn spec_set_sprite_tile_bytes(sprite_index: u8, tile_index: u8) -> Seq<u8> {
    seq![3u8, sprite_index, tile_index]
}

/// Encoding of the set-sprite-position command: opcode 4, sprite slot, local
/// pixel coordinates.
pub open spec fn spec_set_sprite_position_bytes(sprite_index: u8, x: u8, y: u8) -> Seq<u8> {
    seq![4u8, sprite_index, x, y]
}

/// Builds the draw-text command record.
pub fn command_draw_text(text: &str, x: u32, y: u32) -> (r: Vec<u8>)
    requires
        text.is_ascii(),
        text@.len() <= 255,
    ensures
        r@ == spec_draw_text_bytes(x, y, text@),
{
    proof {
        vstd::string::is_ascii_spec_bytes(text);
    }
    let bytes: &[u8] = text.as_bytes();
    let n: usize = bytes.len();
    let mut data = vec![0u8, (x % 256) as u8, (y % 256) as u8, n as u8];
    let mut i: usize = 0;
    while i < n
        invariant
            i <= n,
            n == text@.len(),
            bytes@ =~= Seq::new(text@.len(), |j: int| text@[j] as u8),
            data@ =~= seq![0u8, (x % 256) as u8, (y % 256) as u8, n as u8] + Seq::new(
                i as nat,
                |j: int| text@[j] as u8,
            ),
        decreases n - i,
    {
        let b = bytes[i];
        data.push(b);
        i = i + 1;
    }
    assert(data@ =~= spec_draw_text_bytes(x, y, text@));
    data
}

/// Builds the load-tiles command record.
pub fn command_load_tiles(
    is_background: bool,
    tile_index: u16,
    tile_count: u16,
    tiles_data: Vec<u8>,
) -> (r: Vec<u8>)
    ensures
        r@ == spec_load_tiles_bytes(is_background, tile_index, tile_count, tiles_data@),
{
    let mut data = vec![
        1u8,
        if is_background { 1u8 } else { 0u8 },
        (tile_index / 256) as u8,
        (tile_index % 256) as u8,
        (tile_count / 256) as u8,
        (tile_count % 256) as u8,
    ];
    let mut i: usize = 0;
    while i < tiles_data.len()
        invariant
            i <= tiles_data@.len(),
            data@ =~= seq![
                1u8,
                if is_background { 1u8 } else { 0u8 },
                (tile_index / 256) as u8,
                (tile_index % 256) as u8,
                (tile_count / 256) as u8,
                (tile_count % 256) as u8,
            ] + tiles_data@.subrange(0, i as int),
        decreases tiles_data@.len() - i,
    {
        let b = tiles_data[i];
        data.push(b);
        i = i + 1;
    }
    assert(data@ =~= spec_load_tiles_bytes(is_background, tile_index, tile_count, tiles_data@));
    data
}

/// Builds the set-background-tiles command record.
pub fn command_set_background_tiles(
    tile_x: u8,
    tile_y: u8,
    tiles_w: u8,
    tiles_h: u8,
    tiles_indices: Vec<u8>,
) -> (r: Vec<u8>)
    ensures
        r@ == spec_set_background_tiles_bytes(tile_x, tile_y, tiles_w, tiles_h, tiles_indices@),
{
    let mut data = vec![2u8, tile_x, tile_y, tiles_w, tiles_h];
    let mut i: usize = 0;
    while i < tiles_indices.len()
        invariant
            i <= tiles_indices@.len(),
            data@ =~= seq![2u8, tile_x, tile_y, tiles_w, tiles_h] + tiles_indices@.subrange(
                0,
                i as int,
            ),
        decreases tiles_indices@.len() - i,
    {
        let b = tiles_indices[i];
        data.push(b);
        i = i + 1;
    }
    assert(data@ =~= spec_set_background_tiles_bytes(
        tile_x,
        tile_y,
        tiles_w,
        tiles_h,
        tiles_indices@,
    ));
    data
}

/// Builds the set-sprite-tile command record.
pub fn command_set_sprite_tile(sprite_index: u8, tile_index: u8) -> (r: Vec<u8>)
    ensures
        r@ == spec_set_sprite_tile_bytes(sprite_index, tile_index),
{
    let r = vec![3u8, sprite_index, tile_index];
    assert(r@ =~= spec_set_sprite_tile_bytes(sprite_index, tile_index));
    r
}

/// Builds the set-sprite-position command record.
pub fn command_set_sprite_position(sprite_index: u8, x: u8, y: u8) -> (r: Vec<u8>)
    ensures
        r@ == spec_set_sprite_position_bytes(sprite_index, x, y),
{
    let r = vec![4u8, sprite_index, x, y];
    assert(r@ =~= spec_set_sprite_position_bytes(sprite_index, x, y));
    r
}

/// The bytes of a command list, concatenated in order.
pub open spec fn concat_cmds(cmds: Seq<Vec<u8>>) -> Seq<u8>
    decreases cmds.len(),
{
    if cmds.len() == 0 {
        Seq::empty()
    } else {
        concat_cmds(cmds.drop_last()) + cmds.last()@
    }
}

/// Appending one command to a list appends its bytes to the concatenation.
pub proof fn lemma_concat_cmds_push(cmds: Seq<Vec<u8>>, cmd: Vec<u8>)
    ensures
        concat_cmds(cmds.push(cmd)) =~= concat_cmds(cmds) + cmd@,
{
    assert(cmds.push(cmd).drop_last() =~= cmds);
}

/// The outbound frame for one transport tick: the command count as a
/// two-byte big-endian prefix, then every command's bytes in order.
pub open spec fn spec_frame_bytes(cmds: Seq<Vec<u8>>) -> Seq<u8> {
    seq![(cmds.len() / 256) as u8, (cmds.len() % 256) as u8] + concat_cmds(cmds)
}

/// Assembles the outbound frame for a command list. The command count must
/// fit the 16-bit prefix.
pub fn frame_bytes(cmds: &Vec<Vec<u8>>) -> (r: Vec<u8>)
    requires
        cmds@.len() < 0x10000,
    ensures
        r@ == spec_frame_bytes(cmds@),
{
    let count: usize = cmds.len();
    let mut data = vec![(count / 256) as u8, (count % 256) as u8];
    let mut i: usize = 0;
    while i < count
        invariant
            i <= count,
            count == cmds@.len(),
            count < 0x10000,
            data@ =~= seq![(count / 256) as u8, (count % 256) as u8] + concat_cmds(
                cmds@.subrange(0, i as int),
            ),
        decreases count - i,
    {
        let cmd: &Vec<u8> = &cmds[i];
        let mut j: usize = 0;
        while j < cmd.len()
            invariant
                j <= cmd@.len(),
                cmd@ == cmds@[i as int]@,
                i < count,
                count == cmds@.len(),
                count < 0x10000,
                data@ =~= seq![(count / 256) as u8, (count % 256) as u8] + concat_cmds(
                    cmds@.subrange(0, i as int),
                ) + cmd@.subrange(0, j as int),
            decreases cmd@.len() - j,
        {
            let b = cmd[j];
            data.push(b);
            j = j + 1;
        }
        proof {
            lemma_concat_cmds_push(cmds@.subrange(0, i as int), cmds@[i as int]);
            assert(cmds@.subrange(0, i as int).push(cmds@[i as int]) =~= cmds@.subrange(
                0,
                i as int + 1,
            ));
            assert(cmd@.subrange(0, cmd@.len() as int) =~= cmd@);
        }
        i = i + 1;
    }
    proof {
        assert(cmds@.subrange(0, count as int) =~= cmds@);
    }
    assert(data@ =~= spec_frame_bytes(cmds@));
    data
}

} // verus!
