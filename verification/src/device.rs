//! A mathematical model of the receiving device: how a stream of wire
//! command records changes the device's visible state. The engine's
//! idempotence law is stated against this model — two command streams are
//! equivalent when they drive the device into the same state.

use vstd::prelude::*;

verus! {

/// The device-visible state: tile memory, the background tile grid, the
/// sprite slots' tile assignments and positions, and the text records
/// received, in order.
#[verifier::ext_equal]
pub ghost struct DeviceState {
    pub tiles: Map<int, Seq<u8>>,
    pub background: Map<(int, int), int>,
    pub sprite_tiles: Map<int, int>,
    pub sprite_positions: Map<int, (int, int)>,
    pub texts: Seq<Seq<u8>>,
}

/// The effect of one command record on the device, by opcode: 0 records
/// text, 1 loads packed tile data (sixteen bytes per tile) into tile
/// memory starting at a big-endian index, 2 writes a rectangle of the
/// background tile grid, 3 assigns a sprite slot's tile, 4 moves a sprite
/// slot. Every write is last-wins. A malformed record changes nothing;
/// the device does not detect it.
pub open spec fn apply_cmd(d: DeviceState, cmd: Seq<u8>) -> DeviceState {
    if cmd.len() == 0 {
        d
    } else if cmd[0] == 0u8 {
        DeviceState { texts: d.texts.push(cmd), ..d }
    } else if cmd[0] == 1u8 && cmd.len() >= 6 {
        let first = cmd[2] * 256 + cmd[3];
        let count = cmd[4] * 256 + cmd[5];
        DeviceState {
            tiles: Map::new(
                |i: int| d.tiles.dom().contains(i) || (first <= i < first + count),
                |i: int|
                    if first <= i < first + count {
                        cmd.subrange(6 + 16 * (i - first), 6 + 16 * (i - first) + 16)
                    } else {
                        d.tiles[i]
                    },
            ),
            ..d
        }
    } else if cmd[0] == 2u8 && cmd.len() >= 5 {
        let gx = cmd[1] as int;
        let gy = cmd[2] as int;
        let w = cmd[3] as int;
        let h = cmd[4] as int;
        let indices = cmd.subrange(5, cmd.len() as int);
        DeviceState {
            background: Map::new(
                |cell: (int, int)|
                    d.background.dom().contains(cell) || (gx <= cell.0 < gx + w && gy <= cell.1
                        < gy + h && (cell.1 - gy) * w + (cell.0 - gx) < indices.len()),
                |cell: (int, int)|
                    if gx <= cell.0 < gx + w && gy <= cell.1 < gy + h && (cell.1 - gy) * w + (
                    cell.0 - gx) < indices.len() {
                        indices[(cell.1 - gy) * w + (cell.0 - gx)] as int
                    } else {
                        d.background[cell]
                    },
            ),
            ..d
        }
    } else if cmd[0] == 3u8 && cmd.len() == 3 {
        DeviceState { sprite_tiles: d.sprite_tiles.insert(cmd[1] as int, cmd[2] as int), ..d }
    } else if cmd[0] == 4u8 && cmd.len() == 4 {
        DeviceState {
            sprite_positions: d.sprite_positions.insert(
                cmd[1] as int,
                (cmd[2] as int, cmd[3] as int),
            ),
            ..d
        }
    } else {
        d
    }
}

/// The device state after a whole command list, applied in order.
pub open spec fn apply_cmds(d: DeviceState, cmds: Seq<Seq<u8>>) -> DeviceState
    decreases cmds.len(),
{
    if cmds.len() == 0 {
        d
    } else {
        apply_cmd(apply_cmds(d, cmds.drop_last()), cmds.last())
    }
}

/// Applying a concatenation applies the two parts in turn.
pub proof fn lemma_apply_cmds_concat(d: DeviceState, a: Seq<Seq<u8>>, b: Seq<Seq<u8>>)
    ensures
        apply_cmds(d, a + b) == apply_cmds(apply_cmds(d, a), b),
    decreases b.len(),
{
    if b.len() == 0 {
        assert(a + b =~= a);
    } else {
        assert((a + b).drop_last() =~= a + b.drop_last());
        assert((a + b).last() == b.last());
        lemma_apply_cmds_concat(d, a, b.drop_last());
    }
}

/// Applying a two-command list applies the two commands in turn.
pub proof fn lemma_apply_two(d: DeviceState, c1: Seq<u8>, c2: Seq<u8>)
    ensures
        apply_cmds(d, seq![c1, c2]) == apply_cmd(apply_cmd(d, c1), c2),
{
    let two = seq![c1, c2];
    assert(two.last() == c2);
    assert(two.drop_last() =~= seq![c1]);
    assert(seq![c1].last() == c1);
    assert(seq![c1].drop_last() =~= Seq::<Seq<u8>>::empty());
    assert(apply_cmds(d, Seq::<Seq<u8>>::empty()) == d);
    assert(apply_cmds(d, seq![c1]) == apply_cmd(apply_cmds(d, seq![c1].drop_last()), c1));
    assert(apply_cmds(d, two) == apply_cmd(apply_cmds(d, two.drop_last()), c2));
}

} // verus!
