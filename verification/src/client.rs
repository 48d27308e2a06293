//! One display client: its driver, its double-buffered outbound command
//! queue and its input register.
//!
//! The embedding transport owns the socket and one writer loop per client;
//! it exchanges plain values with this module. Each simulation tick the main
//! loop appends commands to the client's unstaged queue (untouched by any
//! other thread) and then hands them over with [`Client::send_commands`]
//! into the shared [`StagedQueue`]; the writer loop turns the staged queue
//! into one wire frame with [`StagedQueue::make_frame`] and reports the last
//! input byte it read through [`Client::set_inputs`].

use vstd::prelude::*;

use crate::commands::ServerCommand;
use crate::driver::{Driver, DriverView, DrawError, GameBoyColorDriver, GameBoyDriver};
use crate::geom::{Screen, COORD_LIMIT};
use crate::sprite::Sprite;
use crate::tile::Tile;
use crate::color::Color;
use crate::driver::{lemma_plane_byte_bound, shade, spec_plane_byte, two_pow};
use crate::wire::{
    command_load_tiles, command_set_background_tiles, frame_bytes, spec_frame_bytes,
    spec_load_tiles_bytes, spec_set_background_tiles_bytes,
};

verus! {

/// One of the eight device buttons reported in the input byte.
#[derive(Debug, Clone, Copy, PartialEq, Eq, Structural)]
pub enum Button {
    Start,
    Select,
    B,
    A,
    Down,
    Up,
    Left,
    Right,
}

/// The bit a button occupies in the input byte: `Start` is the highest bit,
/// `Right` the lowest.
pub open spec fn spec_button_mask(button: Button) -> u8 {
    match button {
        Button::Start => 0x80u8,
        Button::Select => 0x40u8,
        Button::B => 0x20u8,
        Button::A => 0x10u8,
        Button::Down => 0x08u8,
        Button::Up => 0x04u8,
        Button::Left => 0x02u8,
        Button::Right => 0x01u8,
    }
}

/// The first byte a client sends identifies its hardware; no driver exists
/// for any other value.
#[derive(Debug, Clone, Copy, PartialEq, Eq, Structural)]
pub enum HandshakeError {
    UnknownSystem,
}

/// Selects the driver for a handshake byte: `0` is the monochrome 4-shade
/// variant, `1` the color-capable variant, anything else is unknown.
pub fn driver_for_system_id(system_id: u8) -> (r: Result<Driver, HandshakeError>)
    ensures
        system_id == 0 ==> (r matches Ok(d) && d@.gameboy && d@.wf() && d@.cache.len() == 0),
        system_id == 1 ==> (r matches Ok(d) && !d@.gameboy && d@.wf() && d@.cache.len() == 0),
        system_id >= 2 ==> (r matches Err(e) && e == HandshakeError::UnknownSystem),
{
    match system_id {
        0 => Ok(Driver::GameBoy(GameBoyDriver::new())),
        1 => Ok(Driver::GameBoyColor(GameBoyColorDriver::new())),
        _ => Err(HandshakeError::UnknownSystem),
    }
}

/// The staged half of a client's command queue: the buffer shared between
/// the simulation thread and the client's writer loop. The embedder holds
/// it under the client's mutex.
#[derive(Debug)]
pub struct StagedQueue {
    pub commands: Vec<Vec<u8>>,
}

impl StagedQueue {
    /// An empty staged queue.
    pub fn new() -> (q: Self)
        ensures
            q.commands@.len() == 0,
    {
        StagedQueue { commands: Vec::new() }
    }

    /// Drains the queue into one wire frame: the staged command count as a
    /// two-byte big-endian prefix, then every command's bytes in staging
    /// order. The count must fit the 16-bit prefix.
    pub fn make_frame(&mut self) -> (r: Vec<u8>)
        requires
            old(self).commands@.len() < 0x10000,
        ensures
            r@ == spec_frame_bytes(old(self).commands@),
            final(self).commands@.len() == 0,
    {
        let frame = frame_bytes(&self.commands);
        self.commands.clear();
        frame
    }
}

/// Mathematical content of a client: its identifier, its driver, the
/// unstaged command queue and the last input byte received.
#[verifier::ext_equal]
pub ghost struct ClientView {
    pub id: u8,
    pub driver: DriverView,
    pub unstaged: Seq<Seq<u8>>,
    pub inputs: u8,
}

/// One network endpoint: a driver, the unstaged command queue owned
/// exclusively by the simulation thread, and the input register's last
/// value. Identifiers are assigned by the connection acceptor and never
/// reused.
#[derive(Debug)]
pub struct Client {
    id: u8,
    pub driver: Driver,
    unstaged_commands: Vec<Vec<u8>>,
    inputs: u8,
}

impl View for Client {
    type V = ClientView;

    closed spec fn view(&self) -> ClientView {
        ClientView {
            id: self.id,
            driver: self.driver@,
            unstaged: self.unstaged_commands.deep_view(),
            inputs: self.inputs,
        }
    }
}

impl Client {
    pub open spec fn wf(self) -> bool {
        self@.driver.wf()
    }

    /// A freshly connected client: no buffered commands, no input yet.
    pub fn new(id: u8, driver: Driver) -> (c: Self)
        ensures
            c@.id == id,
            c@.driver == driver@,
            c@.unstaged =~~= Seq::<Seq<u8>>::empty(),
            c@.inputs == 0,
    {
        Client { id, driver, unstaged_commands: Vec::new(), inputs: 0 }
    }

    pub fn id(&self) -> (r: u8)
        ensures
            r == self@.id,
    {
        self.id
    }

    /// The client's screen placement, held by its driver.
    pub fn screen(&self) -> (s: &Screen)
        ensures
            *s == self@.driver.screen,
    {
        self.driver.screen()
    }

    /// Appends one ready-made command record to the unstaged queue.
    pub fn buffer_command(&mut self, command: Vec<u8>)
        ensures
            final(self)@ == (ClientView {
                unstaged: old(self)@.unstaged.push(command@),
                ..old(self)@
            }),
    {
        self.unstaged_commands.push(command);
        proof {
            assert(final(self)@.unstaged =~~= old(self)@.unstaged.push(command@));
            assert(final(self)@ =~~= (ClientView {
                unstaged: old(self)@.unstaged.push(command@),
                ..old(self)@
            }));
        }
    }

    /// Appends a list of command records to the unstaged queue, in order.
    fn buffer_commands(&mut self, commands: Vec<Vec<u8>>)
        ensures
            final(self)@ == (ClientView {
                unstaged: old(self)@.unstaged + commands.deep_view(),
                ..old(self)@
            }),
    {
        let ghost orig = commands.deep_view();
        let mut commands = commands;
        self.unstaged_commands.append(&mut commands);
        proof {
            assert(final(self)@.unstaged =~~= old(self)@.unstaged + orig);
            assert(final(self)@ =~~= (ClientView {
                unstaged: old(self)@.unstaged + orig,
                ..old(self)@
            }));
        }
    }

    /// Hands the whole unstaged queue over to the staged queue, preserving
    /// order, and clears the unstaged queue. Called once per tick by the
    /// main loop while it holds the client's mutex.
    pub fn send_commands(&mut self, staged: &mut StagedQueue)
        ensures
            final(staged).commands.deep_view() =~~= old(staged).commands.deep_view()
                + old(self)@.unstaged,
            final(self)@ == (ClientView { unstaged: Seq::empty(), ..old(self)@ }),
    {
        staged.commands.append(&mut self.unstaged_commands);
        proof {
            assert(final(self)@ =~~= (ClientView { unstaged: Seq::empty(), ..old(self)@ }));
        }
    }

    /// Stores the input byte the transport last read; the latest value
    /// wins.
    pub fn set_inputs(&mut self, inputs: u8)
        ensures
            final(self)@ == (ClientView { inputs, ..old(self)@ }),
    {
        self.inputs = inputs;
    }

    /// Whether a button is pressed in the last received input byte.
    pub fn button_pressed(&self, button: Button) -> (r: bool)
        ensures
            r == ((self@.inputs & spec_button_mask(button)) != 0),
    {
        match button {
            Button::Start => (self.inputs & 0x80) != 0,
            Button::Select => (self.inputs & 0x40) != 0,
            Button::B => (self.inputs & 0x20) != 0,
            Button::A => (self.inputs & 0x10) != 0,
            Button::Down => (self.inputs & 0x08) != 0,
            Button::Up => (self.inputs & 0x04) != 0,
            Button::Left => (self.inputs & 0x02) != 0,
            Button::Right => (self.inputs & 0x01) != 0,
        }
    }

    /// Applies a control command. A position command addressed to this
    /// client moves its screen and returns the new position, which the
    /// embedder persists in the attribute store; every other command leaves
    /// the client untouched.
    pub fn process_server_command(&mut self, command: &ServerCommand) -> (r: Option<(i64, i64)>)
        requires
            old(self).wf(),
            command matches ServerCommand::Pos { client_id, x, y } ==> -COORD_LIMIT <= *x
                <= COORD_LIMIT && -COORD_LIMIT <= *y <= COORD_LIMIT,
        ensures
            final(self).wf(),
            ({
                match *command {
                    ServerCommand::Pos { client_id, x, y } if client_id == old(self)@.id => {
                        &&& r == Some((x, y))
                        &&& final(self)@ == (ClientView {
                            driver: DriverView {
                                screen: Screen {
                                    pos: crate::geom::Point { x, y },
                                    ..old(self)@.driver.screen
                                },
                                ..old(self)@.driver
                            },
                            ..old(self)@
                        })
                    },
                    _ => r is None && final(self)@ == old(self)@,
                }
            }),
    {
        match command {
            ServerCommand::Pos { client_id, x, y } => {
                if self.id == *client_id {
                    self.driver.set_position(*x, *y);
                    proof {
                        assert(final(self)@.driver =~~= (DriverView {
                            screen: Screen {
                                pos: crate::geom::Point { x: *x, y: *y },
                                ..old(self)@.driver.screen
                            },
                            ..old(self)@.driver
                        }));
                    }
                    Some((*x, *y))
                } else {
                    None
                }
            },
            _ => None,
        }
    }

    /// Draws text on the client's screen; buffered, not yet sent.
    pub fn draw_text(&mut self, text: &str, x: u32, y: u32) -> (r: Result<(), DrawError>)
        requires
            old(self).wf(),
            text.is_ascii(),
            text@.len() <= 255,
        ensures
            final(self).wf(),
            old(self)@.driver.gameboy ==> (r is Ok && final(self)@ == (ClientView {
                unstaged: old(self)@.unstaged + seq![
                    crate::wire::spec_draw_text_bytes(x, y, text@),
                ],
                ..old(self)@
            })),
            !old(self)@.driver.gameboy ==> (r matches Err(e) && e == DrawError::Unsupported
                && final(self)@ == old(self)@),
    {
        match self.driver.draw_text(text, x, y) {
            Ok(commands) => {
                self.buffer_commands(commands);
                proof {
                    assert(final(self)@ =~~= (ClientView {
                        unstaged: old(self)@.unstaged + seq![
                            crate::wire::spec_draw_text_bytes(x, y, text@),
                        ],
                        ..old(self)@
                    }));
                }
                Ok(())
            },
            Err(e) => Err(e),
        }
    }

    /// Draws a tile at a local pixel position; buffered, not yet sent.
    pub fn draw_tile(&mut self, tile: &Tile, x: u8, y: u8) -> (r: Result<(), DrawError>)
        requires
            old(self).wf(),
            tile@.is_8x8(),
            crate::driver::cache_has(old(self)@.driver.cache, tile@) || old(
                self,
            )@.driver.cache.len() < 255,
        ensures
            final(self).wf(),
            old(self)@.driver.gameboy ==> (r is Ok && final(self)@ == (ClientView {
                driver: DriverView {
                    cache: crate::driver::spec_cache_after(old(self)@.driver.cache, tile@),
                    ..old(self)@.driver
                },
                unstaged: old(self)@.unstaged + crate::driver::spec_draw_tile_cmds(
                    old(self)@.driver.cache,
                    tile@,
                    x,
                    y,
                ),
                ..old(self)@
            })),
            !old(self)@.driver.gameboy ==> (r matches Err(e) && e == DrawError::Unsupported
                && final(self)@ == old(self)@),
    {
        match self.driver.draw_tile(tile, x, y) {
            Ok(commands) => {
                self.buffer_commands(commands);
                proof {
                    assert(final(self)@ =~~= (ClientView {
                        driver: DriverView {
                            cache: crate::driver::spec_cache_after(old(self)@.driver.cache, tile@),
                            ..old(self)@.driver
                        },
                        unstaged: old(self)@.unstaged + crate::driver::spec_draw_tile_cmds(
                            old(self)@.driver.cache,
                            tile@,
                            x,
                            y,
                        ),
                        ..old(self)@
                    }));
                }
                Ok(())
            },
            Err(e) => Err(e),
        }
    }

    /// Draws a sprite at a local pixel position; buffered, not yet sent.
    pub fn draw_sprite(&mut self, id: usize, sprite: &Sprite, x: u8, y: u8) -> (r: Result<
        (),
        DrawError,
    >)
        requires
            old(self).wf(),
            sprite@.tile.is_8x8(),
            crate::driver::cache_has(old(self)@.driver.cache, sprite@.tile) || old(
                self,
            )@.driver.cache.len() < 255,
        ensures
            final(self).wf(),
            old(self)@.driver.gameboy ==> (r is Ok && final(self)@ == (ClientView {
                driver: DriverView {
                    cache: crate::driver::spec_cache_after(old(self)@.driver.cache, sprite@.tile),
                    ..old(self)@.driver
                },
                unstaged: old(self)@.unstaged + crate::driver::spec_draw_sprite_cmds(
                    old(self)@.driver.cache,
                    sprite@.tile,
                    (id % 256) as u8,
                    x,
                    y,
                ),
                ..old(self)@
            })),
            !old(self)@.driver.gameboy ==> (r matches Err(e) && e == DrawError::Unsupported
                && final(self)@ == old(self)@),
    {
        match self.driver.draw_sprite(id, sprite, x, y) {
            Ok(commands) => {
                self.buffer_commands(commands);
                proof {
                    assert(final(self)@ =~~= (ClientView {
                        driver: DriverView {
                            cache: crate::driver::spec_cache_after(
                                old(self)@.driver.cache,
                                sprite@.tile,
                            ),
                            ..old(self)@.driver
                        },
                        unstaged: old(self)@.unstaged + crate::driver::spec_draw_sprite_cmds(
                            old(self)@.driver.cache,
                            sprite@.tile,
                            (id % 256) as u8,
                            x,
                            y,
                        ),
                        ..old(self)@
                    }));
                }
                Ok(())
            },
            Err(e) => Err(e),
        }
    }
}


/// The packed device bytes of the first 128 background tiles of a full
/// 160 x 144 pixel image, in tile-major order: the screen is cut into a
/// 20 x 18 grid of 8 x 8 tiles, and each tile packs into sixteen bytes,
/// two bit-plane bytes per pixel row, the high plane first.
pub open spec fn spec_image_tiles(pixels: Seq<Color>) -> Seq<u8> {
    Seq::new(
        2048,
        |i: int|
            {
                let t = i / 16;
                let ty = t / 20;
                let tx = t % 20;
                let r = i % 16;
                let py = r / 2;
                let base = (ty * 8 + py) * 160 + tx * 8;
                if r % 2 == 0 {
                    spec_plane_byte(pixels, base, false, 8) as u8
                } else {
                    spec_plane_byte(pixels, base, true, 8) as u8
                }
            },
    )
}

impl Client {
    /// Fills the whole screen with an image given as one 160 x 144
    /// row-major pixel buffer: packs the first 128 screen tiles into the
    /// device format, buffers one upload of them into background tile
    /// memory starting at index 0, and buffers their placement on the
    /// background grid. Bypasses the tile cache. Only the monochrome
    /// variant implements this.
    pub fn fill_screen_with_image(&mut self, pixels: &Vec<Color>) -> (r: Result<(), DrawError>)
        requires
            old(self).wf(),
            pixels@.len() == 23040,
        ensures
            final(self).wf(),
            old(self)@.driver.gameboy ==> (r is Ok && final(self)@ == (ClientView {
                unstaged: old(self)@.unstaged + seq![
                    spec_load_tiles_bytes(true, 0, 128, spec_image_tiles(pixels@)),
                    spec_set_background_tiles_bytes(
                        0,
                        0,
                        20,
                        18,
                        Seq::new(128, |k: int| k as u8),
                    ),
                ],
                ..old(self)@
            })),
            !old(self)@.driver.gameboy ==> (r matches Err(e) && e == DrawError::Unsupported
                && final(self)@ == old(self)@),
    {
        let supported = match &self.driver {
            Driver::GameBoy(_) => true,
            Driver::GameBoyColor(_) => false,
        };
        if !supported {
            return Err(DrawError::Unsupported);
        }
        let mut tiles_data: Vec<u8> = Vec::new();
        let mut t: usize = 0;
        while t < 128
            invariant
                t <= 128,
                pixels@.len() == 23040,
                tiles_data@ =~= spec_image_tiles(pixels@).subrange(0, 16 * t as int),
            decreases 128 - t,
        {
            let ty: usize = t / 20;
            let tx: usize = t % 20;
            let mut py: usize = 0;
            while py < 8
                invariant
                    py <= 8,
                    t < 128,
                    ty == t / 20,
                    tx == t % 20,
                    pixels@.len() == 23040,
                    tiles_data@ =~= spec_image_tiles(pixels@).subrange(
                        0,
                        16 * t as int + 2 * py as int,
                    ),
                decreases 8 - py,
            {
                let base: usize = (ty * 8 + py) * 160 + tx * 8;
                let mut hi: u8 = 0;
                let mut lo: u8 = 0;
                let mut x: usize = 0;
                while x < 8
                    invariant
                        x <= 8,
                        base == (ty * 8 + py) * 160 + tx * 8,
                        ty <= 6,
                        tx <= 19,
                        py < 8,
                        pixels@.len() == 23040,
                        hi as int == spec_plane_byte(pixels@, base as int, false, x as int),
                        lo as int == spec_plane_byte(pixels@, base as int, true, x as int),
                    decreases 8 - x,
                {
                    proof {
                        lemma_plane_byte_bound(pixels@, base as int, false, x as int);
                        lemma_plane_byte_bound(pixels@, base as int, true, x as int);
                        reveal_with_fuel(two_pow, 10);
                        assert(two_pow(7) == 128);
                    }
                    let c = pixels[base + x];
                    let s = shade(c);
                    hi = hi * 2 + s / 2;
                    lo = lo * 2 + s % 2;
                    x = x + 1;
                }
                proof {
                    lemma_plane_byte_bound(pixels@, base as int, false, 8);
                    lemma_plane_byte_bound(pixels@, base as int, true, 8);
                    reveal_with_fuel(two_pow, 10);
                    assert(two_pow(8) == 256);
                }
                tiles_data.push(hi);
                tiles_data.push(lo);
                proof {
                    let i0 = 16 * t as int + 2 * py as int;
                    assert(i0 / 16 == t as int && i0 % 16 == 2 * py as int) by (nonlinear_arith)
                        requires
                            0 <= py < 8,
                            0 <= t,
                            i0 == 16 * t as int + 2 * py as int,
                    ;
                    assert((i0 + 1) / 16 == t as int && (i0 + 1) % 16 == 2 * py as int + 1)
                        by (nonlinear_arith)
                        requires
                            0 <= py < 8,
                            0 <= t,
                            i0 == 16 * t as int + 2 * py as int,
                    ;
                    assert(spec_image_tiles(pixels@)[i0] == hi);
                    assert(spec_image_tiles(pixels@)[i0 + 1] == lo);
                    assert(tiles_data@ =~= spec_image_tiles(pixels@).subrange(
                        0,
                        16 * t as int + 2 * (py + 1),
                    ));
                }
                py = py + 1;
            }
            t = t + 1;
        }
        let mut indices: Vec<u8> = Vec::new();
        let mut k: usize = 0;
        while k < 128
            invariant
                k <= 128,
                indices@ =~= Seq::new(k as nat, |i: int| i as u8),
            decreases 128 - k,
        {
            indices.push(k as u8);
            k = k + 1;
        }
        proof {
            assert(tiles_data@ =~= spec_image_tiles(pixels@));
        }
        let cmd1 = command_load_tiles(true, 0, 128, tiles_data);
        let cmd2 = command_set_background_tiles(0, 0, 20, 18, indices);
        self.buffer_command(cmd1);
        self.buffer_command(cmd2);
        proof {
            assert(final(self)@ =~~= (ClientView {
                unstaged: old(self)@.unstaged + seq![
                    spec_load_tiles_bytes(true, 0, 128, spec_image_tiles(pixels@)),
                    spec_set_background_tiles_bytes(
                        0,
                        0,
                        20,
                        18,
                        Seq::new(128, |i: int| i as u8),
                    ),
                ],
                ..old(self)@
            }));
        }
        Ok(())
    }
}

// The double-buffered queue as a whole, across threads. The per-client
// mutex serializes the main loop's staging handoffs and the writer loop's
// drains into one sequence of operations; the model below replays any such
// sequence and shows that no command is ever lost or duplicated.

/// One serialized operation on a client's command queue: the main loop
/// buffers a command ([`Client::buffer_command`]), the main loop hands the
/// unstaged queue over ([`Client::send_commands`]), or the writer loop
/// drains the staged queue onto the wire ([`StagedQueue::make_frame`]).
pub ghost enum QueueOp {
    Buffer(Seq<u8>),
    Send,
    Drain,
}

/// The queue state the three operations act on: the unstaged and staged
/// buffers, and everything already written to the wire, in order.
#[verifier::ext_equal]
pub ghost struct QueueModel {
    pub unstaged: Seq<Seq<u8>>,
    pub staged: Seq<Seq<u8>>,
    pub sent: Seq<Seq<u8>>,
}

/// A fresh connection: all three parts empty.
pub open spec fn queue_init() -> QueueModel {
    QueueModel { unstaged: Seq::empty(), staged: Seq::empty(), sent: Seq::empty() }
}

/// The effect of one operation, exactly as the queue functions specify it.
pub open spec fn queue_step(m: QueueModel, op: QueueOp) -> QueueModel {
    match op {
        QueueOp::Buffer(c) => QueueModel { unstaged: m.unstaged.push(c), ..m },
        QueueOp::Send => QueueModel {
            unstaged: Seq::empty(),
            staged: m.staged + m.unstaged,
            ..m
        },
        QueueOp::Drain => QueueModel { staged: Seq::empty(), sent: m.sent + m.staged, ..m },
    }
}

/// The queue state after a serialized operation sequence.
pub open spec fn queue_run(ops: Seq<QueueOp>) -> QueueModel
    decreases ops.len(),
{
    if ops.len() == 0 {
        queue_init()
    } else {
        queue_step(queue_run(ops.drop_last()), ops.last())
    }
}

/// The commands buffered over an operation sequence, in order.
pub open spec fn queue_buffered(ops: Seq<QueueOp>) -> Seq<Seq<u8>>
    decreases ops.len(),
{
    if ops.len() == 0 {
        Seq::empty()
    } else {
        queue_buffered(ops.drop_last()) + (match ops.last() {
            QueueOp::Buffer(c) => seq![c],
            _ => Seq::empty(),
        })
    }
}

/// Queue atomicity: under any interleaving of buffering, staging handoffs
/// and wire drains, nothing is lost and nothing is duplicated. What has
/// reached the wire, what sits staged and what is still unstaged always
/// reassemble, in that order, to exactly the commands buffered so far.
pub proof fn lemma_queue_conservation(ops: Seq<QueueOp>)
    ensures
        ({
            let m = queue_run(ops);
            m.sent + m.staged + m.unstaged =~~= queue_buffered(ops)
        }),
    decreases ops.len(),
{
    if ops.len() == 0 {
    } else {
        lemma_queue_conservation(ops.drop_last());
    }
}

/// Once a final tick has handed over and drained everything, the commands
/// on the wire are exactly the commands buffered, in order; in particular
/// the command bytes transmitted (the frames minus their count prefixes)
/// are exactly the buffered commands' bytes.
pub proof fn lemma_queue_all_transmitted(ops: Seq<QueueOp>)
    ensures
        ({
            let m = queue_run(ops + seq![QueueOp::Send, QueueOp::Drain]);
            &&& m.sent =~~= queue_buffered(ops)
            &&& m.staged =~~= Seq::<Seq<u8>>::empty()
            &&& m.unstaged =~~= Seq::<Seq<u8>>::empty()
        }),
{
    let closed_ops = ops + seq![QueueOp::Send, QueueOp::Drain];
    let after_send = ops + seq![QueueOp::Send];
    lemma_queue_conservation(ops);
    assert(closed_ops.drop_last() =~= after_send);
    assert(closed_ops.last() == QueueOp::Drain);
    assert(after_send.drop_last() =~= ops);
    assert(after_send.last() == QueueOp::Send);
    assert(queue_run(after_send) == queue_step(queue_run(ops), QueueOp::Send));
    assert(queue_run(closed_ops) == queue_step(queue_run(after_send), QueueOp::Drain));
    let m0 = queue_run(ops);
    let m = queue_run(closed_ops);
    assert(m.sent =~~= m0.sent + m0.staged + m0.unstaged);
    assert(m.sent =~~= queue_buffered(ops));
}

} // verus!
