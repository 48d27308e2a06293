//! Demo application state machines that drive the engine: a moving-point
//! test pattern and a progressive screen fill. They hold no I/O and no
//! clock; the embedder hands them elapsed time and the client list.

use vstd::prelude::*;

use crate::client::{Client, ClientView};
use crate::color::Color;
use crate::commands::ClientCommand;
use crate::driver::{cache_has, spec_cache_after, spec_draw_tile_cmds, DriverView};
use crate::tile::{Tile, TileView};
use crate::world::client_views;

verus! {

/// A cursor that sweeps the first device variant's screen, drawing one
/// point per tick on every client.
#[derive(Debug)]
pub struct TestApp {
    pub x: u8,
    pub y: u8,
}

/// The cursor's next x coordinate: one step right, wrapping at a byte.
pub open spec fn spec_test_next_x(x: u8) -> u8 {
    ((x + 1) % 256) as u8
}

/// The cursor position after one tick: past column 159 it returns to the
/// left edge and moves one row down, wrapping at a byte.
pub open spec fn spec_test_step(x: u8, y: u8) -> (u8, u8) {
    let x2 = spec_test_next_x(x);
    if x2 > 159 {
        (0u8, ((y + 1) % 256) as u8)
    } else {
        (x2, y)
    }
}

impl TestApp {
    /// The cursor starts at the origin.
    pub fn new() -> (a: Self)
        ensures
            a.x == 0,
            a.y == 0,
    {
        Self { x: 0, y: 0 }
    }

    /// Advances the cursor one step and buffers a draw-point command for it
    /// on every client.
    pub fn update(&mut self, clients: &mut Vec<Client>)
        ensures
            (final(self).x, final(self).y) == spec_test_step(old(self).x, old(self).y),
            client_views(final(clients)@) =~~= Seq::new(
                old(clients)@.len(),
                |j: int|
                    ClientView {
                        unstaged: old(clients)@[j]@.unstaged.push(
                            ClientCommand::DrawPoint(final(self).x, final(self).y).spec_to_bytes(),
                        ),
                        ..old(clients)@[j]@
                    },
            ),
    {
        self.x = self.x.wrapping_add(1);
        if self.x > 159 {
            self.x = 0;
            self.y = self.y.wrapping_add(1);
        }
        let ghost nx = self.x;
        let ghost ny = self.y;
        proof {
            assert((nx, ny) == spec_test_step(old(self).x, old(self).y));
        }
        let n = clients.len();
        let mut j: usize = 0;
        while j < n
            invariant
                j <= n,
                n == clients@.len(),
                n == old(clients)@.len(),
                self.x == nx,
                self.y == ny,
                forall|k: int| j <= k < n ==> (#[trigger] clients@[k])@ == old(clients)@[k]@,
                forall|k: int|
                    0 <= k < j ==> (#[trigger] clients@[k])@ == (ClientView {
                        unstaged: old(clients)@[k]@.unstaged.push(
                            ClientCommand::DrawPoint(nx, ny).spec_to_bytes(),
                        ),
                        ..old(clients)@[k]@
                    }),
            decreases n - j,
        {
            let command = ClientCommand::DrawPoint(self.x, self.y);
            let bytes = command.to_bytes();
            let client = vstd::std_specs::vec::vec_index_mut(clients, j);
            client.buffer_command(bytes);
            j = j + 1;
        }
        proof {
            assert(client_views(clients@) =~~= Seq::new(
                old(clients)@.len(),
                |k: int|
                    ClientView {
                        unstaged: old(clients)@[k]@.unstaged.push(
                            ClientCommand::DrawPoint(nx, ny).spec_to_bytes(),
                        ),
                        ..old(clients)@[k]@
                    },
            ));
        }
    }
}

/// The clearing tile: an 8 x 8 tile of pure white.
pub open spec fn spec_light_tile() -> TileView {
    TileView {
        width: 8,
        height: 8,
        pixels: Seq::new(64, |i: int| Color { r: 0xFF, g: 0xFF, b: 0xFF }),
    }
}

/// The filling tile: an 8 x 8 tile of pure black.
pub open spec fn spec_dark_tile() -> TileView {
    TileView { width: 8, height: 8, pixels: Seq::new(64, |i: int| Color { r: 0, g: 0, b: 0 }) }
}

/// One tile drawn on a client at a local pixel position, exactly as
/// `Client::draw_tile` specifies it: the tile is resolved against the
/// cache and the draw commands are appended to the unstaged queue.
pub open spec fn spec_fill_draw(c: ClientView, t: TileView, px: u8, py: u8) -> ClientView {
    ClientView {
        driver: DriverView { cache: spec_cache_after(c.driver.cache, t), ..c.driver },
        unstaged: c.unstaged + spec_draw_tile_cmds(c.driver.cache, t, px, py),
        ..c
    }
}

/// A new client's screen after the first `k` clearing draws: the clearing
/// tile placed on the grid cells in row-major order, cell `k - 1` at
/// column `(k - 1) % max_x` of row `(k - 1) / max_x`.
pub open spec fn spec_clear_step(c: ClientView, max_x: int, k: int) -> ClientView
    decreases k,
{
    if k <= 0 {
        c
    } else {
        let prev = spec_clear_step(c, max_x, k - 1);
        let tx = (k - 1) % max_x;
        let ty = (k - 1) / max_x;
        spec_fill_draw(prev, spec_light_tile(), (8 * tx) as u8, (8 * ty) as u8)
    }
}

/// A client and its fill state after spending the accumulated time, one
/// tile per delay: each step places the pass's tile (dark when filling,
/// light when clearing) on the next grid cell; once a pass covers the
/// grid, the next pass restarts with the other tile.
pub open spec fn spec_fill_run(
    c: ClientView,
    filled: int,
    filling: bool,
    time: int,
    delay: int,
    max_count: int,
    max_x: int,
) -> (ClientView, int, bool, int)
    decreases time,
{
    if time > delay && delay > 0 {
        let f0 = if filled >= max_count {
            0int
        } else {
            filled
        };
        let fl = if filled >= max_count {
            !filling
        } else {
            filling
        };
        let t = if fl {
            spec_dark_tile()
        } else {
            spec_light_tile()
        };
        let tx = if max_x > 0 {
            f0 % max_x
        } else {
            0int
        };
        let ty = if max_x > 0 {
            f0 / max_x
        } else {
            0int
        };
        let px = if tx < 32 {
            8 * tx
        } else {
            0int
        };
        let py = if ty < 32 {
            8 * ty
        } else {
            0int
        };
        let c2 = spec_fill_draw(c, t, px as u8, py as u8);
        spec_fill_run(c2, f0 + 1, fl, time - delay, delay, max_count, max_x)
    } else {
        (c, filled, filling, time)
    }
}

/// Whether a client list holds a client with this id.
pub open spec fn spec_id_among(cs: Seq<Client>, id: u8) -> bool {
    exists|j: int| 0 <= j < cs.len() && cs[j]@.id == id
}

/// The outcome of one fill update for one client: a newly seen client is
/// cleared over the whole grid first, then the fill advances by the
/// elapsed time from the client's recorded state (a fresh state for a new
/// client).
pub open spec fn spec_fill_outcome(app: FillScreensApp, c0: ClientView, dt: int) -> (
    ClientView,
    int,
    bool,
    int,
) {
    let max_x = c0.driver.screen.res_x as int / 8;
    let max_count = max_x * (c0.driver.screen.res_y as int / 8);
    let entry0 = if app.knows_client(c0.id) {
        app.spec_entry(c0.id)
    } else {
        (0int, true, 0int)
    };
    let cleared = if app.knows_client(c0.id) {
        c0
    } else {
        spec_clear_step(c0, max_x, max_count)
    };
    spec_fill_run(cleared, entry0.0, entry0.1, entry0.2 + dt, 100, max_count, max_x)
}

/// Per-client fill progress: how many tiles are placed, whether the pass
/// fills or clears, and the time budget not yet spent.
#[derive(Debug)]
pub struct FillInfo {
    pub filled_tiles: usize,
    pub filling: bool,
    pub time_since_last_tile_ms: u64,
}

/// Progressively fills every client's screen with dark tiles, then clears
/// it again, one tile per fixed delay.
#[derive(Debug)]
pub struct FillScreensApp {
    clients_info: Vec<(u8, FillInfo)>,
    new_tile_delay_ms: u64,
}

impl FillScreensApp {
    /// Per-client bookkeeping: one entry per client id, each within the
    /// largest possible tile grid and never owing more than one delay of
    /// time.
    pub closed spec fn wf(self) -> bool {
        &&& self.new_tile_delay_ms == 100
        &&& forall|i: int|
            0 <= i < self.clients_info@.len() ==> {
                &&& (#[trigger] self.clients_info@[i]).1.filled_tiles <= 1024
                &&& self.clients_info@[i].1.time_since_last_tile_ms <= 100
            }
        &&& forall|a: int, b: int|
            0 <= a < b < self.clients_info@.len() ==> (#[trigger] self.clients_info@[a]).0 != (
            #[trigger] self.clients_info@[b]).0
    }

    /// Whether the app has seen (and cleared) the client with this id.
    pub closed spec fn knows_client(self, id: u8) -> bool {
        exists|i: int| 0 <= i < self.clients_info@.len() && self.clients_info@[i].0 == id
    }

    /// The recorded fill state of a known client: tiles placed this pass,
    /// whether the pass fills or clears, and the time budget not yet
    /// spent, in milliseconds.
    pub closed spec fn spec_entry(self, id: u8) -> (int, bool, int) {
        let i = choose|i: int|
            0 <= i < self.clients_info@.len() && self.clients_info@[i].0 == id;
        (
            self.clients_info@[i].1.filled_tiles as int,
            self.clients_info@[i].1.filling,
            self.clients_info@[i].1.time_since_last_tile_ms as int,
        )
    }

    /// A fresh app: no client seen yet, one tile per 100 ms.
    pub fn new() -> (a: Self)
        ensures
            a.wf(),
            forall|id: u8| !a.knows_client(id),
    {
        Self { clients_info: Vec::new(), new_tile_delay_ms: 100 }
    }

    /// The position of a client's entry, if the client has been seen.
    fn find_info(&self, id: u8) -> (r: Option<usize>)
        ensures
            match r {
                Some(i) => i < self.clients_info@.len() && self.clients_info@[i as int].0 == id,
                None => forall|i: int|
                    0 <= i < self.clients_info@.len() ==> (#[trigger] self.clients_info@[i]).0
                        != id,
            },
    {
        let n = self.clients_info.len();
        let mut i: usize = 0;
        while i < n
            invariant
                i <= n,
                n == self.clients_info@.len(),
                forall|k: int| 0 <= k < i ==> (#[trigger] self.clients_info@[k]).0 != id,
            decreases n - i,
        {
            if self.clients_info[i].0 == id {
                return Some(i);
            }
            i = i + 1;
        }
        None
    }

    /// Advances every client's fill by the elapsed time: a newly seen
    /// client is recorded and cleared tile by tile first; then one tile is
    /// placed (or removed, once a pass completes) per delay of accumulated
    /// time. Buffers draw-tile commands; the embedder sends them later.
    /// Client ids are unique (they come from a counter that never
    /// repeats), clients are of the drawing variant with two free cache
    /// slots, and the elapsed time fits the time budget.
    pub fn update(&mut self, dt_ms: u64, clients: &mut Vec<Client>) -> (r: Result<(), crate::driver::DrawError>)
        requires
            old(self).wf(),
            dt_ms <= 0xFFFF_FFFF,
            forall|j: int, k: int|
                0 <= j < k < old(clients)@.len() ==> (#[trigger] old(clients)@[j])@.id != (
                #[trigger] old(clients)@[k])@.id,
            forall|j: int|
                0 <= j < old(clients)@.len() ==> {
                    let c = (#[trigger] old(clients)@[j])@;
                    &&& c.driver.wf()
                    &&& c.driver.gameboy
                    &&& c.driver.cache.len() + 2 <= 255
                },
        ensures
            final(self).wf(),
            r is Ok,
            final(clients)@.len() == old(clients)@.len(),
            forall|j: int|
                0 <= j < old(clients)@.len() ==> final(self).knows_client(
                    (#[trigger] old(clients)@[j])@.id,
                ),
            forall|id: u8|
                old(self).knows_client(id) ==> final(self).knows_client(id),
            forall|j: int|
                0 <= j < old(clients)@.len() ==> {
                    let c0 = (#[trigger] old(clients)@[j])@;
                    let run = spec_fill_outcome(*old(self), c0, dt_ms as int);
                    &&& final(clients)@[j]@ == run.0
                    &&& final(self).spec_entry(c0.id) == (run.1, run.2, run.3)
                },
            forall|id: u8|
                old(self).knows_client(id) && !spec_id_among(old(clients)@, id)
                    ==> final(self).spec_entry(id) == old(self).spec_entry(id),
    {
        let dark = Tile::filled(8, 8, Color::rgb(0x00, 0x00, 0x00));
        let light = Tile::filled(8, 8, Color::rgb(0xFF, 0xFF, 0xFF));
        proof {
            assert(dark@ =~~= spec_dark_tile());
            assert(light@ =~~= spec_light_tile());
        }
        let n = clients.len();
        let mut j: usize = 0;
        while j < n
            invariant
                j <= n,
                self.wf(),
                old(self).wf(),
                dt_ms <= 0xFFFF_FFFF,
                forall|id: u8| old(self).knows_client(id) ==> self.knows_client(id),
                forall|k: int|
                    0 <= k < j ==> self.knows_client((#[trigger] old(clients)@[k])@.id),
                n == clients@.len(),
                n == old(clients)@.len(),
                dark@.is_8x8(),
                light@.is_8x8(),
                dark@ == spec_dark_tile(),
                light@ == spec_light_tile(),
                forall|j2: int, k2: int|
                    0 <= j2 < k2 < n ==> (#[trigger] old(clients)@[j2])@.id != (
                    #[trigger] old(clients)@[k2])@.id,
                forall|k: int|
                    0 <= k < old(clients)@.len() ==> {
                        let c = (#[trigger] old(clients)@[k])@;
                        &&& c.driver.wf()
                        &&& c.driver.gameboy
                        &&& c.driver.cache.len() + 2 <= 255
                    },
                forall|k: int| j <= k < n ==> (#[trigger] clients@[k])@ == old(clients)@[k]@,
                forall|k: int|
                    0 <= k < j ==> {
                        let c0 = (#[trigger] old(clients)@[k])@;
                        let run = spec_fill_outcome(*old(self), c0, dt_ms as int);
                        &&& clients@[k]@ == run.0
                        &&& self.spec_entry(c0.id) == (run.1, run.2, run.3)
                    },
                forall|id: u8|
                    old(self).knows_client(id) && (forall|k2: int|
                        #![auto]
                        0 <= k2 < j ==> old(clients)@[k2]@.id != id) ==> self.knows_client(id)
                        && self.spec_entry(id) == old(self).spec_entry(id),
                forall|id: u8|
                    self.knows_client(id) ==> old(self).knows_client(id) || (exists|k2: int|
                        0 <= k2 < j && (#[trigger] old(clients)@[k2])@.id == id),
            decreases n - j,
        {
            let ghost self0 = *self;
            let client = vstd::std_specs::vec::vec_index_mut(clients, j);
            let id = client.id();
            let ghost c0 = old(clients)@[j as int]@;
            let ghost had_dark = cache_has(c0.driver.cache, dark@);
            let ghost had_light = cache_has(c0.driver.cache, light@);
            let ghost entry0 = if old(self).knows_client(c0.id) {
                old(self).spec_entry(c0.id)
            } else {
                (0int, true, 0int)
            };
            let res_x = client.screen().res_x;
            let res_y = client.screen().res_y;
            let max_tile_x: usize = res_x / 8;
            let max_tile_y: usize = res_y / 8;
            let ghost mx = max_tile_x as int;
            let ghost my = max_tile_y as int;
            proof {
                assert(max_tile_x * max_tile_y <= 32 * 32) by (nonlinear_arith)
                    requires
                        0 <= max_tile_x <= 32,
                        0 <= max_tile_y <= 32,
                ;
            }
            let max_tile_count: usize = max_tile_x * max_tile_y;
            let ghost max_count_i = max_tile_count as int;
            let entry_index: usize;
            match self.find_info(id) {
                Some(i) => {
                    entry_index = i;
                    proof {
                        assert(self.knows_client(id)) by {
                            assert(self.clients_info@[i as int].0 == id);
                        }
                        assert(old(self).knows_client(id)) by {
                            if !old(self).knows_client(id) {
                                let k2 = choose|k2: int|
                                    0 <= k2 < j && old(clients)@[k2]@.id == id;
                                assert(old(clients)@[k2]@.id != old(clients)@[j as int]@.id);
                            }
                        }
                        lemma_entry_at(*self, i as int);
                        assert(self.spec_entry(id) == old(self).spec_entry(id));
                        assert(self.clients_info@[entry_index as int].1.filled_tiles as int
                            == entry0.0);
                        assert(self.clients_info@[entry_index as int].1.filling == entry0.1);
                        assert(self.clients_info@[
                            entry_index as int
                        ].1.time_since_last_tile_ms as int == entry0.2);
                        assert(client@ == (if old(self).knows_client(c0.id) {
                            c0
                        } else {
                            spec_clear_step(c0, mx, max_count_i)
                        }));
                    }
                },
                None => {
                    proof {
                        assert(!self.knows_client(id));
                        assert(!old(self).knows_client(id));
                    }
                    // A new client: remember it and clear its screen.
                    entry_index = self.clients_info.len();
                    self.clients_info.push(
                        (
                            id,
                            FillInfo { filled_tiles: 0, filling: true, time_since_last_tile_ms: 0 },
                        ),
                    );
                    let mut ty: usize = 0;
                    while ty < max_tile_y
                        invariant
                            ty <= max_tile_y,
                            max_tile_y <= 32,
                            max_tile_x <= 32,
                            mx == max_tile_x as int,
                            light@.is_8x8(),
                            dark@.is_8x8(),
                            light@ == spec_light_tile(),
                            client.wf(),
                            client@.driver.gameboy,
                            client@ == spec_clear_step(c0, mx, ty as int * mx),
                            client@.id == c0.id,
                            client@.inputs == c0.inputs,
                            client@.driver.screen == c0.driver.screen,
                            client@.driver.cache.len() <= c0.driver.cache.len() + (if cache_has(
                                client@.driver.cache,
                                light@,
                            ) && !had_light {
                                1int
                            } else {
                                0int
                            }) + (if cache_has(client@.driver.cache, dark@) && !had_dark {
                                1int
                            } else {
                                0int
                            }),
                            c0.driver.cache.len() + 2 <= 255,
                            had_light == cache_has(c0.driver.cache, light@),
                            had_dark == cache_has(c0.driver.cache, dark@),
                            had_light ==> cache_has(client@.driver.cache, light@),
                            had_dark ==> cache_has(client@.driver.cache, dark@),
                            c0.unstaged.is_prefix_of(client@.unstaged),
                        decreases max_tile_y - ty,
                    {
                        let mut tx: usize = 0;
                        while tx < max_tile_x
                            invariant
                                tx <= max_tile_x,
                                max_tile_x <= 32,
                                ty < max_tile_y,
                                max_tile_y <= 32,
                                mx == max_tile_x as int,
                                light@.is_8x8(),
                                dark@.is_8x8(),
                                light@ == spec_light_tile(),
                                client.wf(),
                                client@.driver.gameboy,
                                client@ == spec_clear_step(c0, mx, ty as int * mx + tx as int),
                                client@.id == c0.id,
                                client@.inputs == c0.inputs,
                                client@.driver.screen == c0.driver.screen,
                                client@.driver.cache.len() <= c0.driver.cache.len() + (
                                if cache_has(client@.driver.cache, light@) && !had_light {
                                    1int
                                } else {
                                    0int
                                }) + (if cache_has(client@.driver.cache, dark@) && !had_dark {
                                    1int
                                } else {
                                    0int
                                }),
                                c0.driver.cache.len() + 2 <= 255,
                                had_light == cache_has(c0.driver.cache, light@),
                                had_dark == cache_has(c0.driver.cache, dark@),
                                had_light ==> cache_has(client@.driver.cache, light@),
                                had_dark ==> cache_has(client@.driver.cache, dark@),
                                c0.unstaged.is_prefix_of(client@.unstaged),
                            decreases max_tile_x - tx,
                        {
                            let ghost before = client@;
                            match client.draw_tile(&light, (tx * 8) as u8, (ty * 8) as u8) {
                                Ok(_) => {},
                                Err(_) => {
                                    proof {
                                        assert(false);
                                    }
                                },
                            }
                            proof {
                                lemma_fill_draw_step_two(before, client@, light@, dark@, c0);
                                let k = ty as int * mx + tx as int;
                                vstd::arithmetic::div_mod::lemma_fundamental_div_mod_converse(
                                    k,
                                    mx,
                                    ty as int,
                                    tx as int,
                                );
                                assert(client@ =~~= spec_clear_step(c0, mx, k + 1));
                            }
                            tx = tx + 1;
                        }
                        proof {
                            assert((ty as int + 1) * mx == ty as int * mx + mx)
                                by (nonlinear_arith);
                        }
                        ty = ty + 1;
                    }
                    proof {
                        assert(my * mx == mx * my) by (nonlinear_arith);
                        assert(client@ == spec_clear_step(c0, mx, max_count_i));
                        assert(client@ == (if old(self).knows_client(c0.id) {
                            c0
                        } else {
                            spec_clear_step(c0, mx, max_count_i)
                        }));
                        assert(self.clients_info@[entry_index as int].0 == id);
                        assert(self.clients_info@[entry_index as int].1.filled_tiles as int
                            == entry0.0);
                        assert(self.clients_info@[entry_index as int].1.filling == entry0.1);
                        assert(self.clients_info@[
                            entry_index as int
                        ].1.time_since_last_tile_ms as int == entry0.2);
                    }
                },
            }
            let ghost cleared_c = client@;
            let ghost run = spec_fill_run(
                cleared_c,
                entry0.0,
                entry0.1,
                entry0.2 + dt_ms,
                100,
                max_count_i,
                mx,
            );
            // Spend the accumulated time, one tile per delay.
            proof {
                assert(self.wf());
                assert(self.clients_info@[entry_index as int].1.time_since_last_tile_ms <= 100);
                assert(self.clients_info@[entry_index as int].1.filled_tiles <= 1024);
            }
            let info_ref = vstd::std_specs::vec::vec_index_mut(&mut self.clients_info, entry_index);
            let mut filled: usize = info_ref.1.filled_tiles;
            let mut filling: bool = info_ref.1.filling;
            let mut time_ms: u64 = info_ref.1.time_since_last_tile_ms + dt_ms;
            let delay: u64 = 100;
            while time_ms > delay
                invariant
                    filled <= 1024,
                    max_tile_count <= 1024,
                    max_tile_x <= 32,
                    max_tile_y <= 32,
                    mx == max_tile_x as int,
                    max_count_i == max_tile_count as int,
                    delay == 100,
                    dark@.is_8x8(),
                    light@.is_8x8(),
                    dark@ == spec_dark_tile(),
                    light@ == spec_light_tile(),
                    client.wf(),
                    client@.driver.gameboy,
                    client@.id == c0.id,
                    client@.inputs == c0.inputs,
                    client@.driver.screen == c0.driver.screen,
                    run == spec_fill_run(
                        client@,
                        filled as int,
                        filling,
                        time_ms as int,
                        100,
                        max_count_i,
                        mx,
                    ),
                    client@.driver.cache.len() <= c0.driver.cache.len() + (if cache_has(
                        client@.driver.cache,
                        light@,
                    ) && !had_light {
                        1int
                    } else {
                        0int
                    }) + (if cache_has(client@.driver.cache, dark@) && !had_dark {
                        1int
                    } else {
                        0int
                    }),
                    c0.driver.cache.len() + 2 <= 255,
                    had_light == cache_has(c0.driver.cache, light@),
                    had_dark == cache_has(c0.driver.cache, dark@),
                    had_light ==> cache_has(client@.driver.cache, light@),
                    had_dark ==> cache_has(client@.driver.cache, dark@),
                    c0.unstaged.is_prefix_of(client@.unstaged),
                decreases time_ms,
            {
                let ghost filled_pre = filled as int;
                let ghost filling_pre = filling;
                let ghost time_pre = time_ms as int;
                let ghost client_pre = client@;
                if filled >= max_tile_count {
                    filled = 0;
                    filling = !filling;
                }
                let tile_x: usize = if max_tile_x > 0 {
                    filled % max_tile_x
                } else {
                    0
                };
                let tile_y: usize = if max_tile_x > 0 {
                    filled / max_tile_x
                } else {
                    0
                };
                let px: u8 = if tile_x < 32 {
                    (tile_x * 8) as u8
                } else {
                    0
                };
                let py: u8 = if tile_y < 32 {
                    (tile_y * 8) as u8
                } else {
                    0
                };
                let ghost before = client@;
                let outcome = if filling {
                    client.draw_tile(&dark, px, py)
                } else {
                    client.draw_tile(&light, px, py)
                };
                match outcome {
                    Ok(_) => {},
                    Err(_) => {
                        proof {
                            assert(false);
                        }
                    },
                }
                proof {
                    if filling {
                        lemma_fill_draw_step_two(before, client@, dark@, light@, c0);
                    } else {
                        lemma_fill_draw_step_two(before, client@, light@, dark@, c0);
                    }
                }
                filled = filled + 1;
                time_ms = time_ms - delay;
                proof {
                    let t_spec = if filling {
                        spec_dark_tile()
                    } else {
                        spec_light_tile()
                    };
                    assert(client@ =~~= spec_fill_draw(client_pre, t_spec, px, py));
                    assert(spec_fill_run(
                        client_pre,
                        filled_pre,
                        filling_pre,
                        time_pre,
                        100,
                        max_count_i,
                        mx,
                    ) == spec_fill_run(
                        client@,
                        filled as int,
                        filling,
                        time_ms as int,
                        100,
                        max_count_i,
                        mx,
                    ));
                }
            }
            info_ref.1.filled_tiles = filled;
            info_ref.1.filling = filling;
            info_ref.1.time_since_last_tile_ms = time_ms;
            proof {
                assert(id == old(clients)@[j as int]@.id);
                assert(run == (client@, filled as int, filling, time_ms as int));
                assert(run == spec_fill_outcome(*old(self), c0, dt_ms as int)) by {
                    assert(mx == c0.driver.screen.res_x as int / 8);
                    assert(my == c0.driver.screen.res_y as int / 8);
                    assert(max_count_i == mx * my);
                }
                assert(self.wf());
                lemma_entry_at(*self, entry_index as int);
                assert(self.spec_entry(id) == (run.1, run.2, run.3));
                assert forall|id0: u8| self0.knows_client(id0) implies self.knows_client(id0) by {
                    let i = choose|i: int|
                        0 <= i < self0.clients_info@.len() && self0.clients_info@[i].0 == id0;
                    assert(self.clients_info@[i].0 == id0);
                }
                assert(self.knows_client(id)) by {
                    assert(self.clients_info@[entry_index as int].0 == id);
                }
                assert forall|k2: int| 0 <= k2 < j implies {
                    let idk = (#[trigger] old(clients)@[k2])@.id;
                    self.knows_client(idk) && self.spec_entry(idk) == self0.spec_entry(idk)
                } by {
                    let idk = old(clients)@[k2]@.id;
                    assert(idk != id);
                    assert(self0.knows_client(idk));
                    let ik = choose|i: int|
                        0 <= i < self0.clients_info@.len() && self0.clients_info@[i].0 == idk;
                    assert(self0.clients_info@[ik].0 == idk);
                    assert(ik != entry_index as int) by {
                        if ik == entry_index as int {
                            assert(self0.clients_info@[ik].0 == id);
                        }
                    }
                    assert(self.clients_info@[ik] == self0.clients_info@[ik]);
                    lemma_entry_at(self0, ik);
                    lemma_entry_at(*self, ik);
                }
                assert forall|id0: u8|
                    old(self).knows_client(id0) && (forall|k2: int|
                        #![auto]
                        0 <= k2 < j + 1 ==> old(clients)@[k2]@.id != id0) implies self.knows_client(
                    id0,
                ) && self.spec_entry(id0) == old(self).spec_entry(id0) by {
                    assert(id0 != id);
                    assert(self0.knows_client(id0) && self0.spec_entry(id0) == old(
                        self,
                    ).spec_entry(id0));
                    let i0 = choose|i: int|
                        0 <= i < self0.clients_info@.len() && self0.clients_info@[i].0 == id0;
                    assert(self0.clients_info@[i0].0 == id0);
                    assert(i0 != entry_index as int) by {
                        if i0 == entry_index as int {
                            assert(self0.clients_info@[i0].0 == id);
                        }
                    }
                    assert(self.clients_info@[i0] == self0.clients_info@[i0]);
                    lemma_entry_at(self0, i0);
                    lemma_entry_at(*self, i0);
                }
                assert forall|id1: u8| self.knows_client(id1) implies old(self).knows_client(id1)
                    || (exists|k2: int|
                    0 <= k2 < j + 1 && (#[trigger] old(clients)@[k2])@.id == id1) by {
                    let i1 = choose|i: int|
                        0 <= i < self.clients_info@.len() && self.clients_info@[i].0 == id1;
                    if i1 == entry_index as int {
                        assert(id1 == id);
                        assert(old(clients)@[j as int]@.id == id1);
                    } else {
                        assert(self0.clients_info@[i1] == self.clients_info@[i1]);
                        assert(self0.knows_client(id1));
                    }
                }
            }
            j = j + 1;
        }
        Ok(())
    }
}

/// One fill draw of tile `t` grows the cache only the first time `t` is
/// uploaded, and leaves the other tile's presence untouched.
proof fn lemma_fill_draw_step_two(
    before: ClientView,
    after: ClientView,
    t: TileView,
    u: TileView,
    c0: ClientView,
)
    requires
        after.driver.cache == crate::driver::spec_cache_after(before.driver.cache, t),
        before.unstaged.is_prefix_of(after.unstaged),
        c0.unstaged.is_prefix_of(before.unstaged),
        before.driver.cache.len() <= c0.driver.cache.len() + (if cache_has(before.driver.cache, t)
            && !cache_has(c0.driver.cache, t) {
            1int
        } else {
            0int
        }) + (if cache_has(before.driver.cache, u) && !cache_has(c0.driver.cache, u) {
            1int
        } else {
            0int
        }),
        cache_has(c0.driver.cache, t) ==> cache_has(before.driver.cache, t),
        cache_has(c0.driver.cache, u) ==> cache_has(before.driver.cache, u),
    ensures
        after.driver.cache.len() <= c0.driver.cache.len() + (if cache_has(after.driver.cache, t)
            && !cache_has(c0.driver.cache, t) {
            1int
        } else {
            0int
        }) + (if cache_has(after.driver.cache, u) && !cache_has(c0.driver.cache, u) {
            1int
        } else {
            0int
        }),
        cache_has(c0.driver.cache, t) ==> cache_has(after.driver.cache, t),
        cache_has(c0.driver.cache, u) ==> cache_has(after.driver.cache, u),
        c0.unstaged.is_prefix_of(after.unstaged),
{
    crate::driver::lemma_cache_after_has(before.driver.cache, t);
    crate::driver::lemma_cache_after_keeps(before.driver.cache, t, u);
    lemma_prefix_transitive(c0.unstaged, before.unstaged, after.unstaged);
}


/// A prefix of a prefix is a prefix.
proof fn lemma_prefix_transitive(a: Seq<Seq<u8>>, b: Seq<Seq<u8>>, c: Seq<Seq<u8>>)
    requires
        a.is_prefix_of(b),
        b.is_prefix_of(c),
    ensures
        a.is_prefix_of(c),
{
    assert(a =~= c.subrange(0, a.len() as int)) by {
        assert(forall|i: int| 0 <= i < a.len() ==> a[i] == b[i]);
        assert(forall|i: int| 0 <= i < b.len() ==> b[i] == c[i]);
    }
}


/// In a well-formed app the entry at a position is the one its id
/// resolves to.
proof fn lemma_entry_at(app: FillScreensApp, i: int)
    requires
        app.wf(),
        0 <= i < app.clients_info@.len(),
    ensures
        app.knows_client(app.clients_info@[i].0),
        app.spec_entry(app.clients_info@[i].0) == (
            app.clients_info@[i].1.filled_tiles as int,
            app.clients_info@[i].1.filling,
            app.clients_info@[i].1.time_since_last_tile_ms as int,
        ),
{
    let id = app.clients_info@[i].0;
    assert(0 <= i < app.clients_info@.len() && app.clients_info@[i].0 == id);
    let i2 = choose|k: int|
        0 <= k < app.clients_info@.len() && app.clients_info@[k].0 == id;
    assert(i2 == i);
}

} // verus!
