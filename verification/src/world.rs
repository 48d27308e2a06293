//! The world: the authoritative sprite registry, the aggregate bounding box
//! of all client screens, and the event replay that keeps clients in sync.
//!
//! Sprite identifiers are indices into the registry, assigned from a
//! monotonically increasing counter and never reused; nothing is ever
//! removed from the registry. Every change is recorded as an [`Event`] and
//! replayed in FIFO order against all clients on [`World::sync_clients`],
//! filtered by screen containment.

use vstd::prelude::*;
use vstd::seq_lib::*;

use crate::client::{Client, ClientView};
use crate::device::{apply_cmds, lemma_apply_cmds_concat, DeviceState};
use crate::driver::{
    cache_has, lemma_cache_after_has, lemma_device_index_stable, spec_cache_after,
    spec_device_index, spec_draw_sprite_cmds, spec_load_cmds, DriverView,
};
use crate::wire::{spec_set_sprite_position_bytes, spec_set_sprite_tile_bytes};
use crate::geom::{Aabb, Point};
use crate::sprite::{Sprite, SpriteView};
use crate::tile::Tile;

verus! {

/// A change to the sprite registry. Deletion is recorded but has no
/// handler: no draw is emitted for it.
#[derive(Debug, Clone, Copy, PartialEq, Eq, Structural)]
pub enum Event {
    SpriteCreated(usize),
    SpriteDeleted(usize),
    SpriteMoved(usize),
}

/// A reference to a sprite id the registry does not know; non-fatal.
#[derive(Debug, Clone, Copy, PartialEq, Eq, Structural)]
pub enum WorldError {
    NotFound,
}

/// The sprite id an event refers to.
pub open spec fn event_sprite_id(e: Event) -> int {
    match e {
        Event::SpriteCreated(id) => id as int,
        Event::SpriteDeleted(id) => id as int,
        Event::SpriteMoved(id) => id as int,
    }
}

/// Whether an event triggers a draw on sync; deletion does not.
pub open spec fn event_draws(e: Event) -> bool {
    !(e is SpriteDeleted)
}

/// Every event refers to a sprite the registry knows.
pub open spec fn events_wf(events: Seq<Event>, n_sprites: int) -> bool {
    forall|k: int| 0 <= k < events.len() ==> event_sprite_id(#[trigger] events[k]) < n_sprites
}

/// Mathematical content of a world: its area, the sprite registry in id
/// order, and the pending event queue in FIFO order.
#[verifier::ext_equal]
pub ghost struct WorldView {
    pub area: Aabb,
    pub sprites: Seq<SpriteView>,
    pub events: Seq<Event>,
}

/// The views of a client list.
pub open spec fn client_views(cs: Seq<Client>) -> Seq<ClientView> {
    cs.map_values(|c: Client| c@)
}

/// The views of a sprite list.
pub open spec fn sprite_views(ss: Seq<Sprite>) -> Seq<SpriteView> {
    ss.map_values(|s: Sprite| s@)
}

/// How one client reacts to one sprite event: if and only if its screen
/// contains the sprite's world position, the sprite is drawn at the mapped
/// local pixel coordinates (a tile upload on a cache miss, then the slot's
/// tile assignment and placement); otherwise the client is untouched.
pub open spec fn spec_deliver(c: ClientView, id: int, s: SpriteView) -> ClientView {
    if c.driver.screen.spec_contains(s.pos) {
        let x = c.driver.screen.spec_local_x(s.pos.x as int) as u8;
        let y = c.driver.screen.spec_local_y(s.pos.y as int) as u8;
        ClientView {
            driver: DriverView { cache: spec_cache_after(c.driver.cache, s.tile), ..c.driver },
            unstaged: c.unstaged + spec_draw_sprite_cmds(
                c.driver.cache,
                s.tile,
                (id % 256) as u8,
                x,
                y,
            ),
            ..c
        }
    } else {
        c
    }
}

/// One event delivered to every client.
pub open spec fn spec_sync_event(cs: Seq<ClientView>, id: int, s: SpriteView) -> Seq<ClientView> {
    Seq::new(cs.len(), |j: int| spec_deliver(cs[j], id, s))
}

/// The whole event queue replayed in FIFO order against every client.
pub open spec fn spec_sync(events: Seq<Event>, sprites: Seq<SpriteView>, cs: Seq<ClientView>) -> Seq<
    ClientView,
>
    decreases events.len(),
{
    if events.len() == 0 {
        cs
    } else {
        let e = events[0];
        let cs2 = if event_draws(e) {
            spec_sync_event(cs, event_sprite_id(e), sprites[event_sprite_id(e)])
        } else {
            cs
        };
        spec_sync(events.drop_first(), sprites, cs2)
    }
}

/// Replaying one more event at the back replays the queue, then that event.
proof fn lemma_sync_snoc(events: Seq<Event>, sprites: Seq<SpriteView>, cs: Seq<ClientView>, e: Event)
    ensures
        spec_sync(events.push(e), sprites, cs) == (if event_draws(e) {
            spec_sync_event(
                spec_sync(events, sprites, cs),
                event_sprite_id(e),
                sprites[event_sprite_id(e)],
            )
        } else {
            spec_sync(events, sprites, cs)
        }),
    decreases events.len(),
{
    let p = events.push(e);
    if events.len() == 0 {
        assert(p[0] == e);
        let cs2 = if event_draws(e) {
            spec_sync_event(cs, event_sprite_id(e), sprites[event_sprite_id(e)])
        } else {
            cs
        };
        assert(spec_sync(p, sprites, cs) == spec_sync(p.drop_first(), sprites, cs2));
        assert(p.drop_first() =~= Seq::<Event>::empty());
        assert(spec_sync(p.drop_first(), sprites, cs2) == cs2);
    } else {
        assert(p[0] == events[0]);
        assert(p.drop_first() =~= events.drop_first().push(e));
        let cs2 = if event_draws(events[0]) {
            spec_sync_event(cs, event_sprite_id(events[0]), sprites[event_sprite_id(events[0])])
        } else {
            cs
        };
        assert(spec_sync(p, sprites, cs) == spec_sync(p.drop_first(), sprites, cs2));
        assert(spec_sync(p.drop_first(), sprites, cs2) == spec_sync(
            events.drop_first().push(e),
            sprites,
            cs2,
        ));
        assert(spec_sync(events, sprites, cs) == spec_sync(events.drop_first(), sprites, cs2));
        lemma_sync_snoc(events.drop_first(), sprites, cs2, e);
    }
}

/// Delivery changes neither a client's identity, screen, input state nor
/// its driver variant; it preserves driver well-formedness, grows the cache
/// by at most the delivered tile, and only appends to the unstaged queue.
proof fn lemma_deliver_props(c: ClientView, id: int, s: SpriteView)
    requires
        c.driver.wf(),
        s.tile.is_8x8(),
        cache_has(c.driver.cache, s.tile) || c.driver.cache.len() < 255,
    ensures
        ({
            let d = spec_deliver(c, id, s);
            &&& d.id == c.id
            &&& d.inputs == c.inputs
            &&& d.driver.screen == c.driver.screen
            &&& d.driver.gameboy == c.driver.gameboy
            &&& d.driver.wf()
            &&& c.driver.cache.len() <= d.driver.cache.len() <= c.driver.cache.len() + 1
            &&& c.unstaged.is_prefix_of(d.unstaged)
        }),
{
    let d = spec_deliver(c, id, s);
    if c.driver.screen.spec_contains(s.pos) {
        let cache2 = spec_cache_after(c.driver.cache, s.tile);
        if !crate::driver::cache_has(c.driver.cache, s.tile) {
            assert(crate::driver::cache_distinct(cache2)) by {
                assert(forall|i: int, j: int|
                    0 <= i < j < cache2.len() ==> cache2[i] != cache2[j]) by {
                    assert(forall|i: int|
                        0 <= i < c.driver.cache.len() ==> #[trigger] cache2[i] == c.driver.cache[i]);
                }
            }
        }
        assert(d.unstaged.subrange(0, c.unstaged.len() as int) =~= c.unstaged);
    } else {
        assert(d.unstaged.subrange(0, c.unstaged.len() as int) =~= c.unstaged);
    }
}

/// What replay preserves, for every client: identity, screen placement,
/// input state and driver variant are untouched; the driver stays
/// well-formed; the cache grows by at most one tile per event; and
/// commands are only appended to the unstaged queue, never dropped.
pub proof fn lemma_sync_props(events: Seq<Event>, sprites: Seq<SpriteView>, cs: Seq<ClientView>)
    requires
        events_wf(events, sprites.len() as int),
        forall|i: int| 0 <= i < sprites.len() ==> (#[trigger] sprites[i]).tile.is_8x8(),
        forall|j: int|
            0 <= j < cs.len() ==> (#[trigger] cs[j]).driver.wf() && cs[j].driver.cache.len()
                + events.len() <= 255,
    ensures
        ({
            let rs = spec_sync(events, sprites, cs);
            &&& rs.len() == cs.len()
            &&& forall|j: int|
                0 <= j < cs.len() ==> {
                    let r = #[trigger] rs[j];
                    &&& r.id == cs[j].id
                    &&& r.inputs == cs[j].inputs
                    &&& r.driver.screen == cs[j].driver.screen
                    &&& r.driver.gameboy == cs[j].driver.gameboy
                    &&& r.driver.wf()
                    &&& r.driver.cache.len() <= cs[j].driver.cache.len() + events.len()
                    &&& cs[j].unstaged.is_prefix_of(r.unstaged)
                }
        }),
    decreases events.len(),
{
    if events.len() == 0 {
        assert(forall|j: int|
            0 <= j < cs.len() ==> (#[trigger] cs[j]).unstaged.is_prefix_of(cs[j].unstaged)) by {
            assert(forall|j: int|
                0 <= j < cs.len() ==> (#[trigger] cs[j]).unstaged.subrange(
                    0,
                    cs[j].unstaged.len() as int,
                ) =~= cs[j].unstaged);
        }
    } else {
        let e = events[0];
        let cs2 = if event_draws(e) {
            spec_sync_event(cs, event_sprite_id(e), sprites[event_sprite_id(e)])
        } else {
            cs
        };
        if event_draws(e) {
            assert forall|j: int| 0 <= j < cs.len() implies (#[trigger] cs2[j]).driver.wf()
                && cs2[j].driver.cache.len() + events.drop_first().len() <= 255 by {
                lemma_deliver_props(cs[j], event_sprite_id(e), sprites[event_sprite_id(e)]);
            }
        }
        lemma_sync_props(events.drop_first(), sprites, cs2);
        let rs = spec_sync(events, sprites, cs);
        assert forall|j: int| 0 <= j < cs.len() implies {
            let r = #[trigger] rs[j];
            &&& r.id == cs[j].id
            &&& r.inputs == cs[j].inputs
            &&& r.driver.screen == cs[j].driver.screen
            &&& r.driver.gameboy == cs[j].driver.gameboy
            &&& r.driver.wf()
            &&& r.driver.cache.len() <= cs[j].driver.cache.len() + events.len()
            &&& cs[j].unstaged.is_prefix_of(r.unstaged)
        } by {
            if event_draws(e) {
                lemma_deliver_props(cs[j], event_sprite_id(e), sprites[event_sprite_id(e)]);
            }
            assert(cs[j].unstaged.is_prefix_of(cs2[j].unstaged));
            assert(cs2[j].unstaged.is_prefix_of(rs[j].unstaged));
            assert(cs[j].unstaged.is_prefix_of(rs[j].unstaged)) by {
                assert(rs[j].unstaged.subrange(0, cs[j].unstaged.len() as int) =~= cs[j].unstaged)
                    by {
                    assert(cs2[j].unstaged.subrange(
                        0,
                        cs[j].unstaged.len() as int,
                    ) =~= cs[j].unstaged);
                    assert(rs[j].unstaged.subrange(
                        0,
                        cs2[j].unstaged.len() as int,
                    ) =~= cs2[j].unstaged);
                }
            }
        }
    }
}

/// The whole event queue replayed against a single client.
pub open spec fn spec_sync_one(events: Seq<Event>, sprites: Seq<SpriteView>, c: ClientView) -> ClientView
    decreases events.len(),
{
    if events.len() == 0 {
        c
    } else {
        let e = events[0];
        let c2 = if event_draws(e) {
            spec_deliver(c, event_sprite_id(e), sprites[event_sprite_id(e)])
        } else {
            c
        };
        spec_sync_one(events.drop_first(), sprites, c2)
    }
}

/// Replay acts on each client independently: the state of one client after
/// a replay does not depend on any other client.
pub proof fn lemma_sync_projection(
    events: Seq<Event>,
    sprites: Seq<SpriteView>,
    cs: Seq<ClientView>,
    j: int,
)
    requires
        0 <= j < cs.len(),
    ensures
        spec_sync(events, sprites, cs).len() == cs.len(),
        spec_sync(events, sprites, cs)[j] == spec_sync_one(events, sprites, cs[j]),
    decreases events.len(),
{
    if events.len() == 0 {
    } else {
        let e = events[0];
        let cs2 = if event_draws(e) {
            spec_sync_event(cs, event_sprite_id(e), sprites[event_sprite_id(e)])
        } else {
            cs
        };
        assert(cs2.len() == cs.len());
        assert(cs2[j] == (if event_draws(e) {
            spec_deliver(cs[j], event_sprite_id(e), sprites[event_sprite_id(e)])
        } else {
            cs[j]
        }));
        lemma_sync_projection(events.drop_first(), sprites, cs2, j);
    }
}

/// The commands one client receives from a replay, in order: each event
/// whose sprite position the client's screen contains contributes exactly
/// that sprite's draw commands, and every other event contributes nothing.
pub open spec fn spec_delivered(events: Seq<Event>, sprites: Seq<SpriteView>, c: ClientView) -> Seq<
    Seq<u8>,
>
    decreases events.len(),
{
    if events.len() == 0 {
        Seq::empty()
    } else {
        let e = events[0];
        if event_draws(e) {
            let id = event_sprite_id(e);
            let s = sprites[id];
            let c2 = spec_deliver(c, id, s);
            if c.driver.screen.spec_contains(s.pos) {
                spec_draw_sprite_cmds(
                    c.driver.cache,
                    s.tile,
                    (id % 256) as u8,
                    c.driver.screen.spec_local_x(s.pos.x as int) as u8,
                    c.driver.screen.spec_local_y(s.pos.y as int) as u8,
                ) + spec_delivered(events.drop_first(), sprites, c2)
            } else {
                spec_delivered(events.drop_first(), sprites, c2)
            }
        } else {
            spec_delivered(events.drop_first(), sprites, c)
        }
    }
}

/// Whether any event in the queue would draw inside this client's screen.
pub open spec fn spec_any_contained(
    events: Seq<Event>,
    sprites: Seq<SpriteView>,
    c: ClientView,
) -> bool {
    exists|k: int|
        0 <= k < events.len() && event_draws(#[trigger] events[k])
            && c.driver.screen.spec_contains(sprites[event_sprite_id(events[k])].pos)
}

proof fn lemma_sync_one_delivered(events: Seq<Event>, sprites: Seq<SpriteView>, c: ClientView)
    ensures
        spec_sync_one(events, sprites, c).unstaged =~~= c.unstaged + spec_delivered(
            events,
            sprites,
            c,
        ),
        spec_sync_one(events, sprites, c).id == c.id,
        spec_sync_one(events, sprites, c).inputs == c.inputs,
        spec_sync_one(events, sprites, c).driver.screen == c.driver.screen,
        spec_sync_one(events, sprites, c).driver.gameboy == c.driver.gameboy,
        !spec_any_contained(events, sprites, c) ==> spec_sync_one(events, sprites, c) == c,
        spec_any_contained(events, sprites, c) ==> spec_delivered(events, sprites, c).len() > 0,
    decreases events.len(),
{
    if events.len() == 0 {
        assert(spec_sync_one(events, sprites, c).unstaged =~~= c.unstaged + spec_delivered(
            events,
            sprites,
            c,
        ));
    } else {
        let e = events[0];
        let rest = events.drop_first();
        if event_draws(e) {
            let id = event_sprite_id(e);
            let s = sprites[id];
            let c2 = spec_deliver(c, id, s);
            lemma_sync_one_delivered(rest, sprites, c2);
            if c.driver.screen.spec_contains(s.pos) {
                assert(spec_any_contained(events, sprites, c));
                assert(c2.unstaged == c.unstaged + spec_draw_sprite_cmds(
                    c.driver.cache,
                    s.tile,
                    (id % 256) as u8,
                    c.driver.screen.spec_local_x(s.pos.x as int) as u8,
                    c.driver.screen.spec_local_y(s.pos.y as int) as u8,
                ));
                assert(spec_sync_one(events, sprites, c).unstaged =~~= c.unstaged + spec_delivered(
                    events,
                    sprites,
                    c,
                ));
                assert(spec_draw_sprite_cmds(
                    c.driver.cache,
                    s.tile,
                    (id % 256) as u8,
                    c.driver.screen.spec_local_x(s.pos.x as int) as u8,
                    c.driver.screen.spec_local_y(s.pos.y as int) as u8,
                ).len() > 0);
            } else {
                assert(c2 == c);
                if spec_any_contained(events, sprites, c) {
                    let k = choose|k: int|
                        0 <= k < events.len() && event_draws(#[trigger] events[k])
                            && c.driver.screen.spec_contains(
                            sprites[event_sprite_id(events[k])].pos,
                        );
                    assert(k != 0);
                    assert(rest[k - 1] == events[k]);
                    assert(spec_any_contained(rest, sprites, c2));
                }
                if spec_any_contained(rest, sprites, c2) {
                    let k = choose|k: int|
                        0 <= k < rest.len() && event_draws(#[trigger] rest[k])
                            && c2.driver.screen.spec_contains(
                            sprites[event_sprite_id(rest[k])].pos,
                        );
                    assert(events[k + 1] == rest[k]);
                    assert(spec_any_contained(events, sprites, c));
                }
            }
        } else {
            lemma_sync_one_delivered(rest, sprites, c);
            if spec_any_contained(events, sprites, c) {
                let k = choose|k: int|
                    0 <= k < events.len() && event_draws(#[trigger] events[k])
                        && c.driver.screen.spec_contains(sprites[event_sprite_id(events[k])].pos);
                assert(k != 0);
                assert(rest[k - 1] == events[k]);
                assert(spec_any_contained(rest, sprites, c));
            }
            if spec_any_contained(rest, sprites, c) {
                let k = choose|k: int|
                    0 <= k < rest.len() && event_draws(#[trigger] rest[k])
                        && c.driver.screen.spec_contains(sprites[event_sprite_id(rest[k])].pos);
                assert(events[k + 1] == rest[k]);
                assert(spec_any_contained(events, sprites, c));
            }
        }
    }
}

/// Containment filtering: a replay delivers a sprite event to a client if
/// and only if that client's screen contains the sprite's world position at
/// sync time. The client's queue grows by exactly the contained events'
/// draw commands, in event order; a client whose screen contains none of
/// them is left completely untouched, and one that contains at least one
/// receives at least one command.
pub proof fn lemma_containment_filtering(
    events: Seq<Event>,
    sprites: Seq<SpriteView>,
    cs: Seq<ClientView>,
    j: int,
)
    requires
        0 <= j < cs.len(),
    ensures
        spec_sync(events, sprites, cs).len() == cs.len(),
        spec_sync(events, sprites, cs)[j].unstaged =~~= cs[j].unstaged + spec_delivered(
            events,
            sprites,
            cs[j],
        ),
        !spec_any_contained(events, sprites, cs[j]) ==> spec_sync(events, sprites, cs)[j] == cs[j],
        spec_any_contained(events, sprites, cs[j]) ==> spec_delivered(
            events,
            sprites,
            cs[j],
        ).len() > 0,
{
    lemma_sync_projection(events, sprites, cs, j);
    lemma_sync_one_delivered(events, sprites, cs[j]);
}

/// The union of all clients' screen bounding boxes, merged in list order
/// starting from the empty box.
pub open spec fn spec_screens_union(cs: Seq<ClientView>) -> Aabb
    decreases cs.len(),
{
    if cs.len() == 0 {
        Aabb::spec_invalid()
    } else {
        spec_screens_union(cs.drop_last()).spec_merge(cs.last().driver.screen.spec_bounding_box())
    }
}

/// The world owns all sprite data for one session. Its aggregate area is
/// recomputed in full from the client screens every tick, never cached
/// across ticks.
#[derive(Debug)]
pub struct World {
    area: Aabb,
    sprites: Vec<Sprite>,
    events: Vec<Event>,
}

impl View for World {
    type V = WorldView;

    closed spec fn view(&self) -> WorldView {
        WorldView {
            area: self.area,
            sprites: sprite_views(self.sprites@),
            events: self.events@,
        }
    }
}

impl World {
    /// Every pending event refers to a sprite the registry knows.
    pub open spec fn wf(self) -> bool {
        events_wf(self@.events, self@.sprites.len() as int)
    }

    /// An empty world: no sprites, no pending events, empty area.
    pub fn new() -> (w: Self)
        ensures
            w@.area == Aabb::spec_invalid(),
            w@.sprites =~~= Seq::<SpriteView>::empty(),
            w@.events =~= Seq::<Event>::empty(),
            w.wf(),
    {
        let w = World { area: Aabb::new_invalid(), sprites: Vec::new(), events: Vec::new() };
        proof {
            assert(w@.sprites =~~= Seq::<SpriteView>::empty());
        }
        w
    }

    /// The sprite a known id refers to.
    pub fn get_sprite(&self, id: usize) -> (s: &Sprite)
        requires
            id < self@.sprites.len(),
        ensures
            s@ == self@.sprites[id as int],
    {
        &self.sprites[id]
    }

    /// Registers a sprite showing a copy of `tile` at the world origin,
    /// allocates the next id for it, and records the creation event.
    /// Never fails.
    pub fn create_sprite(&mut self, tile: &Tile) -> (id: usize)
        requires
            old(self).wf(),
        ensures
            final(self).wf(),
            id == old(self)@.sprites.len(),
            final(self)@ =~~= (WorldView {
                sprites: old(self)@.sprites.push(
                    SpriteView { tile: tile@, pos: Point { x: 0, y: 0 } },
                ),
                events: old(self)@.events.push(Event::SpriteCreated(id)),
                ..old(self)@
            }),
    {
        let id = self.sprites.len();
        self.sprites.push(Sprite::new(tile));
        self.events.push(Event::SpriteCreated(id));
        proof {
            assert(final(self)@.sprites =~~= old(self)@.sprites.push(
                SpriteView { tile: tile@, pos: Point { x: 0, y: 0 } },
            ));
        }
        id
    }

    /// Moves a known sprite and records the move event; an unknown id is
    /// reported as `NotFound` and changes nothing.
    pub fn move_sprite(&mut self, id: usize, x: i64, y: i64) -> (r: Result<(), WorldError>)
        requires
            old(self).wf(),
        ensures
            final(self).wf(),
            id < old(self)@.sprites.len() ==> r is Ok && final(self)@ =~~= (WorldView {
                sprites: old(self)@.sprites.update(
                    id as int,
                    SpriteView { pos: Point { x, y }, ..old(self)@.sprites[id as int] },
                ),
                events: old(self)@.events.push(Event::SpriteMoved(id)),
                ..old(self)@
            }),
            id >= old(self)@.sprites.len() ==> (r matches Err(e) && e == WorldError::NotFound
                && final(self)@ == old(self)@),
    {
        if id < self.sprites.len() {
            let sprite = vstd::std_specs::vec::vec_index_mut(&mut self.sprites, id);
            sprite.set_position(x, y);
            self.events.push(Event::SpriteMoved(id));
            proof {
                assert(final(self)@.sprites =~~= old(self)@.sprites.update(
                    id as int,
                    SpriteView { pos: Point { x, y }, ..old(self)@.sprites[id as int] },
                ));
            }
            Ok(())
        } else {
            Err(WorldError::NotFound)
        }
    }

    /// Recomputes the world's area as the union of all clients' screen
    /// bounding boxes and returns it; always authoritative, never cached
    /// across ticks.
    pub fn fit_client_screens(&mut self, clients: &Vec<Client>) -> (r: Aabb)
        requires
            old(self).wf(),
            forall|j: int|
                0 <= j < clients@.len() ==> (#[trigger] clients@[j]@).driver.screen.wf(),
        ensures
            final(self).wf(),
            r == spec_screens_union(client_views(clients@)),
            final(self)@ == (WorldView { area: r, ..old(self)@ }),
    {
        let ghost cs = client_views(clients@);
        let mut area = Aabb::new_invalid();
        let n = clients.len();
        let mut j: usize = 0;
        while j < n
            invariant
                j <= n,
                n == clients@.len(),
                cs == client_views(clients@),
                forall|k: int|
                    0 <= k < clients@.len() ==> (#[trigger] clients@[k]@).driver.screen.wf(),
                area == spec_screens_union(cs.subrange(0, j as int)),
            decreases n - j,
        {
            let bb = clients[j].screen().bounding_box();
            area.merge(&bb);
            proof {
                assert(cs.subrange(0, j + 1).drop_last() =~= cs.subrange(0, j as int));
                assert(cs.subrange(0, j + 1).last() == cs[j as int]);
            }
            j = j + 1;
        }
        proof {
            assert(cs.subrange(0, n as int) =~= cs);
        }
        self.area = area;
        area
    }

    /// Drains the pending event queue in FIFO order and replays each event
    /// against every client: a client whose screen contains the affected
    /// sprite's world position receives the sprite drawn at the mapped
    /// local pixel coordinates; no command is emitted for any other client.
    /// Clients must be of the variant that implements sprite drawing, all
    /// sprites must carry complete 8 x 8 tiles, and every client's tile
    /// cache must have room for the events' tiles.
    pub fn sync_clients(&mut self, clients: &mut Vec<Client>)
        requires
            old(self).wf(),
            forall|i: int|
                0 <= i < old(self)@.sprites.len() ==> (
                #[trigger] old(self)@.sprites[i]).tile.is_8x8(),
            forall|j: int|
                0 <= j < old(clients)@.len() ==> {
                    let c = (#[trigger] old(clients)@[j])@;
                    &&& c.driver.wf()
                    &&& c.driver.gameboy
                    &&& c.driver.cache.len() + old(self)@.events.len() <= 255
                },
        ensures
            final(self).wf(),
            final(self)@ == (WorldView { events: Seq::empty(), ..old(self)@ }),
            client_views(final(clients)@) =~~= spec_sync(
                old(self)@.events,
                old(self)@.sprites,
                client_views(old(clients)@),
            ),
    {
        let ghost cs0 = client_views(clients@);
        let ghost sprites_v = self@.sprites;
        let ghost all_events = self@.events;
        let n_events = self.events.len();
        let n_clients = clients.len();
        let mut e: usize = 0;
        while e < n_events
            invariant
                e <= n_events,
                *self == *old(self),
                n_events == self@.events.len(),
                n_clients == clients@.len(),
                sprites_v == self@.sprites,
                all_events == self@.events,
                old(self).wf(),
                forall|i: int|
                    0 <= i < sprites_v.len() ==> (#[trigger] sprites_v[i]).tile.is_8x8(),
                forall|j: int|
                    0 <= j < cs0.len() ==> {
                        let c = #[trigger] cs0[j];
                        &&& c.driver.wf()
                        &&& c.driver.gameboy
                        &&& c.driver.cache.len() + n_events <= 255
                    },
                cs0.len() == n_clients,
                client_views(clients@) =~~= spec_sync(
                    all_events.subrange(0, e as int),
                    sprites_v,
                    cs0,
                ),
            decreases n_events - e,
        {
            let ghost processed = all_events.subrange(0, e as int);
            let ghost cs_e = client_views(clients@);
            proof {
                lemma_sync_props(processed, sprites_v, cs0);
                assert(cs_e.len() == n_clients);
            }
            let event = self.events[e];
            match event {
                Event::SpriteDeleted(_) => {},
                Event::SpriteCreated(id) | Event::SpriteMoved(id) => {
                    assert(id < self.sprites.len());
                    let ghost s_v = sprites_v[id as int];
                    let mut j: usize = 0;
                    while j < n_clients
                        invariant
                            j <= n_clients,
                            *self == *old(self),
                            n_clients == clients@.len(),
                            sprites_v == self@.sprites,
                            id < self@.sprites.len(),
                            s_v == sprites_v[id as int],
                            s_v.tile.is_8x8(),
                            cs_e.len() == n_clients,
                            forall|k: int|
                                0 <= k < n_clients ==> {
                                    let c = #[trigger] cs_e[k];
                                    &&& c.driver.wf()
                                    &&& c.driver.gameboy
                                    &&& c.driver.cache.len() < 255
                                },
                            forall|k: int|
                                j <= k < n_clients ==> (#[trigger] clients@[k])@ == cs_e[k],
                            forall|k: int|
                                0 <= k < j ==> (#[trigger] clients@[k])@ == spec_deliver(
                                    cs_e[k],
                                    id as int,
                                    s_v,
                                ),
                        decreases n_clients - j,
                    {
                        let sprite = &self.sprites[id];
                        let client = vstd::std_specs::vec::vec_index_mut(clients, j);
                        let screen_copy: crate::geom::Screen = *client.screen();
                        if screen_copy.contains(&sprite.pos) {
                            let local = screen_copy.to_local(&sprite.pos);
                            match client.draw_sprite(id, sprite, local.0, local.1) {
                                Ok(_) => {},
                                Err(_) => {
                                    proof {
                                        assert(false);
                                    }
                                },
                            }
                            proof {
                                assert(client@ =~~= spec_deliver(cs_e[j as int], id as int, s_v));
                            }
                        } else {
                            proof {
                                assert(client@ =~~= spec_deliver(cs_e[j as int], id as int, s_v));
                            }
                        }
                        j = j + 1;
                    }
                    proof {
                        assert(client_views(clients@) =~~= spec_sync_event(cs_e, id as int, s_v));
                    }
                },
            }
            proof {
                lemma_sync_snoc(processed, sprites_v, cs0, all_events[e as int]);
                assert(all_events.subrange(0, e + 1) =~= processed.push(all_events[e as int]));
                assert(client_views(clients@) =~~= spec_sync(
                    all_events.subrange(0, e + 1),
                    sprites_v,
                    cs0,
                ));
            }
            e = e + 1;
        }
        proof {
            assert(all_events.subrange(0, n_events as int) =~= all_events);
        }
        self.events.clear();
        proof {
            assert(final(self)@ =~~= (WorldView { events: Seq::empty(), ..old(self)@ }));
        }
    }
}

/// Maps a sprite's world position into a client's local pixel coordinates.
/// Callers pre-filter with containment; the mapping is unclamped.
pub fn to_client_space(client: &Client, world_pos: &Point) -> (r: (u8, u8))
    requires
        client@.driver.screen.wf(),
        client@.driver.screen.spec_contains(*world_pos),
    ensures
        r.0 == client@.driver.screen.spec_local_x(world_pos.x as int),
        r.1 == client@.driver.screen.spec_local_y(world_pos.y as int),
{
    let screen = client.screen();
    screen.to_local(world_pos)
}

/// Replaying one more event at the back, against a single client.
proof fn lemma_sync_one_snoc(events: Seq<Event>, sprites: Seq<SpriteView>, c: ClientView, e: Event)
    ensures
        spec_sync_one(events.push(e), sprites, c) == (if event_draws(e) {
            spec_deliver(
                spec_sync_one(events, sprites, c),
                event_sprite_id(e),
                sprites[event_sprite_id(e)],
            )
        } else {
            spec_sync_one(events, sprites, c)
        }),
    decreases events.len(),
{
    let p = events.push(e);
    if events.len() == 0 {
        assert(p[0] == e);
        let c2 = if event_draws(e) {
            spec_deliver(c, event_sprite_id(e), sprites[event_sprite_id(e)])
        } else {
            c
        };
        assert(spec_sync_one(p, sprites, c) == spec_sync_one(p.drop_first(), sprites, c2));
        assert(p.drop_first() =~= Seq::<Event>::empty());
        assert(spec_sync_one(p.drop_first(), sprites, c2) == c2);
    } else {
        assert(p[0] == events[0]);
        assert(p.drop_first() =~= events.drop_first().push(e));
        let c2 = if event_draws(events[0]) {
            spec_deliver(c, event_sprite_id(events[0]), sprites[event_sprite_id(events[0])])
        } else {
            c
        };
        assert(spec_sync_one(p, sprites, c) == spec_sync_one(p.drop_first(), sprites, c2));
        assert(spec_sync_one(p.drop_first(), sprites, c2) == spec_sync_one(
            events.drop_first().push(e),
            sprites,
            c2,
        ));
        assert(spec_sync_one(events, sprites, c) == spec_sync_one(
            events.drop_first(),
            sprites,
            c2,
        ));
        lemma_sync_one_snoc(events.drop_first(), sprites, c2, e);
    }
}

/// Idempotence: moving a sprite twice to the same coordinates produces the
/// same post-sync client-visible state as moving it once. The client's
/// driver (screen placement and tile cache) ends identical either way, and
/// the two buffered command streams drive the device into the same state:
/// the repeated move only re-sends the same slot assignment and position,
/// and every device write is last-wins.
pub proof fn lemma_move_idempotent(
    w: WorldView,
    cs: Seq<ClientView>,
    id: usize,
    x: i64,
    y: i64,
    j: int,
    dev: DeviceState,
)
    requires
        (id as int) < w.sprites.len(),
        0 <= j < cs.len(),
        events_wf(w.events, w.sprites.len() as int),
        forall|i: int| 0 <= i < w.sprites.len() ==> (#[trigger] w.sprites[i]).tile.is_8x8(),
        cs[j].driver.wf(),
        cs[j].driver.cache.len() + w.events.len() + 1 <= 255,
    ensures
        ({
            let sprites2 = w.sprites.update(
                id as int,
                SpriteView { pos: Point { x, y }, ..w.sprites[id as int] },
            );
            let e = Event::SpriteMoved(id);
            let once = spec_sync(w.events.push(e), sprites2, cs)[j];
            let twice = spec_sync(w.events.push(e).push(e), sprites2, cs)[j];
            &&& twice.driver == once.driver
            &&& twice.id == once.id
            &&& twice.inputs == once.inputs
            &&& apply_cmds(dev, twice.unstaged) == apply_cmds(dev, once.unstaged)
        }),
{
    let sprites2 = w.sprites.update(
        id as int,
        SpriteView { pos: Point { x, y }, ..w.sprites[id as int] },
    );
    let e = Event::SpriteMoved(id);
    let s = sprites2[id as int];
    assert(s.tile == w.sprites[id as int].tile);
    lemma_sync_projection(w.events.push(e), sprites2, cs, j);
    lemma_sync_projection(w.events.push(e).push(e), sprites2, cs, j);
    lemma_sync_one_snoc(w.events, sprites2, cs[j], e);
    lemma_sync_one_snoc(w.events.push(e), sprites2, cs[j], e);
    let c1 = spec_sync_one(w.events, sprites2, cs[j]);
    let d1 = spec_deliver(c1, id as int, s);
    let d2 = spec_deliver(d1, id as int, s);
    assert(spec_sync(w.events.push(e), sprites2, cs)[j] == d1);
    assert(spec_sync(w.events.push(e).push(e), sprites2, cs)[j] == d2);
    let single = seq![cs[j]];
    assert(events_wf(w.events, sprites2.len() as int));
    assert(forall|i: int| 0 <= i < sprites2.len() ==> (#[trigger] sprites2[i]).tile.is_8x8());
    lemma_sync_props(w.events, sprites2, single);
    lemma_sync_projection(w.events, sprites2, single, 0);
    assert(c1.driver.wf());
    if c1.driver.screen.spec_contains(s.pos) {
        let cache = c1.driver.cache;
        let t = s.tile;
        let cache1 = spec_cache_after(cache, t);
        lemma_cache_after_has(cache, t);
        lemma_cache_after_has(cache1, t);
        lemma_device_index_stable(cache, t);
        assert(d1.driver.screen == c1.driver.screen);
        assert(d2.driver =~~= d1.driver);
        let slot = (id as int % 256) as u8;
        let lx = c1.driver.screen.spec_local_x(s.pos.x as int) as u8;
        let ly = c1.driver.screen.spec_local_y(s.pos.y as int) as u8;
        let idx = spec_device_index(cache, t);
        assert(spec_device_index(cache1, t) == idx);
        let sst = spec_set_sprite_tile_bytes(slot, idx as u8);
        let ssp = spec_set_sprite_position_bytes(slot, lx, ly);
        let a = spec_draw_sprite_cmds(cache, t, slot, lx, ly);
        let b = spec_draw_sprite_cmds(cache1, t, slot, lx, ly);
        let two = seq![sst, ssp];
        assert(a == spec_load_cmds(cache, t) + two);
        assert(spec_load_cmds(cache1, t) =~~= Seq::<Seq<u8>>::empty());
        assert(b =~~= two);
        assert(d1.unstaged == c1.unstaged + a);
        assert(d2.unstaged == d1.unstaged + b);
        let dev0 = apply_cmds(dev, c1.unstaged);
        let dev1 = apply_cmds(dev, d1.unstaged);
        lemma_apply_cmds_concat(dev, c1.unstaged, a);
        let dev_l = apply_cmds(dev0, spec_load_cmds(cache, t));
        lemma_apply_cmds_concat(dev0, spec_load_cmds(cache, t), two);
        assert(dev1 == apply_cmds(dev_l, two));
        crate::device::lemma_apply_two(dev_l, sst, ssp);
        let dev_a = crate::device::apply_cmd(dev_l, sst);
        assert(apply_cmds(dev_l, two) == crate::device::apply_cmd(dev_a, ssp));
        assert(sst.len() == 3 && sst[0] == 3u8 && sst[1] == slot && sst[2] == idx as u8);
        assert(ssp.len() == 4 && ssp[0] == 4u8 && ssp[1] == slot && ssp[2] == lx && ssp[3] == ly);
        assert(dev_a.sprite_tiles == dev_l.sprite_tiles.insert(slot as int, (idx as u8) as int));
        assert(dev1.sprite_tiles == dev_a.sprite_tiles);
        assert(dev1.sprite_positions == dev_a.sprite_positions.insert(
            slot as int,
            (lx as int, ly as int),
        ));
        lemma_apply_cmds_concat(dev, d1.unstaged, b);
        assert(apply_cmds(dev, d2.unstaged) == apply_cmds(dev1, b));
        assert(apply_cmds(dev1, b) == apply_cmds(dev1, two));
        crate::device::lemma_apply_two(dev1, sst, ssp);
        let dev_b = crate::device::apply_cmd(dev1, sst);
        assert(apply_cmds(dev1, two) == crate::device::apply_cmd(dev_b, ssp));
        assert(dev_b =~~= dev1) by {
            assert(dev_b.sprite_tiles =~= dev1.sprite_tiles);
        }
        let dev_c = crate::device::apply_cmd(dev_b, ssp);
        assert(dev_c =~~= dev1) by {
            assert(dev_c.sprite_positions =~= dev1.sprite_positions);
        }
        assert(apply_cmds(dev, d2.unstaged) == dev1);
    } else {
        assert(d1 == c1);
        assert(d2 == c1);
    }
}

} // verus!
