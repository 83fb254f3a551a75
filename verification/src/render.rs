//! Sprite animation: which tile of a sprite sheet an entity shows.
use crate::entities::Entity;
use crate::vector::{Rect, Vec2};
use std::rc::Rc;
use vstd::prelude::*;

verus! {

/// A sprite sheet: the size of its image in pixels, and how many tiles it
/// holds along each axis.
#[derive(Clone, Copy, Debug, PartialEq, Eq, Structural)]
pub struct TextureAtlas {
    pub width: i32,
    pub height: i32,
    pub num_tiles: Vec2,
}

impl TextureAtlas {
    /// The sheet has a size, and at least one tile along each axis.
    pub open spec fn valid(&self) -> bool {
        &&& self.width >= 0
        &&& self.height >= 0
        &&& self.num_tiles.x > 0
        &&& self.num_tiles.y > 0
    }

    /// `coord` names a tile of the sheet by its column and row.
    pub open spec fn holds(&self, coord: Vec2) -> bool {
        0 <= coord.x < self.num_tiles.x && 0 <= coord.y < self.num_tiles.y
    }

    /// The part of the image that the tile at `coord` covers: every tile has
    /// the width of the image divided by the number of columns, rounded
    /// down, and its height likewise.
    pub open spec fn tile(&self, coord: Vec2) -> Rect {
        let tile_width = self.width / self.num_tiles.x;
        let tile_height = self.height / self.num_tiles.y;
        Rect {
            x: (coord.x * tile_width) as i32,
            y: (coord.y * tile_height) as i32,
            w: tile_width as i32,
            h: tile_height as i32,
        }
    }

    pub fn is_valid(&self) -> (b: bool)
        ensures
            b == self.valid(),
    {
        self.width >= 0 && self.height >= 0 && self.num_tiles.x > 0 && self.num_tiles.y > 0
    }

    /// Finds the part of the image that the tile at `coord` covers.
    pub fn get_texture_rect(&self, coord: Vec2) -> (rect: Rect)
        requires
            self.valid(),
            self.holds(coord),
        ensures
            rect == self.tile(coord),
            rect.x == coord.x * (self.width / self.num_tiles.x),
            rect.y == coord.y * (self.height / self.num_tiles.y),
            rect.w == self.width / self.num_tiles.x,
            rect.h == self.height / self.num_tiles.y,
    {
        let tile_width: i32 = self.width / self.num_tiles.x;
        let tile_height: i32 = self.height / self.num_tiles.y;
        proof {
            lemma_tile_fits(coord.x as int, self.width as int, self.num_tiles.x as int);
            lemma_tile_fits(coord.y as int, self.height as int, self.num_tiles.y as int);
        }
        Rect::new(coord.x * tile_width, coord.y * tile_height, tile_width, tile_height)
    }
}

/// A tile of a row that is cut into `count` tiles starts within the row.
proof fn lemma_tile_fits(index: int, length: int, count: int)
    requires
        0 <= index < count,
        0 <= length,
    ensures
        0 <= length / count <= length,
        0 <= index * (length / count) <= length,
{
    vstd::arithmetic::div_mod::lemma_fundamental_div_mod(length, count);
    vstd::arithmetic::div_mod::lemma_mod_bound(length, count);
    let size = length / count;
    assert(0 <= size && 0 <= index * size <= count * size && size <= count * size)
        by (nonlinear_arith)
        requires
            0 <= index < count,
            0 <= length,
            length == count * size + length % count,
            0 <= length % count < count,
    ;
}

/// The frames of one animation, shared by the entities that play it.
#[derive(Clone, Debug)]
pub struct AnimationDefinition {
    pub atlas: TextureAtlas,
    /// How long a frame is shown, in thousandths of a second.
    pub duration_per_frame: u32,
    /// The tile of each frame, by column and row.
    pub frame_coords: Vec<Vec2>,
}

impl AnimationDefinition {
    /// There is at least one frame, and every frame is a tile of the sheet.
    pub open spec fn valid(&self) -> bool {
        &&& self.atlas.valid()
        &&& self.frame_coords.len() > 0
        &&& forall|i: int|
            0 <= i < self.frame_coords.len() ==> self.atlas.holds(#[trigger] self.frame_coords[i])
    }

    pub fn is_valid(&self) -> (b: bool)
        ensures
            b == self.valid(),
    {
        if !self.atlas.is_valid() || self.frame_coords.len() == 0 {
            return false;
        }
        let mut i: usize = 0;
        while i < self.frame_coords.len()
            invariant
                i <= self.frame_coords.len(),
                forall|k: int| 0 <= k < i ==> self.atlas.holds(#[trigger] self.frame_coords[k]),
            decreases self.frame_coords.len() - i,
        {
            let coord: Vec2 = self.frame_coords[i];
            if !(0 <= coord.x && coord.x < self.atlas.num_tiles.x && 0 <= coord.y && coord.y
                < self.atlas.num_tiles.y) {
                return false;
            }
            i += 1;
        }
        true
    }
}

/// The state of one entity's animation.
#[derive(Clone, Debug)]
pub struct Animation {
    pub definition: Rc<AnimationDefinition>,
    /// How long the frame has been shown, in millionths of a second.
    pub tick: u64,
    pub frame_number: usize,
    /// How fast the animation plays, in thousandths: 1000 plays it in real time.
    pub speed: u32,
}

impl Animation {
    /// The definition is valid and the frame is one of its frames.
    pub open spec fn valid(&self) -> bool {
        self.definition.valid() && self.frame_number < self.definition.frame_coords.len()
    }

    /// The time shown after `elapsed` thousandths of a second more, before
    /// any change of frame: it stops growing at the largest value.
    pub open spec fn shown(&self, elapsed: int) -> int {
        if self.tick + elapsed * self.speed > u64::MAX {
            u64::MAX as int
        } else {
            self.tick + elapsed * self.speed
        }
    }

    /// The animation after `elapsed` thousandths of a second: the time shown
    /// grows by the elapsed time at the animation's speed, and once it
    /// exceeds the duration of a frame, one duration is taken off and the
    /// next frame comes, the first one after the last.
    pub open spec fn ticked(&self, elapsed: int) -> Animation {
        let duration = self.definition.duration_per_frame * 1000;
        if self.shown(elapsed) > duration {
            Animation {
                definition: self.definition,
                tick: (self.shown(elapsed) - duration) as u64,
                frame_number: ((self.frame_number + 1) % (
                self.definition.frame_coords.len() as int)) as usize,
                speed: self.speed,
            }
        } else {
            Animation {
                definition: self.definition,
                tick: self.shown(elapsed) as u64,
                frame_number: self.frame_number,
                speed: self.speed,
            }
        }
    }

    pub fn is_valid(&self) -> (b: bool)
        ensures
            b == self.valid(),
    {
        self.definition.is_valid() && self.frame_number < self.definition.frame_coords.len()
    }

    /// Advances the animation by `tick` thousandths of a second.
    pub fn tick(&mut self, tick: u32)
        requires
            old(self).valid(),
        ensures
            *final(self) == old(self).ticked(tick as int),
            final(self).valid(),
    {
        let elapsed: u64 = tick as u64;
        let speed: u64 = self.speed as u64;
        assert(elapsed * speed <= 0xFFFF_FFFE_0000_0001) by (nonlinear_arith)
            requires
                0 <= elapsed <= 0xFFFF_FFFF,
                0 <= speed <= 0xFFFF_FFFF,
        ;
        let step: u64 = elapsed * speed;
        let shown: u64 = self.tick.saturating_add(step);
        let duration: u64 = self.definition.duration_per_frame as u64 * 1000;
        if shown > duration {
            self.tick = shown - duration;
            self.frame_number = (self.frame_number + 1) % self.definition.frame_coords.len();
        } else {
            self.tick = shown;
        }
    }
}

/// What is drawn for an entity, and where.
#[derive(Clone, Copy, Debug, PartialEq, Eq, Structural)]
pub struct RenderableTexture {
    /// Which of the loaded textures is drawn.
    pub texture: usize,
    /// Where the image's corner lies, from the entity's position.
    pub pos_offset: Vec2,
    /// The angle, in thousandths of a radian, between the way the entity
    /// faces and the way the image is turned.
    pub rot_offset_radians: i32,
    /// The size at which the image is drawn, where it is not its own.
    pub dest_size: Option<Vec2>,
    /// The part of the texture that is drawn, in pixels; all of it where
    /// none is set.
    pub source: Option<Rect>,
}

/// The entity after `tick` thousandths of a second of animation: its
/// animation advances, and what is drawn of its texture is the tile of the
/// frame then reached. An entity without an animation or without a texture
/// stays as it is.
pub open spec fn animated(entity: Entity, tick: int) -> Entity {
    match (entity.renderable_texture, entity.animation) {
        (Some(renderable_texture), Some(animation)) => {
            let next = animation.ticked(tick);
            Entity {
                animation: Some(next),
                renderable_texture: Some(
                    RenderableTexture {
                        source: Some(
                            next.definition.atlas.tile(
                                next.definition.frame_coords[next.frame_number as int],
                            ),
                        ),
                        ..renderable_texture
                    },
                ),
                ..entity
            }
        },
        _ => entity,
    }
}

/// The animation of `entity` is valid, where it has one.
pub open spec fn animation_valid(entity: Entity) -> bool {
    entity.animation matches Some(animation) ==> animation.valid()
}

/// Advances the animation of every entity that has one and a texture by
/// `tick` thousandths of a second, and selects the tile of its frame.
pub fn animation_system(entities: &mut Vec<Entity>, tick: u32)
    requires
        forall|i: int| 0 <= i < old(entities).len() ==> animation_valid(#[trigger] old(entities)[i]),
    ensures
        final(entities).len() == old(entities).len(),
        forall|i: int|
            0 <= i < old(entities).len() ==> #[trigger] final(entities)[i] == animated(
                old(entities)[i],
                tick as int,
            ),
        forall|i: int|
            0 <= i < final(entities).len() ==> animation_valid(#[trigger] final(entities)[i]),
{
    let n: usize = entities.len();
    let mut i: usize = 0;
    while i < n
        invariant
            i <= n == entities.len() == old(entities).len(),
            forall|k: int| 0 <= k < i ==> #[trigger] entities[k] == animated(
                old(entities)[k],
                tick as int,
            ),
            forall|k: int| i <= k < n ==> #[trigger] entities[k] == old(entities)[k],
            forall|k: int| 0 <= k < n ==> animation_valid(#[trigger] entities[k]),
        decreases n - i,
    {
        let ghost before = entities@;
        assert(animation_valid(before[i as int]));
        let entity: &mut Entity = &mut entities[i];
        match (&mut entity.renderable_texture, &mut entity.animation) {
            (Some(renderable_texture), Some(animation)) => {
                animation.tick(tick);
                let frame_coord: Vec2 = animation.definition.frame_coords[animation.frame_number];
                let source: Rect = animation.definition.atlas.get_texture_rect(frame_coord);
                renderable_texture.source = Some(source);
            },
            _ => {},
        }
        assert(forall|k: int| 0 <= k < n && k != i ==> entities[k] == before[k]);
        i += 1;
    }
}

} // verus!
