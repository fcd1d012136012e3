//! The render pass: one frame of the game, drawn onto a canvas.

use crate::game::{Cell, MovementDirection, Plane};
use crate::gfx::{
    blank, blitted, body_tile, head_tile, with_line, with_vline, Canvas, Sprite, TILE_SIZE,
};
use crate::math::{lemma_level_line, line_y};
use vstd::prelude::*;

verus! {

/// The part of the canvas on which the game is played.
#[derive(Clone, Copy, Debug)]
pub struct PlayableArea {
    /// (width, height)
    pub size: (u32, u32),
    /// (x, y)
    pub location: (u32, u32),
}

/// The colour of the arena's border, as (red, green, blue).
pub open spec fn border_color() -> (u8, u8, u8) {
    (66, 134, 244)
}

/// The frame `pixels` with the border of `area` drawn onto it: the top and
/// the bottom row and the left and the right column, each without its last
/// pixel.
pub open spec fn with_arena(pixels: Seq<u8>, stride: int, area: PlayableArea) -> Seq<u8> {
    let (x, y) = area.location;
    let right = (x + area.size.0 - 1) as u32;
    let bottom = (y + area.size.1 - 1) as u32;
    let top_drawn = with_line(pixels, stride, border_color(), (x, y), (right, y));
    let bottom_drawn = with_line(top_drawn, stride, border_color(), (x, bottom), (right, bottom));
    let left_drawn = with_vline(bottom_drawn, stride, border_color(), (x, y), (x, bottom));
    with_vline(left_drawn, stride, border_color(), (right, y), (right, bottom))
}

/// The tile that shows segment `index` of the snake: the head looks where it
/// is heading, every other segment is a body tile.
pub open spec fn segment_tile(index: int, cell: Cell) -> Seq<Seq<u8>> {
    if index == 0 {
        head_tile(cell.direction)
    } else {
        body_tile()
    }
}

/// The frame `pixels` with the first `count` segments of `cells` drawn onto
/// it, head first. A cell of the grid takes `cell_size` pixels, and cell
/// (0, 0) has its corner at the corner of `area`. Where two segments share a
/// cell, the later one shows.
pub open spec fn with_snake(
    pixels: Seq<u8>,
    stride: int,
    area: PlayableArea,
    cell_size: (u32, u32),
    cells: Seq<Cell>,
    count: int,
) -> Seq<u8>
    decreases count,
{
    if count <= 0 {
        pixels
    } else {
        let cell = cells[count - 1];
        blitted(
            with_snake(pixels, stride, area, cell_size, cells, count - 1),
            stride,
            area.location.0 + cell_size.0 * cell.x,
            area.location.1 + cell_size.1 * cell.y,
            segment_tile(count - 1, cell),
        )
    }
}

/// The frame of `len` bytes that shows the arena `area` and the snake
/// `cells` on a blank ground.
pub open spec fn rendered(
    len: nat,
    stride: int,
    area: PlayableArea,
    cell_size: (u32, u32),
    cells: Seq<Cell>,
) -> Seq<u8> {
    with_snake(
        with_arena(blank(len), stride, area),
        stride,
        area,
        cell_size,
        cells,
        cells.len() as int,
    )
}

/// The head tiles, one for each direction.
pub struct HeadSprites {
    left: Sprite,
    right: Sprite,
    up: Sprite,
    down: Sprite,
}

impl HeadSprites {
    /// Each tile is the head tile of its direction.
    pub closed spec fn wf(&self) -> bool {
        &&& self.left.wf() && self.left@ == head_tile(MovementDirection::Left)
        &&& self.right.wf() && self.right@ == head_tile(MovementDirection::Right)
        &&& self.up.wf() && self.up@ == head_tile(MovementDirection::Up)
        &&& self.down.wf() && self.down@ == head_tile(MovementDirection::Down)
    }

    /// Draws the four head tiles.
    pub fn new() -> (sprites: HeadSprites)
        ensures
            sprites.wf(),
    {
        HeadSprites {
            left: Sprite::head_left(),
            right: Sprite::head_right(),
            up: Sprite::head_up(),
            down: Sprite::head_down(),
        }
    }

    /// The head tile of a snake that moves in `direction`.
    pub fn get(&self, direction: &MovementDirection) -> (sprite: &Sprite)
        requires
            self.wf(),
        ensures
            sprite.wf(),
            sprite@ == head_tile(*direction),
    {
        match direction {
            MovementDirection::Left => &self.left,
            MovementDirection::Right => &self.right,
            MovementDirection::Up => &self.up,
            MovementDirection::Down => &self.down,
        }
    }
}

/// A canvas together with what is needed to draw the game onto it.
pub struct GameScreen {
    arena: PlayableArea,
    canvas: Canvas,
    cell_size: (u32, u32),
    head_sprites: HeadSprites,
}

impl GameScreen {
    /// The arena.
    pub closed spec fn spec_arena(&self) -> PlayableArea {
        self.arena
    }

    /// The canvas.
    pub closed spec fn spec_canvas(&self) -> Canvas {
        self.canvas
    }

    /// The size of a cell of the grid in pixels, as (width, height).
    pub closed spec fn spec_cell_size(&self) -> (u32, u32) {
        self.cell_size
    }

    /// The head tiles.
    pub closed spec fn spec_head_sprites(&self) -> HeadSprites {
        self.head_sprites
    }

    /// The canvas is valid, the arena is not empty and lies on the canvas, a
    /// cell is as large as a tile, and the head tiles are in place.
    pub open spec fn wf(&self) -> bool {
        &&& self.spec_canvas().wf()
        &&& self.spec_head_sprites().wf()
        &&& self.spec_cell_size() == (TILE_SIZE as u32, TILE_SIZE as u32)
        &&& self.spec_arena().size.0 >= 1
        &&& self.spec_arena().size.1 >= 1
        &&& self.spec_arena().location.0 + self.spec_arena().size.0
            <= self.spec_canvas().spec_width()
        &&& self.spec_arena().location.1 + self.spec_arena().size.1
            <= self.spec_canvas().spec_height()
    }

    /// Whether the cells of `plane` all have room in the arena.
    pub open spec fn fits(&self, plane: &Plane) -> bool {
        &&& plane.width * self.spec_cell_size().0 <= self.spec_arena().size.0
        &&& plane.height * self.spec_cell_size().1 <= self.spec_arena().size.1
    }

    /// Whether `later` is this screen with other contents on its canvas.
    pub open spec fn same_setup(&self, later: &GameScreen) -> bool {
        &&& later.spec_arena() == self.spec_arena()
        &&& later.spec_cell_size() == self.spec_cell_size()
        &&& later.spec_head_sprites() == self.spec_head_sprites()
        &&& later.spec_canvas().spec_width() == self.spec_canvas().spec_width()
        &&& later.spec_canvas().spec_height() == self.spec_canvas().spec_height()
        &&& later.spec_canvas().stride() == self.spec_canvas().stride()
    }

    /// A screen that draws on `canvas`, with an arena of 800 by 600 pixels in
    /// the top left corner and cells of 25 by 25 pixels.
    pub fn new(canvas: Canvas) -> (screen: GameScreen)
        requires
            canvas.wf(),
            canvas.spec_width() >= 800,
            canvas.spec_height() >= 600,
        ensures
            screen.wf(),
            screen.spec_canvas() == canvas,
            screen.spec_arena().size == (800u32, 600u32),
            screen.spec_arena().location == (0u32, 0u32),
            screen.spec_cell_size() == (25u32, 25u32),
    {
        let head_sprites = HeadSprites::new();
        GameScreen {
            arena: PlayableArea { size: (800, 600), location: (0, 0) },
            canvas,
            cell_size: (25, 25),
            head_sprites,
        }
    }

    /// Whether the cells of `plane` all have room in the arena.
    pub fn has_room_for(&self, plane: &Plane) -> (roomy: bool)
        ensures
            roomy == self.fits(plane),
    {
        assert(plane.width * self.cell_size.0 <= 0x1_0000_0000_0000_0000 * 0x1_0000_0000
            && plane.height * self.cell_size.1 <= 0x1_0000_0000_0000_0000 * 0x1_0000_0000)
            by (nonlinear_arith)
            requires
                plane.width <= 0x1_0000_0000_0000_0000,
                plane.height <= 0x1_0000_0000_0000_0000,
                self.cell_size.0 <= 0x1_0000_0000,
                self.cell_size.1 <= 0x1_0000_0000,
        ;
        let wide: u128 = plane.width as u128 * self.cell_size.0 as u128;
        let high: u128 = plane.height as u128 * self.cell_size.1 as u128;
        wide <= self.arena.size.0 as u128 && high <= self.arena.size.1 as u128
    }

    /// The frame as the last `draw` left it, for the device to show.
    pub fn frame(&self) -> (frame: &Vec<u8>)
        ensures
            frame@ == self.spec_canvas().pixels(),
    {
        self.canvas.draw()
    }

    /// Draws one frame: the arena and, on top of it, the snake of `plane`,
    /// on a blank ground.
    pub fn draw(&mut self, plane: &Plane)
        requires
            old(self).wf(),
            plane.wf(),
            old(self).fits(plane),
        ensures
            final(self).wf(),
            old(self).same_setup(final(self)),
            final(self).spec_canvas().ink() == border_color(),
            final(self).spec_canvas().pixels() == rendered(
                old(self).spec_canvas().pixels().len(),
                old(self).spec_canvas().stride() as int,
                old(self).spec_arena(),
                old(self).spec_cell_size(),
                plane.snake@,
            ),
    {
        self.canvas.clear();
        self.draw_arena();
        self.draw_snake(plane);
    }

    /// Draws the snake of `plane`: the head with the tile of its direction,
    /// then every other segment with the body tile.
    pub fn draw_snake(&mut self, plane: &Plane)
        requires
            old(self).wf(),
            plane.wf(),
            old(self).fits(plane),
        ensures
            final(self).wf(),
            old(self).same_setup(final(self)),
            final(self).spec_canvas().ink() == old(self).spec_canvas().ink(),
            final(self).spec_canvas().pixels() == with_snake(
                old(self).spec_canvas().pixels(),
                old(self).spec_canvas().stride() as int,
                old(self).spec_arena(),
                old(self).spec_cell_size(),
                plane.snake@,
                plane.snake@.len() as int,
            ),
    {
        let ghost before = self.canvas.pixels();
        let ghost stride = self.canvas.stride() as int;
        let (x, y) = self.arena.location;
        let head = &plane.snake[0];
        proof {
            self.lemma_cell_on_canvas(plane, 0);
        }
        self.canvas.sprite_to(
            x + self.cell_size.0 * head.x as u32,
            y + self.cell_size.1 * head.y as u32,
            self.head_sprites.get(&head.direction),
        );
        assert(self.canvas.pixels() == with_snake(
            before,
            stride,
            self.arena,
            self.cell_size,
            plane.snake@,
            1,
        )) by {
            reveal_with_fuel(with_snake, 2);
        }
        let mut i: usize = 1;
        while i < plane.snake.len()
            invariant
                1 <= i <= plane.snake@.len(),
                self.wf(),
                plane.wf(),
                self.fits(plane),
                old(self).same_setup(&*self),
                self.canvas.ink() == old(self).spec_canvas().ink(),
                stride == self.canvas.stride(),
                (x, y) == self.arena.location,
                self.canvas.pixels() == with_snake(
                    before,
                    stride,
                    self.arena,
                    self.cell_size,
                    plane.snake@,
                    i as int,
                ),
            decreases plane.snake@.len() - i,
        {
            let cell = &plane.snake[i];
            proof {
                self.lemma_cell_on_canvas(plane, i as int);
            }
            self.canvas.sprite_to(
                x + self.cell_size.0 * cell.x as u32,
                y + self.cell_size.1 * cell.y as u32,
                &Sprite::body(),
            );
            i += 1;
        }
    }

    /// Draws the border of the arena in its colour.
    pub fn draw_arena(&mut self)
        requires
            old(self).wf(),
        ensures
            final(self).wf(),
            old(self).same_setup(final(self)),
            final(self).spec_canvas().ink() == border_color(),
            final(self).spec_canvas().pixels() == with_arena(
                old(self).spec_canvas().pixels(),
                old(self).spec_canvas().stride() as int,
                old(self).spec_arena(),
            ),
    {
        self.canvas.color(66, 134, 244);
        let (w, h) = self.arena.size;
        let (x, y) = self.arena.location;
        let right: u32 = x + w - 1;
        let bottom: u32 = y + h - 1;
        proof {
            assert forall|u: int| x <= u < right implies self.canvas.holds(
                u,
                #[trigger] line_y((x, y), (right, y), u),
            ) by {
                lemma_level_line((x, y), (right, y), u);
            }
            assert forall|u: int| x <= u < right implies self.canvas.holds(
                u,
                #[trigger] line_y((x, bottom), (right, bottom), u),
            ) by {
                lemma_level_line((x, bottom), (right, bottom), u);
            }
        }
        // horizontal lines
        self.canvas.line((x, y), (right, y));
        self.canvas.line((x, bottom), (right, bottom));
        // vertical lines
        self.canvas.vline((x, y), (x, bottom));
        self.canvas.vline((right, y), (right, bottom));
    }

    /// The tile of every segment of a snake that fits has its place on the
    /// canvas.
    proof fn lemma_cell_on_canvas(&self, plane: &Plane, i: int)
        requires
            self.wf(),
            plane.wf(),
            self.fits(plane),
            0 <= i < plane.snake@.len(),
        ensures
            self.spec_cell_size().0 * plane.snake@[i].x + TILE_SIZE <= self.spec_arena().size.0,
            self.spec_cell_size().1 * plane.snake@[i].y + TILE_SIZE <= self.spec_arena().size.1,
            plane.snake@[i].x <= u32::MAX,
            plane.snake@[i].y <= u32::MAX,
    {
        let cell = plane.snake@[i];
        let (wide, high) = self.spec_cell_size();
        assert(plane.contains(cell));
        assert(wide * cell.x + 25 <= plane.width * wide && cell.x <= plane.width * wide)
            by (nonlinear_arith)
            requires
                wide == 25,
                cell.x < plane.width,
        ;
        assert(high * cell.y + 25 <= plane.height * high && cell.y <= plane.height * high)
            by (nonlinear_arith)
            requires
                high == 25,
                cell.y < plane.height,
        ;
    }
}

} // verus!
