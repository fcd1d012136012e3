//! Graphics utils: a canvas over a linear frame buffer, and the tile sprites.
//!
//! A frame is a flat byte array of rows. Each row takes `line_length` bytes,
//! which may be more than its pixels need. A pixel takes four bytes: blue,
//! green, red and one that drawing leaves alone.

use crate::game::MovementDirection;
use crate::math::{line_y, solve_linear_eq, solves, Point};
use vstd::arithmetic::div_mod::{
    lemma_fundamental_div_mod, lemma_fundamental_div_mod_converse, lemma_mod_bound,
};
use vstd::prelude::*;

verus! {

/// The index of the first byte of pixel `(x, y)` in a frame whose rows take
/// `stride` bytes.
pub open spec fn offset(stride: int, x: int, y: int) -> int {
    y * stride + x * 4
}

/// The byte that a pixel of colour `color`, given as (red, green, blue), holds
/// in its channel `c`: blue comes first, then green, then red.
pub open spec fn channel(color: (u8, u8, u8), c: int) -> u8 {
    if c == 0 {
        color.2
    } else if c == 1 {
        color.1
    } else {
        color.0
    }
}

/// The frame `pixels` after every pixel `(x, y)` with `region(x, y)` took the
/// colour `color`. The fourth byte of a pixel, and every byte outside the
/// region, is as it was.
pub open spec fn painted(
    pixels: Seq<u8>,
    stride: int,
    color: (u8, u8, u8),
    region: spec_fn(int, int) -> bool,
) -> Seq<u8> {
    Seq::new(
        pixels.len(),
        |i: int|
            {
                let x = (i % stride) / 4;
                let y = i / stride;
                let c = (i % stride) % 4;
                if c < 3 && region(x, y) {
                    channel(color, c)
                } else {
                    pixels[i]
                }
            },
    )
}

/// The region that holds pixel `(x, y)` alone.
pub open spec fn spot(x: int, y: int) -> spec_fn(int, int) -> bool {
    |u: int, v: int| u == x && v == y
}

/// The region of column `x` in the rows from `top` up to, but not including,
/// `bottom`.
pub open spec fn column_span(x: int, top: int, bottom: int) -> spec_fn(int, int) -> bool {
    |u: int, v: int| u == x && top <= v < bottom
}

/// The region of row `y` in the columns from `left` up to, but not
/// including, `right`.
pub open spec fn row_span(y: int, left: int, right: int) -> spec_fn(int, int) -> bool {
    |u: int, v: int| v == y && left <= u < right
}

/// The region of the columns from `left` and the rows from `top`, up to, but
/// not including, column `right` and row `bottom`.
pub open spec fn block(left: int, top: int, right: int, bottom: int) -> spec_fn(int, int) -> bool {
    |u: int, v: int| left <= u < right && top <= v < bottom
}

/// The region that the line through `from` and `to` crosses in the columns
/// from `left` up to, but not including, `right`: in each column the pixel in
/// the row of the line, rounded down.
pub open spec fn line_span(from: Point, to: Point, left: int, right: int) -> spec_fn(
    int,
    int,
) -> bool {
    |u: int, v: int| left <= u < right && v == line_y(from, to, u)
}

/// The frame after `point(x, y)`.
pub open spec fn with_point(
    pixels: Seq<u8>,
    stride: int,
    color: (u8, u8, u8),
    x: int,
    y: int,
) -> Seq<u8> {
    painted(pixels, stride, color, spot(x, y))
}

/// The frame after `vline(from, to)`: column `from.0` is painted in the rows
/// from `from.1` up to, but not including, `to.1`.
pub open spec fn with_vline(
    pixels: Seq<u8>,
    stride: int,
    color: (u8, u8, u8),
    from: Point,
    to: Point,
) -> Seq<u8> {
    painted(pixels, stride, color, column_span(from.0 as int, from.1 as int, to.1 as int))
}

/// The frame after `line(from, to)`: in every column from `from.0` up to, but
/// not including, `to.0`, the pixel in the row of the line is painted.
pub open spec fn with_line(
    pixels: Seq<u8>,
    stride: int,
    color: (u8, u8, u8),
    from: Point,
    to: Point,
) -> Seq<u8> {
    painted(pixels, stride, color, line_span(from, to, from.0 as int, to.0 as int))
}

/// The frame after `rect(left_top, right_bottom)`: the pixels in the columns
/// from `left_top.0` and the rows from `left_top.1` are painted, up to, but
/// not including, column `right_bottom.0` and row `right_bottom.1`.
pub open spec fn with_rect(
    pixels: Seq<u8>,
    stride: int,
    color: (u8, u8, u8),
    left_top: Point,
    right_bottom: Point,
) -> Seq<u8> {
    painted(
        pixels,
        stride,
        color,
        block(left_top.0 as int, left_top.1 as int, right_bottom.0 as int, right_bottom.1 as int),
    )
}

/// The frame `pixels` after the rows of `tile` were copied into it, the
/// first at the byte of pixel `(x, y)` and each further one a row below.
/// Every byte outside those rows is as it was.
pub open spec fn blitted(
    pixels: Seq<u8>,
    stride: int,
    x: int,
    y: int,
    tile: Seq<Seq<u8>>,
) -> Seq<u8> {
    blitted_part(pixels, stride, x, y, tile, tile.len() as int, 0)
}

/// The frame `pixels` after the first `rows` rows of `tile` and the first
/// `cols` bytes of the next one were copied into it from pixel `(x, y)` on.
pub open spec fn blitted_part(
    pixels: Seq<u8>,
    stride: int,
    x: int,
    y: int,
    tile: Seq<Seq<u8>>,
    rows: int,
    cols: int,
) -> Seq<u8> {
    Seq::new(
        pixels.len(),
        |i: int|
            {
                let row = i / stride - y;
                let col = i % stride - 4 * x;
                if 0 <= row < tile.len() && 0 <= col < tile[row].len() && (row < rows || (row
                    == rows && col < cols)) {
                    tile[row][col]
                } else {
                    pixels[i]
                }
            },
    )
}

/// A frame of `len` bytes that are all zero.
pub open spec fn blank(len: nat) -> Seq<u8> {
    Seq::new(len, |i: int| 0u8)
}

/// Painting pixel `(x, y)` writes three bytes at the pixel's offset: blue,
/// green and red, in that order.
pub proof fn lemma_point_writes_three_bytes(
    pixels: Seq<u8>,
    stride: int,
    color: (u8, u8, u8),
    x: int,
    y: int,
)
    requires
        0 <= x,
        0 <= y,
        4 * x + 4 <= stride,
        offset(stride, x, y) + 4 <= pixels.len(),
    ensures
        0 <= offset(stride, x, y),
        with_point(pixels, stride, color, x, y) == pixels.update(
            offset(stride, x, y),
            color.2,
        ).update(offset(stride, x, y) + 1, color.1).update(offset(stride, x, y) + 2, color.0),
{
    let at = offset(stride, x, y);
    let written = pixels.update(at, color.2).update(at + 1, color.1).update(at + 2, color.0);
    let wanted = with_point(pixels, stride, color, x, y);
    assert(at >= 0) by (nonlinear_arith)
        requires
            at == y * stride + x * 4,
            x >= 0,
            y >= 0,
            stride > 0,
    ;
    assert forall|i: int| 0 <= i < pixels.len() implies written[i] == wanted[i] by {
        lemma_fundamental_div_mod(i, stride);
        lemma_mod_bound(i, stride);
        if at <= i < at + 3 {
            lemma_fundamental_div_mod_converse(i, stride, y, 4 * x + (i - at));
        } else if (i % stride) % 4 < 3 && (i % stride) / 4 == x && i / stride == y {
            assert(stride * y == y * stride) by (nonlinear_arith);
            assert(false);
        }
    }
    assert(written =~= wanted);
}

/// A frame onto which a tile was copied holds byte `col` of the tile's row
/// `row` at that many bytes behind the offset of pixel `(x, y + row)`.
pub proof fn lemma_blitted_bytes(
    pixels: Seq<u8>,
    stride: int,
    x: int,
    y: int,
    tile: Seq<Seq<u8>>,
    row: int,
    col: int,
)
    requires
        0 <= x,
        0 <= y,
        0 <= row < tile.len(),
        0 <= col < tile[row].len(),
        4 * x + tile[row].len() <= stride,
        offset(stride, x, y + row) + tile[row].len() <= pixels.len(),
    ensures
        0 <= offset(stride, x, y + row),
        blitted(pixels, stride, x, y, tile)[offset(stride, x, y + row) + col] == tile[row][col],
{
    assert(0 <= (y + row) * stride) by (nonlinear_arith)
        requires
            0 <= y + row,
            0 < stride,
    ;
    lemma_fundamental_div_mod_converse(
        offset(stride, x, y + row) + col,
        stride,
        y + row,
        4 * x + col,
    );
}

/// Copying byte `col` of row `row` of `tile` to its place in a frame that
/// holds the tile up to that byte makes the frame hold the tile up to the
/// next byte.
proof fn lemma_blit_byte(
    base: Seq<u8>,
    current: Seq<u8>,
    stride: int,
    x: int,
    y: int,
    tile: Seq<Seq<u8>>,
    row: int,
    col: int,
)
    requires
        0 <= x,
        0 <= y,
        0 <= row < tile.len(),
        0 <= col < tile[row].len(),
        4 * x + tile[row].len() <= stride,
        offset(stride, x, y + row) + tile[row].len() <= base.len(),
        current == blitted_part(base, stride, x, y, tile, row, col),
    ensures
        current.update(offset(stride, x, y + row) + col, tile[row][col]) == blitted_part(
            base,
            stride,
            x,
            y,
            tile,
            row,
            col + 1,
        ),
{
    let at = offset(stride, x, y + row) + col;
    let written = current.update(at, tile[row][col]);
    let wanted = blitted_part(base, stride, x, y, tile, row, col + 1);
    assert(0 <= (y + row) * stride) by (nonlinear_arith)
        requires
            0 <= y + row,
            0 < stride,
    ;
    lemma_fundamental_div_mod_converse(at, stride, y + row, 4 * x + col);
    assert forall|i: int| 0 <= i < base.len() implies written[i] == wanted[i] by {
        lemma_fundamental_div_mod(i, stride);
        lemma_mod_bound(i, stride);
        if i != at && i / stride - y == row && i % stride - 4 * x == col {
            assert(stride * (y + row) == (y + row) * stride) by (nonlinear_arith);
            assert(false);
        }
    }
    assert(written =~= wanted);
}

/// A frame that holds a tile up to the end of one row holds it up to the
/// start of the next.
proof fn lemma_blit_row(
    base: Seq<u8>,
    stride: int,
    x: int,
    y: int,
    tile: Seq<Seq<u8>>,
    row: int,
)
    requires
        0 <= row < tile.len(),
    ensures
        blitted_part(base, stride, x, y, tile, row, tile[row].len() as int) == blitted_part(
            base,
            stride,
            x,
            y,
            tile,
            row + 1,
            0,
        ),
{
    assert(blitted_part(base, stride, x, y, tile, row, tile[row].len() as int) =~= blitted_part(
        base,
        stride,
        x,
        y,
        tile,
        row + 1,
        0,
    ));
}

/// Painting one region and then another paints both.
pub proof fn lemma_paint_union(
    base: Seq<u8>,
    stride: int,
    color: (u8, u8, u8),
    first: spec_fn(int, int) -> bool,
    second: spec_fn(int, int) -> bool,
    both: spec_fn(int, int) -> bool,
)
    requires
        forall|u: int, v: int| #[trigger] both(u, v) == (first(u, v) || second(u, v)),
    ensures
        painted(painted(base, stride, color, first), stride, color, second) == painted(
            base,
            stride,
            color,
            both,
        ),
{
    assert(painted(painted(base, stride, color, first), stride, color, second) =~= painted(
        base,
        stride,
        color,
        both,
    ));
}

/// Painting no pixel leaves the frame as it is.
pub proof fn lemma_paint_nothing(
    base: Seq<u8>,
    stride: int,
    color: (u8, u8, u8),
    region: spec_fn(int, int) -> bool,
)
    requires
        forall|u: int, v: int| !#[trigger] region(u, v),
    ensures
        painted(base, stride, color, region) == base,
{
    assert(painted(base, stride, color, region) =~= base);
}

/// Represents 2D drawing area over one frame of a frame buffer device.
pub struct Canvas {
    width: u32,
    height: u32,
    line_length: u32,
    frame: Vec<u8>,
    curr_color: (u8, u8, u8),
}

impl Canvas {
    /// The number of pixels in a row.
    pub closed spec fn spec_width(&self) -> u32 {
        self.width
    }

    /// The number of rows.
    pub closed spec fn spec_height(&self) -> u32 {
        self.height
    }

    /// The number of bytes that a row takes in the frame.
    pub closed spec fn stride(&self) -> u32 {
        self.line_length
    }

    /// The bytes of the frame.
    pub closed spec fn pixels(&self) -> Seq<u8> {
        self.frame@
    }

    /// The current drawing colour, as (red, green, blue).
    pub closed spec fn ink(&self) -> (u8, u8, u8) {
        self.curr_color
    }

    /// A row has room for its pixels, and the frame holds exactly the rows.
    pub open spec fn wf(&self) -> bool {
        &&& 4 * self.spec_width() <= self.stride()
        &&& self.stride() * self.spec_height() <= u32::MAX
        &&& self.pixels().len() == self.stride() * self.spec_height()
    }

    /// Whether pixel `(x, y)` lies on the canvas.
    pub open spec fn holds(&self, x: int, y: int) -> bool {
        0 <= x < self.spec_width() && 0 <= y < self.spec_height()
    }

    /// Whether `later` is this canvas with other contents: the geometry and
    /// the drawing colour are the same.
    pub open spec fn same_sheet(&self, later: &Canvas) -> bool {
        &&& later.spec_width() == self.spec_width()
        &&& later.spec_height() == self.spec_height()
        &&& later.stride() == self.stride()
        &&& later.ink() == self.ink()
    }

    /// The pixels of a canvas lie inside its frame.
    pub proof fn lemma_pixel_in_frame(&self, x: int, y: int)
        requires
            self.wf(),
            self.holds(x, y),
        ensures
            0 <= offset(self.stride() as int, x, y),
            offset(self.stride() as int, x, y) + 4 <= self.pixels().len(),
            4 * x + 4 <= self.stride(),
    {
        let stride = self.stride() as int;
        let height = self.spec_height() as int;
        assert(0 <= y * stride && (y + 1) * stride <= height * stride && (y + 1) * stride == y
            * stride + stride && height * stride == stride * height) by (nonlinear_arith)
            requires
                0 <= y < height,
                0 <= stride,
        ;
    }

    /// A canvas of `width` by `height` pixels whose rows take `line_length`
    /// bytes each. The frame is all zero and the drawing colour is white.
    pub fn new(width: u32, height: u32, line_length: u32) -> (canvas: Canvas)
        requires
            4 * width <= line_length,
            line_length * height <= u32::MAX,
        ensures
            canvas.wf(),
            canvas.spec_width() == width,
            canvas.spec_height() == height,
            canvas.stride() == line_length,
            canvas.ink() == (255u8, 255u8, 255u8),
            canvas.pixels() == blank((line_length * height) as nat),
    {
        let canvas = Canvas {
            width,
            height,
            frame: vec![0; (line_length * height) as usize],
            line_length,
            curr_color: (255, 255, 255),
        };
        assert(canvas.frame@ =~= blank((line_length * height) as nat));
        canvas
    }

    /// The number of pixels in a row.
    #[verifier::when_used_as_spec(spec_width)]
    pub fn width(&self) -> (width: u32)
        ensures
            width == self.spec_width(),
    {
        self.width
    }

    /// The number of rows.
    #[verifier::when_used_as_spec(spec_height)]
    pub fn height(&self) -> (height: u32)
        ensures
            height == self.spec_height(),
    {
        self.height
    }

    /// The number of bytes that a row takes in the frame.
    pub fn line_length(&self) -> (line_length: u32)
        ensures
            line_length == self.stride(),
    {
        self.line_length
    }

    /// Sets current drawing color.
    pub fn color(&mut self, r: u8, g: u8, b: u8)
        ensures
            final(self).ink() == (r, g, b),
            final(self).spec_width() == old(self).spec_width(),
            final(self).spec_height() == old(self).spec_height(),
            final(self).stride() == old(self).stride(),
            final(self).pixels() == old(self).pixels(),
    {
        self.curr_color = (r, g, b)
    }

    /// Paints pixel `(x, y)` in the current colour.
    pub fn point(&mut self, x: u32, y: u32)
        requires
            old(self).wf(),
            old(self).holds(x as int, y as int),
        ensures
            final(self).wf(),
            old(self).same_sheet(final(self)),
            final(self).pixels() == with_point(
                old(self).pixels(),
                old(self).stride() as int,
                old(self).ink(),
                x as int,
                y as int,
            ),
    {
        proof {
            self.lemma_pixel_in_frame(x as int, y as int);
            assert(y * self.line_length + x * 4 == offset(
                self.stride() as int,
                x as int,
                y as int,
            ));
        }
        let start = (y * self.line_length + x * 4) as usize;
        let ghost before = self.frame@;
        self.frame[start] = self.curr_color.2;
        self.frame[start + 1] = self.curr_color.1;
        self.frame[start + 2] = self.curr_color.0;
        proof {
            lemma_point_writes_three_bytes(
                before,
                self.line_length as int,
                self.curr_color,
                x as int,
                y as int,
            );
        }
    }

    /// Draws the line from `from` towards `to`: one pixel in every column
    /// from `from.0` up to, but not including, `to.0`, in the row where the
    /// line through the two points crosses the column, rounded down. Steep
    /// lines come out with gaps. Nothing is drawn unless `from.0 < to.0`.
    pub fn line(&mut self, from: Point, to: Point)
        requires
            old(self).wf(),
            forall|x: int|
                from.0 <= x < to.0 ==> old(self).holds(x, #[trigger] line_y(from, to, x)),
        ensures
            final(self).wf(),
            old(self).same_sheet(final(self)),
            final(self).pixels() == with_line(
                old(self).pixels(),
                old(self).stride() as int,
                old(self).ink(),
                from,
                to,
            ),
    {
        let ghost before = self.frame@;
        let ghost stride = self.line_length as int;
        let ghost color = self.curr_color;
        if from.0 >= to.0 {
            proof {
                lemma_paint_nothing(
                    before,
                    stride,
                    color,
                    line_span(from, to, from.0 as int, to.0 as int),
                );
            }
            return ;
        }
        let eq = solve_linear_eq(from, to);
        let mut x: u32 = from.0;
        proof {
            lemma_paint_nothing(
                before,
                stride,
                color,
                line_span(from, to, from.0 as int, x as int),
            );
        }
        while x < to.0
            invariant
                from.0 <= x <= to.0,
                self.wf(),
                old(self).same_sheet(&*self),
                stride == self.line_length,
                color == self.curr_color,
                before == old(self).pixels(),
                solves(eq, from, to),
                eq.wf(),
                forall|x: int|
                    from.0 <= x < to.0 ==> old(self).holds(x, #[trigger] line_y(from, to, x)),
                self.frame@ == painted(
                    before,
                    stride,
                    color,
                    line_span(from, to, from.0 as int, x as int),
                ),
            decreases to.0 - x,
        {
            assert(self.holds(x as int, line_y(from, to, x as int)));
            let y: u32 = eq.y(x).unwrap();
            self.point(x, y);
            proof {
                lemma_paint_union(
                    before,
                    stride,
                    color,
                    line_span(from, to, from.0 as int, x as int),
                    spot(x as int, y as int),
                    line_span(from, to, from.0 as int, x + 1),
                );
            }
            x += 1;
        }
    }

    /// Draws vertical line: column `from.0` in the rows from `from.1` up to,
    /// but not including, `to.1`. The column of `to` plays no part.
    pub fn vline(&mut self, from: Point, to: Point)
        requires
            old(self).wf(),
            from.1 < to.1 ==> from.0 < old(self).spec_width() && to.1 <= old(self).spec_height(),
        ensures
            final(self).wf(),
            old(self).same_sheet(final(self)),
            final(self).pixels() == with_vline(
                old(self).pixels(),
                old(self).stride() as int,
                old(self).ink(),
                from,
                to,
            ),
    {
        let ghost before = self.frame@;
        let ghost stride = self.line_length as int;
        let ghost color = self.curr_color;
        proof {
            lemma_paint_nothing(
                before,
                stride,
                color,
                column_span(from.0 as int, from.1 as int, from.1 as int),
            );
        }
        if from.1 >= to.1 {
            proof {
                lemma_paint_nothing(
                    before,
                    stride,
                    color,
                    column_span(from.0 as int, from.1 as int, to.1 as int),
                );
            }
            return ;
        }
        let mut y: u32 = from.1;
        while y < to.1
            invariant
                from.1 <= y <= to.1,
                self.wf(),
                old(self).same_sheet(&*self),
                stride == self.line_length,
                color == self.curr_color,
                from.1 < to.1 ==> from.0 < old(self).spec_width() && to.1 <= old(
                    self,
                ).spec_height(),
                self.frame@ == painted(
                    before,
                    stride,
                    color,
                    column_span(from.0 as int, from.1 as int, y as int),
                ),
            decreases to.1 - y,
        {
            self.point(from.0, y);
            proof {
                lemma_paint_union(
                    before,
                    stride,
                    color,
                    column_span(from.0 as int, from.1 as int, y as int),
                    spot(from.0 as int, y as int),
                    column_span(from.0 as int, from.1 as int, y + 1),
                );
            }
            y += 1;
        }
    }

    /// Draws a filled rect: the pixels in the columns from `left_top.0` and
    /// the rows from `left_top.1`, up to, but not including, column
    /// `right_bottom.0` and row `right_bottom.1`.
    pub fn rect(&mut self, left_top: Point, right_bottom: Point)
        requires
            old(self).wf(),
            left_top.0 < right_bottom.0 && left_top.1 < right_bottom.1 ==> right_bottom.0 <= old(
                self,
            ).spec_width() && right_bottom.1 <= old(self).spec_height(),
        ensures
            final(self).wf(),
            old(self).same_sheet(final(self)),
            final(self).pixels() == with_rect(
                old(self).pixels(),
                old(self).stride() as int,
                old(self).ink(),
                left_top,
                right_bottom,
            ),
    {
        let ghost before = self.frame@;
        let ghost stride = self.line_length as int;
        let ghost color = self.curr_color;
        let ghost (left, top) = (left_top.0 as int, left_top.1 as int);
        let ghost (right, bottom) = (right_bottom.0 as int, right_bottom.1 as int);
        proof {
            lemma_paint_nothing(before, stride, color, block(left, top, right, top));
        }
        if left_top.0 >= right_bottom.0 || left_top.1 >= right_bottom.1 {
            proof {
                lemma_paint_nothing(before, stride, color, block(left, top, right, bottom));
            }
            return ;
        }
        let mut y: u32 = left_top.1;
        while y < right_bottom.1
            invariant
                left_top.1 <= y <= right_bottom.1,
                left < right,
                self.wf(),
                old(self).same_sheet(&*self),
                stride == self.line_length,
                color == self.curr_color,
                left == left_top.0 && top == left_top.1 && right == right_bottom.0 && bottom
                    == right_bottom.1,
                left < right && top < bottom ==> right <= old(self).spec_width() && bottom <= old(
                    self,
                ).spec_height(),
                self.frame@ == painted(before, stride, color, block(left, top, right, y as int)),
            decreases right_bottom.1 - y,
        {
            let ghost rows_above = self.frame@;
            let mut x: u32 = left_top.0;
            proof {
                lemma_paint_nothing(rows_above, stride, color, row_span(y as int, left, x as int));
            }
            while x < right_bottom.0
                invariant
                    left_top.0 <= x <= right_bottom.0,
                    top <= y < bottom,
                    self.wf(),
                    old(self).same_sheet(&*self),
                    stride == self.line_length,
                    color == self.curr_color,
                    left == left_top.0 && right == right_bottom.0,
                    left < right && top < bottom ==> right <= old(self).spec_width() && bottom
                        <= old(self).spec_height(),
                    self.frame@ == painted(
                        rows_above,
                        stride,
                        color,
                        row_span(y as int, left, x as int),
                    ),
                decreases right_bottom.0 - x,
            {
                self.point(x, y);
                proof {
                    lemma_paint_union(
                        rows_above,
                        stride,
                        color,
                        row_span(y as int, left, x as int),
                        spot(x as int, y as int),
                        row_span(y as int, left, x + 1),
                    );
                }
                x += 1;
            }
            proof {
                lemma_paint_union(
                    before,
                    stride,
                    color,
                    block(left, top, right, y as int),
                    row_span(y as int, left, x as int),
                    block(left, top, right, y + 1),
                );
            }
            y += 1;
        }
    }

    /// Draw sprite to the frame, with its top left corner at pixel `(x, y)`.
    ///
    /// The rows of the sprite are copied as they are: a sprite carries its
    /// own colours, and the drawing colour plays no part.
    pub fn sprite_to(&mut self, x: u32, y: u32, img: &Sprite)
        requires
            old(self).wf(),
            img.wf(),
            x + TILE_SIZE <= old(self).spec_width(),
            y + TILE_SIZE <= old(self).spec_height(),
        ensures
            final(self).wf(),
            old(self).same_sheet(final(self)),
            final(self).pixels() == blitted(
                old(self).pixels(),
                old(self).stride() as int,
                x as int,
                y as int,
                img@,
            ),
    {
        let ghost before = self.frame@;
        let ghost stride = self.line_length as int;
        let ghost tile = img@;
        let mut row: usize = 0;
        assert(self.frame@ =~= blitted_part(before, stride, x as int, y as int, tile, 0, 0));
        while row < img.data.len()
            invariant
                row <= img.data@.len(),
                self.wf(),
                img.wf(),
                old(self).same_sheet(&*self),
                stride == self.line_length,
                tile == img@,
                tile.len() == img.data@.len(),
                x + TILE_SIZE <= self.spec_width(),
                y + TILE_SIZE <= self.spec_height(),
                self.frame@ == blitted_part(
                    before,
                    stride,
                    x as int,
                    y as int,
                    tile,
                    row as int,
                    0,
                ),
            decreases img.data@.len() - row,
        {
            let line = &img.data[row];
            proof {
                self.lemma_pixel_in_frame(x as int, y + row);
                self.lemma_pixel_in_frame(x + TILE_SIZE - 1, y + row);
            }
            let start = ((y + row as u32) * self.line_length + x * 4) as usize;
            let mut col: usize = 0;
            while col < line.len()
                invariant
                    col <= line@.len(),
                    row < tile.len(),
                    line@ == tile[row as int],
                    line@.len() == 4 * TILE_SIZE,
                    self.wf(),
                    old(self).same_sheet(&*self),
                    stride == self.line_length,
                    start == offset(stride, x as int, y + row),
                    start + line@.len() <= self.frame@.len(),
                    4 * x + line@.len() <= stride,
                    self.frame@ == blitted_part(
                        before,
                        stride,
                        x as int,
                        y as int,
                        tile,
                        row as int,
                        col as int,
                    ),
                decreases line@.len() - col,
            {
                proof {
                    lemma_blit_byte(
                        before,
                        self.frame@,
                        stride,
                        x as int,
                        y as int,
                        tile,
                        row as int,
                        col as int,
                    );
                }
                self.frame[start + col] = line[col];
                col += 1;
            }
            proof {
                lemma_blit_row(before, stride, x as int, y as int, tile, row as int);
            }
            row += 1;
        }
    }

    /// The frame, for the device to show.
    pub fn draw(&self) -> (frame: &Vec<u8>)
        ensures
            frame@ == self.pixels(),
    {
        &self.frame
    }

    /// Sets every byte of the frame to zero.
    pub fn clear(&mut self)
        ensures
            old(self).same_sheet(final(self)),
            final(self).wf() == old(self).wf(),
            final(self).pixels() == blank(old(self).pixels().len()),
            forall|i: int|
                0 <= i < final(self).pixels().len() ==> #[trigger] final(self).pixels()[i] == 0,
    {
        let n: usize = self.frame.len();
        let mut i: usize = 0;
        while i < n
            invariant
                i <= n,
                self.frame@.len() == n,
                self.width == old(self).width,
                self.height == old(self).height,
                self.line_length == old(self).line_length,
                self.curr_color == old(self).curr_color,
                forall|j: int| 0 <= j < i ==> self.frame@[j] == 0u8,
            decreases n - i,
        {
            self.frame[i] = 0;
            i += 1;
        }
        assert(self.frame@ =~= blank(n as nat));
    }
}

/// The width and the height of a tile, in pixels.
pub const TILE_SIZE: usize = 25;

/// The four bytes of pixel `(x, y)` of a tile, in the order in which the
/// frame stores them: blue, green, red and the unused one.
pub open spec fn tile_pixel(tile: Seq<Seq<u8>>, x: int, y: int) -> (u8, u8, u8, u8) {
    row_pixel(tile[y], x)
}

/// The four bytes of pixel `x` of one row of a tile.
pub open spec fn row_pixel(line: Seq<u8>, x: int) -> (u8, u8, u8, u8) {
    (line[4 * x], line[4 * x + 1], line[4 * x + 2], line[4 * x + 3])
}

/// Whether pixel `(x, y)` of the head tile for `direction` belongs to the
/// eye marks: two groups of four by four pixels on the side of the tile that
/// the snake is heading for.
pub open spec fn eye_mark(direction: MovementDirection, x: int, y: int) -> bool {
    match direction {
        MovementDirection::Left => 5 <= x < 9 && (5 <= y < 9 || 17 <= y < 21),
        MovementDirection::Right => 16 <= x < 20 && (5 <= y < 9 || 17 <= y < 21),
        MovementDirection::Up => (5 <= x < 9 || 16 <= x < 20) && 5 <= y < 9,
        MovementDirection::Down => (5 <= x < 9 || 16 <= x < 20) && 17 <= y < 21,
    }
}

/// The bytes of a pixel of a head tile: blue for an eye mark, yellow
/// elsewhere.
pub open spec fn head_quad(mark: bool) -> (u8, u8, u8, u8) {
    if mark {
        (255, 0, 0, 0)
    } else {
        (0, 255, 255, 0)
    }
}

/// The bytes of pixel `(x, y)` of the head tile for `direction`: yellow, with
/// blue eye marks.
pub open spec fn head_pixel(direction: MovementDirection, x: int, y: int) -> (u8, u8, u8, u8) {
    head_quad(eye_mark(direction, x, y))
}

/// The bytes of every pixel of the body tile: green.
pub open spec fn body_pixel() -> (u8, u8, u8, u8) {
    (0, 255, 0, 0)
}

/// Byte `k` of the four bytes `quad` of a pixel.
pub open spec fn quad_byte(quad: (u8, u8, u8, u8), k: int) -> u8 {
    if k == 0 {
        quad.0
    } else if k == 1 {
        quad.1
    } else if k == 2 {
        quad.2
    } else {
        quad.3
    }
}

/// The rows of the tile whose pixel `(x, y)` holds the bytes `paint(x, y)`.
pub open spec fn tile_of(paint: spec_fn(int, int) -> (u8, u8, u8, u8)) -> Seq<Seq<u8>> {
    Seq::new(
        TILE_SIZE as nat,
        |y: int| Seq::new((4 * TILE_SIZE) as nat, |b: int| quad_byte(paint(b / 4, y), b % 4)),
    )
}

/// The rows of the tile whose pixels all hold the bytes `quad`.
pub open spec fn plain_tile(quad: (u8, u8, u8, u8)) -> Seq<Seq<u8>> {
    tile_of(|x: int, y: int| quad)
}

/// The rows of the head tile for `direction`.
pub open spec fn head_tile(direction: MovementDirection) -> Seq<Seq<u8>> {
    tile_of(|x: int, y: int| head_pixel(direction, x, y))
}

/// The rows of the body tile.
pub open spec fn body_tile() -> Seq<Seq<u8>> {
    plain_tile(body_pixel())
}

/// A tile of the right shape is known by its pixels.
pub proof fn lemma_tile_by_pixels(tile: Seq<Seq<u8>>, paint: spec_fn(int, int) -> (u8, u8, u8, u8))
    requires
        tile.len() == TILE_SIZE,
        forall|y: int| 0 <= y < TILE_SIZE ==> (#[trigger] tile[y]).len() == 4 * TILE_SIZE,
    ensures
        tile == tile_of(paint) <==> forall|x: int, y: int|
            0 <= x < TILE_SIZE && 0 <= y < TILE_SIZE ==> #[trigger] tile_pixel(tile, x, y)
                == paint(x, y),
{
    if tile == tile_of(paint) {
        assert forall|x: int, y: int| 0 <= x < TILE_SIZE && 0 <= y < TILE_SIZE implies
            #[trigger] tile_pixel(tile, x, y) == paint(x, y) by {
            let row = tile_of(paint)[y];
            assert(tile[y] == row);
            assert(row[4 * x] == quad_byte(paint((4 * x) / 4, y), (4 * x) % 4));
            assert(row[4 * x + 1] == quad_byte(paint((4 * x + 1) / 4, y), (4 * x + 1) % 4));
            assert(row[4 * x + 2] == quad_byte(paint((4 * x + 2) / 4, y), (4 * x + 2) % 4));
            assert(row[4 * x + 3] == quad_byte(paint((4 * x + 3) / 4, y), (4 * x + 3) % 4));
        }
    }
    if forall|x: int, y: int|
        0 <= x < TILE_SIZE && 0 <= y < TILE_SIZE ==> #[trigger] tile_pixel(tile, x, y) == paint(
            x,
            y,
        ) {
        assert forall|y: int| 0 <= y < TILE_SIZE implies tile[y] =~= tile_of(paint)[y] by {
            assert forall|b: int| 0 <= b < 4 * TILE_SIZE implies tile[y][b] == tile_of(
                paint,
            )[y][b] by {
                assert(tile_pixel(tile, b / 4, y) == paint(b / 4, y));
            }
        }
        assert(tile =~= tile_of(paint));
    }
}

/// No two head tiles look alike: for two different directions some pixel of
/// the tile differs.
pub proof fn lemma_heads_differ(a: MovementDirection, b: MovementDirection)
    requires
        a != b,
    ensures
        exists|x: int, y: int|
            0 <= x < TILE_SIZE && 0 <= y < TILE_SIZE && #[trigger] head_pixel(a, x, y)
                != head_pixel(b, x, y),
        head_tile(a) != head_tile(b),
{
    let (x, y): (int, int) = match (a, b) {
        (MovementDirection::Left, MovementDirection::Up)
        | (MovementDirection::Up, MovementDirection::Left) => (5, 17),
        (MovementDirection::Right, MovementDirection::Up)
        | (MovementDirection::Up, MovementDirection::Right) => (16, 17),
        (MovementDirection::Right, MovementDirection::Down)
        | (MovementDirection::Down, MovementDirection::Right) => (16, 5),
        _ => (5, 5),
    };
    assert(head_pixel(a, x, y) != head_pixel(b, x, y));
    lemma_tile_by_pixels(head_tile(a), |u: int, v: int| head_pixel(a, u, v));
    lemma_tile_by_pixels(head_tile(b), |u: int, v: int| head_pixel(b, u, v));
    assert(tile_pixel(head_tile(a), x, y) == head_pixel(a, x, y));
    assert(tile_pixel(head_tile(b), x, y) == head_pixel(b, x, y));
}

/// No pixel of a head tile has the colour of the body tile.
pub proof fn lemma_head_is_not_body(direction: MovementDirection, x: int, y: int)
    ensures
        head_pixel(direction, x, y) != body_pixel(),
{
}

/// A square tile of pixels, stored row by row as the frame stores them.
pub struct Sprite {
    data: Vec<Vec<u8>>,
    width: usize,
}

impl View for Sprite {
    type V = Seq<Seq<u8>>;

    /// The rows of the tile, each as its bytes.
    closed spec fn view(&self) -> Seq<Seq<u8>> {
        Seq::new(self.data@.len(), |i: int| self.data@[i]@)
    }
}

impl Sprite {
    /// The number of pixels in a row.
    pub closed spec fn spec_width(&self) -> usize {
        self.width
    }

    /// The tile has `TILE_SIZE` rows of `TILE_SIZE` pixels.
    pub open spec fn wf(&self) -> bool {
        &&& self.spec_width() == TILE_SIZE
        &&& self@.len() == TILE_SIZE
        &&& forall|y: int| 0 <= y < TILE_SIZE ==> (#[trigger] self@[y]).len() == 4 * TILE_SIZE
    }

    /// A tile whose pixels all hold `color.0`, `color.1`, `color.2` and 0, in
    /// that order: the colour is given as (blue, green, red).
    pub fn cell(color: (u8, u8, u8)) -> (sprite: Sprite)
        ensures
            sprite.wf(),
            sprite@ == plain_tile((color.0, color.1, color.2, 0u8)),
    {
        let mut data = Vec::<Vec<u8>>::new();
        let width: usize = 25;
        let mut y: usize = 0;
        while y < 25
            invariant
                y <= 25,
                width == 25,
                data@.len() == y,
                forall|v: int| 0 <= v < y ==> (#[trigger] data@[v])@.len() == 100,
                forall|v: int, x: int|
                    0 <= v < y && 0 <= x < 25 ==> #[trigger] row_pixel(data@[v]@, x) == (
                        color.0,
                        color.1,
                        color.2,
                        0u8,
                    ),
            decreases 25 - y,
        {
            let mut line = Vec::<u8>::new();
            let mut x: usize = 0;
            while x < width
                invariant
                    x <= width,
                    width == 25,
                    line@.len() == 4 * x,
                    forall|u: int|
                        0 <= u < x ==> #[trigger] row_pixel(line@, u) == (
                            color.0,
                            color.1,
                            color.2,
                            0u8,
                        ),
                decreases width - x,
            {
                let ghost shorter = line@;
                line.push(color.0);
                line.push(color.1);
                line.push(color.2);
                line.push(0);
                assert forall|u: int| 0 <= u < x + 1 implies #[trigger] row_pixel(line@, u) == (
                    color.0,
                    color.1,
                    color.2,
                    0u8,
                ) by {
                    if u < x {
                        assert(row_pixel(line@, u) == row_pixel(shorter, u));
                    }
                }
                x += 1;
            }
            data.push(line);
            y += 1;
        }
        let sprite = Sprite { data, width };
        proof {
            assert forall|x: int, y: int| 0 <= x < TILE_SIZE && 0 <= y < TILE_SIZE implies
                #[trigger] tile_pixel(sprite@, x, y) == (color.0, color.1, color.2, 0u8) by {
                assert(row_pixel(data@[y]@, x) == (color.0, color.1, color.2, 0u8));
            }
            lemma_tile_by_pixels(sprite@, |x: int, y: int| (color.0, color.1, color.2, 0u8));
        }
        sprite
    }

    /// The rows of the tile, each as its bytes.
    pub fn rows(&self) -> (rows: &Vec<Vec<u8>>)
        ensures
            rows@.len() == self@.len(),
            forall|y: int| 0 <= y < rows@.len() ==> (#[trigger] rows@[y])@ == self@[y],
    {
        &self.data
    }

    /// The tile of a body segment.
    pub fn body() -> (sprite: Sprite)
        ensures
            sprite.wf(),
            sprite@ == body_tile(),
    {
        Sprite::cell((0, 255, 0))
    }

    /// The head tile of a snake that moves left: the eye marks stand near the
    /// left edge.
    pub fn head_left() -> (sprite: Sprite)
        ensures
            sprite.wf(),
            sprite@ == head_tile(MovementDirection::Left),
    {
        let mut sprite = Sprite::cell((0, 255, 255));
        let rgb: (u8, u8, u8) = (0, 0, 255);
        let mut y: usize = 5;
        while y < 9
            invariant
                5 <= y <= 9,
                sprite.wf(),
                sprite.spec_width() == 25,
                rgb == (0u8, 0u8, 255u8),
                forall|u: int, v: int|
                    0 <= u < TILE_SIZE && 0 <= v < TILE_SIZE ==> #[trigger] tile_pixel(
                        sprite@,
                        u,
                        v,
                    ) == head_quad(5 <= u < 9 && 5 <= v < y),
            decreases 9 - y,
        {
            sprite.point(20, y, &rgb);
            sprite.point(24, y, &rgb);
            sprite.point(28, y, &rgb);
            sprite.point(32, y, &rgb);
            y += 1;
        }
        let mut y: usize = 17;
        while y < 21
            invariant
                17 <= y <= 21,
                sprite.wf(),
                sprite.spec_width() == 25,
                rgb == (0u8, 0u8, 255u8),
                forall|u: int, v: int|
                    0 <= u < TILE_SIZE && 0 <= v < TILE_SIZE ==> #[trigger] tile_pixel(
                        sprite@,
                        u,
                        v,
                    ) == head_quad(5 <= u < 9 && (5 <= v < 9 || 17 <= v < y)),
            decreases 21 - y,
        {
            sprite.point(20, y, &rgb);
            sprite.point(24, y, &rgb);
            sprite.point(28, y, &rgb);
            sprite.point(32, y, &rgb);
            y += 1;
        }
        proof {
            lemma_tile_by_pixels(
                sprite@,
                |x: int, y: int| head_pixel(MovementDirection::Left, x, y),
            );
        }
        sprite
    }

    /// The head tile of a snake that moves right: the eye marks stand near the
    /// right edge.
    pub fn head_right() -> (sprite: Sprite)
        ensures
            sprite.wf(),
            sprite@ == head_tile(MovementDirection::Right),
    {
        let mut sprite = Sprite::cell((0, 255, 255));
        let rgb: (u8, u8, u8) = (0, 0, 255);
        let left_off: usize = (sprite.width - sprite.width / 5 - 4) * 4;
        let mut y: usize = 5;
        while y < 9
            invariant
                5 <= y <= 9,
                sprite.wf(),
                sprite.spec_width() == 25,
                rgb == (0u8, 0u8, 255u8),
                left_off == 64,
                forall|u: int, v: int|
                    0 <= u < TILE_SIZE && 0 <= v < TILE_SIZE ==> #[trigger] tile_pixel(
                        sprite@,
                        u,
                        v,
                    ) == head_quad(16 <= u < 20 && 5 <= v < y),
            decreases 9 - y,
        {
            sprite.point(left_off, y, &rgb);
            sprite.point(left_off + 4, y, &rgb);
            sprite.point(left_off + 8, y, &rgb);
            sprite.point(left_off + 12, y, &rgb);
            y += 1;
        }
        let mut y: usize = 17;
        while y < 21
            invariant
                17 <= y <= 21,
                sprite.wf(),
                sprite.spec_width() == 25,
                rgb == (0u8, 0u8, 255u8),
                left_off == 64,
                forall|u: int, v: int|
                    0 <= u < TILE_SIZE && 0 <= v < TILE_SIZE ==> #[trigger] tile_pixel(
                        sprite@,
                        u,
                        v,
                    ) == head_quad(16 <= u < 20 && (5 <= v < 9 || 17 <= v < y)),
            decreases 21 - y,
        {
            sprite.point(left_off, y, &rgb);
            sprite.point(left_off + 4, y, &rgb);
            sprite.point(left_off + 8, y, &rgb);
            sprite.point(left_off + 12, y, &rgb);
            y += 1;
        }
        proof {
            lemma_tile_by_pixels(
                sprite@,
                |x: int, y: int| head_pixel(MovementDirection::Right, x, y),
            );
        }
        sprite
    }

    /// The head tile of a snake that moves up: the eye marks stand near the
    /// top edge.
    pub fn head_up() -> (sprite: Sprite)
        ensures
            sprite.wf(),
            sprite@ == head_tile(MovementDirection::Up),
    {
        let mut sprite = Sprite::cell((0, 255, 255));
        let rgb: (u8, u8, u8) = (0, 0, 255);
        let xoff: usize = 20;
        let xoff2: usize = (sprite.width - sprite.width / 5 - 4) * 4;
        let mut y: usize = 5;
        while y < 9
            invariant
                5 <= y <= 9,
                sprite.wf(),
                sprite.spec_width() == 25,
                rgb == (0u8, 0u8, 255u8),
                xoff == 20,
                xoff2 == 64,
                forall|u: int, v: int|
                    0 <= u < TILE_SIZE && 0 <= v < TILE_SIZE ==> #[trigger] tile_pixel(
                        sprite@,
                        u,
                        v,
                    ) == head_quad((5 <= u < 9 || 16 <= u < 20) && 5 <= v < y),
            decreases 9 - y,
        {
            sprite.point(xoff, y, &rgb);
            sprite.point(xoff + 4, y, &rgb);
            sprite.point(xoff + 8, y, &rgb);
            sprite.point(xoff + 12, y, &rgb);
            sprite.point(xoff2, y, &rgb);
            sprite.point(xoff2 + 4, y, &rgb);
            sprite.point(xoff2 + 8, y, &rgb);
            sprite.point(xoff2 + 12, y, &rgb);
            y += 1;
        }
        proof {
            lemma_tile_by_pixels(
                sprite@,
                |x: int, y: int| head_pixel(MovementDirection::Up, x, y),
            );
        }
        sprite
    }

    /// The head tile of a snake that moves down: the eye marks stand near the
    /// bottom edge.
    pub fn head_down() -> (sprite: Sprite)
        ensures
            sprite.wf(),
            sprite@ == head_tile(MovementDirection::Down),
    {
        let mut sprite = Sprite::cell((0, 255, 255));
        let rgb: (u8, u8, u8) = (0, 0, 255);
        let xoff: usize = 20;
        let xoff2: usize = (sprite.width - sprite.width / 5 - 4) * 4;
        let mut y: usize = sprite.width - 8;
        while y < sprite.width - 4
            invariant
                17 <= y <= 21,
                sprite.wf(),
                sprite.spec_width() == 25,
                rgb == (0u8, 0u8, 255u8),
                xoff == 20,
                xoff2 == 64,
                forall|u: int, v: int|
                    0 <= u < TILE_SIZE && 0 <= v < TILE_SIZE ==> #[trigger] tile_pixel(
                        sprite@,
                        u,
                        v,
                    ) == head_quad((5 <= u < 9 || 16 <= u < 20) && 17 <= v < y),
            decreases 21 - y,
        {
            sprite.point(xoff, y, &rgb);
            sprite.point(xoff + 4, y, &rgb);
            sprite.point(xoff + 8, y, &rgb);
            sprite.point(xoff + 12, y, &rgb);
            sprite.point(xoff2, y, &rgb);
            sprite.point(xoff2 + 4, y, &rgb);
            sprite.point(xoff2 + 8, y, &rgb);
            sprite.point(xoff2 + 12, y, &rgb);
            y += 1;
        }
        proof {
            lemma_tile_by_pixels(
                sprite@,
                |x: int, y: int| head_pixel(MovementDirection::Down, x, y),
            );
        }
        sprite
    }

    /// Writes a pixel of colour `color`, given as (red, green, blue), into
    /// row `y`, at the byte `x` of that row.
    fn point(&mut self, x: usize, y: usize, color: &(u8, u8, u8))
        requires
            old(self).wf(),
            y < TILE_SIZE,
            x + 3 < 4 * TILE_SIZE,
        ensures
            final(self).wf(),
            final(self)@ == old(self)@.update(
                y as int,
                old(self)@[y as int].update(x as int, color.2).update(x + 1, color.1).update(
                    x + 2,
                    color.0,
                ).update(x + 3, 0u8),
            ),
            x % 4 == 0 ==> forall|u: int, v: int|
                0 <= u < TILE_SIZE && 0 <= v < TILE_SIZE ==> #[trigger] tile_pixel(
                    final(self)@,
                    u,
                    v,
                ) == (if u == x / 4 && v == y {
                    (color.2, color.1, color.0, 0u8)
                } else {
                    tile_pixel(old(self)@, u, v)
                }),
    {
        assert(self@[y as int].len() == 4 * TILE_SIZE);
        self.data[y][x] = color.2;
        self.data[y][x + 1] = color.1;
        self.data[y][x + 2] = color.0;
        self.data[y][x + 3] = 0;
        assert(self@ =~= old(self)@.update(
            y as int,
            old(self)@[y as int].update(x as int, color.2).update(x + 1, color.1).update(
                x + 2,
                color.0,
            ).update(x + 3, 0u8),
        ));
    }
}

} // verus!
