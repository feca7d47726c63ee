//! The pixel canvas of the result image and its shape primitives: points,
//! rectangles, horizontal lines and rounded rectangles, filled or stroked.

use vstd::prelude::*;

verus! {

/// A colour.
#[derive(Clone, Copy, PartialEq, Eq, Structural, Debug)]
pub struct Rgb {
    pub r: u8,
    pub g: u8,
    pub b: u8,
}

/// The bound on coordinates and sizes of the rounded shapes. Their corner
/// tests add up to four coordinates and square the result, and a stroke grows
/// the shape by its thickness: within this bound the sums fit in `i32` and
/// the squares in `i64`. Plain rectangles and lines need only that their ends
/// fit in `i32`.
pub const COORD_LIMIT: i32 = 16777216;

/// An image of `width` by `height` pixels, stored row by row.
pub struct Canvas {
    pub width: usize,
    pub height: usize,
    pub pixels: Vec<Rgb>,
}

/// A value within the coordinate bound.
pub open spec fn in_limit(v: int) -> bool {
    -COORD_LIMIT <= v <= COORD_LIMIT
}

/// The pixel at column `x`, row `y` of a row-by-row store `w` pixels wide.
pub open spec fn at(s: Seq<Rgb>, w: int, x: int, y: int) -> Rgb {
    s[y * w + x]
}

proof fn lemma_index(w: int, h: int, x: int, y: int)
    by (nonlinear_arith)
    requires
        0 <= x < w,
        0 <= y < h,
    ensures
        0 <= y * w + x < w * h,
{
}

proof fn lemma_index_unique(w: int, x: int, y: int, x2: int, y2: int)
    by (nonlinear_arith)
    requires
        0 <= x < w,
        0 <= x2 < w,
        0 <= y,
        0 <= y2,
        y * w + x == y2 * w + x2,
    ensures
        x == x2,
        y == y2,
{
}

impl Canvas {
    /// The store holds exactly `width * height` pixels.
    pub open spec fn wf(&self) -> bool {
        self.pixels@.len() == self.width * self.height
    }

    /// The pixel at (`x`, `y`).
    pub open spec fn pixel(&self, x: int, y: int) -> Rgb {
        at(self.pixels@, self.width as int, x, y)
    }

    /// (`x`, `y`) lies on the canvas.
    pub open spec fn on(&self, x: int, y: int) -> bool {
        0 <= x < self.width && 0 <= y < self.height
    }

    /// A canvas of one colour.
    pub fn new(width: usize, height: usize, fill: Rgb) -> (c: Canvas)
        requires
            width * height <= usize::MAX,
        ensures
            c.wf(),
            c.width == width,
            c.height == height,
            forall|x: int, y: int| c.on(x, y) ==> #[trigger] c.pixel(x, y) == fill,
    {
        let n = width * height;
        let mut pixels: Vec<Rgb> = Vec::new();
        let mut i: usize = 0;
        while i < n
            invariant
                i <= n,
                n == width * height,
                pixels@.len() == i,
                forall|k: int| 0 <= k < i ==> #[trigger] pixels@[k] == fill,
            decreases n - i,
        {
            pixels.push(fill);
            i += 1;
        }
        let c = Canvas { width, height, pixels };
        assert forall|x: int, y: int| c.on(x, y) implies #[trigger] c.pixel(x, y) == fill by {
            lemma_index(width as int, height as int, x, y);
        }
        c
    }

    /// Paints one pixel; points off the canvas are ignored.
    pub fn put(&mut self, x: i32, y: i32, color: Rgb)
        requires
            old(self).wf(),
        ensures
            final(self).wf(),
            final(self).width == old(self).width,
            final(self).height == old(self).height,
            forall|xx: int, yy: int| #[trigger] final(self).pixel(xx, yy) == (if xx == x && yy == y && old(self).on(xx, yy) {
                color
            } else {
                old(self).pixel(xx, yy)
            }) || !old(self).on(xx, yy),
    {
        if x < 0 || y < 0 {
            return;
        }
        let xu = x as usize;
        let yu = y as usize;
        if xu < self.width && yu < self.height {
            proof {
                lemma_index(self.width as int, self.height as int, xu as int, yu as int);
            }
            let n = self.pixels.len();
            assert(yu * self.width + xu < n) by {
                lemma_index(self.width as int, self.height as int, xu as int, yu as int);
            }
            assert(yu * self.width <= yu * self.width + xu);
            let idx = yu * self.width + xu;
            let ghost before = *self;
            self.pixels.set(idx, color);
            assert forall|xx: int, yy: int| #[trigger] self.pixel(xx, yy) == (if xx == x && yy == y && before.on(xx, yy) {
                color
            } else {
                before.pixel(xx, yy)
            }) || !before.on(xx, yy) by {
                if before.on(xx, yy) {
                    lemma_index(self.width as int, self.height as int, xx, yy);
                    if yy * self.width + xx == idx {
                        lemma_index_unique(self.width as int, xx, yy, xu as int, yu as int);
                    }
                }
            }
        }
    }

    /// Fills the rectangle with corner (`x`, `y`) and size `w` by `h`; an
    /// empty size draws nothing.
    pub fn fill_rect(&mut self, x: i32, y: i32, w: i32, h: i32, color: Rgb)
        requires
            old(self).wf(),
            w > 0 && h > 0 ==> x + w <= i32::MAX && y + h <= i32::MAX,
        ensures
            final(self).wf(),
            final(self).width == old(self).width,
            final(self).height == old(self).height,
            forall|xx: int, yy: int| old(self).on(xx, yy) ==> #[trigger] final(self).pixel(xx, yy) == (if x <= xx < x
                + w && y <= yy < y + h {
                color
            } else {
                old(self).pixel(xx, yy)
            }),
    {
        let ghost start = *self;
        if w <= 0 || h <= 0 {
            return;
        }
        let mut py = y;
        while py < y + h
            invariant
                self.wf(),
                self.width == start.width,
                self.height == start.height,
                y <= py <= y + h,
                x + w <= i32::MAX,
                y + h <= i32::MAX,
                w > 0,
                forall|xx: int, yy: int| start.on(xx, yy) ==> #[trigger] self.pixel(xx, yy) == (if x <= xx < x + w && y
                    <= yy < py {
                    color
                } else {
                    start.pixel(xx, yy)
                }),
            decreases y + h - py,
        {
            let mut px = x;
            while px < x + w
                invariant
                    self.wf(),
                    self.width == start.width,
                    self.height == start.height,
                    y <= py < y + h,
                    x <= px <= x + w,
                    x + w <= i32::MAX,
                    y + h <= i32::MAX,
                    forall|xx: int, yy: int| start.on(xx, yy) ==> #[trigger] self.pixel(xx, yy) == (if x <= xx < x + w
                        && ((y <= yy < py) || (yy == py && xx < px)) {
                        color
                    } else {
                        start.pixel(xx, yy)
                    }),
                decreases x + w - px,
            {
                self.put(px, py, color);
                px += 1;
            }
            py += 1;
        }
    }

    /// Fills the rectangle, keeping pixels outside the round corners of
    /// radius `r` (limited to half the sides).
    pub fn fill_round_rect(&mut self, x: i32, y: i32, w: i32, h: i32, r: i32, color: Rgb)
        requires
            old(self).wf(),
            in_wide(x as int),
            in_wide(y as int),
            in_wide(w as int),
            in_wide(h as int),
            in_wide(r as int),
        ensures
            final(self).wf(),
            final(self).width == old(self).width,
            final(self).height == old(self).height,
            forall|xx: int, yy: int| old(self).on(xx, yy) ==> #[trigger] final(self).pixel(xx, yy) == (if w > 0 && h > 0
                && inside_round_rect(xx, yy, x as int, y as int, w as int, h as int, clamp_radius(r as int, w / 2, h / 2)) {
                color
            } else {
                old(self).pixel(xx, yy)
            }),
    {
        if w <= 0 || h <= 0 {
            return;
        }
        let rr = clamp_radius_exec(r, w / 2, h / 2);
        self.fill_where(x, y, w, h, Shape::Round { h: h, r: rr }, color);
    }

    /// Fills the rectangle with only its two top corners rounded (radius
    /// limited to half the width and the height).
    pub fn fill_round_rect_top(&mut self, x: i32, y: i32, w: i32, h: i32, r: i32, color: Rgb)
        requires
            old(self).wf(),
            in_wide(x as int),
            in_wide(y as int),
            in_wide(w as int),
            in_wide(h as int),
            in_wide(r as int),
        ensures
            final(self).wf(),
            final(self).width == old(self).width,
            final(self).height == old(self).height,
            forall|xx: int, yy: int| old(self).on(xx, yy) ==> #[trigger] final(self).pixel(xx, yy) == (if w > 0 && h > 0
                && x <= xx < x + w && y <= yy < y + h && !in_top_corner(
                xx - x,
                yy - y,
                w as int,
                clamp_radius(r as int, w / 2, h as int),
            ) {
                color
            } else {
                old(self).pixel(xx, yy)
            }),
    {
        if w <= 0 || h <= 0 {
            return;
        }
        let rr = clamp_radius_exec(r, w / 2, h);
        self.fill_where(x, y, w, h, Shape::TopRound { r: rr }, color);
    }

    /// Fills the points of the rectangle with corner (`x`, `y`) and size `w`
    /// by `h` that `shape` picks.
    fn fill_where(&mut self, x: i32, y: i32, w: i32, h: i32, shape: Shape, color: Rgb)
        requires
            old(self).wf(),
            in_wide(x as int),
            in_wide(y as int),
            in_wide(w as int),
            in_wide(h as int),
            shape_ok(shape),
        ensures
            final(self).wf(),
            final(self).width == old(self).width,
            final(self).height == old(self).height,
            forall|xx: int, yy: int| old(self).on(xx, yy) ==> #[trigger] final(self).pixel(xx, yy) == (if x <= xx < x
                + w && y <= yy < y + h && shape_has(shape, xx, yy, x as int, y as int, w as int) {
                color
            } else {
                old(self).pixel(xx, yy)
            }),
    {
        let ghost start = *self;
        if w <= 0 || h <= 0 {
            return;
        }
        let mut py = y;
        while py < y + h
            invariant
                self.wf(),
                self.width == start.width,
                self.height == start.height,
                y <= py <= y + h,
                in_wide(x as int),
                in_wide(y as int),
                in_wide(w as int),
                in_wide(h as int),
                shape_ok(shape),
                w > 0,
                forall|xx: int, yy: int| start.on(xx, yy) ==> #[trigger] self.pixel(xx, yy) == (if x <= xx < x + w && y
                    <= yy < py && shape_has(shape, xx, yy, x as int, y as int, w as int) {
                    color
                } else {
                    start.pixel(xx, yy)
                }),
            decreases y + h - py,
        {
            let mut px = x;
            while px < x + w
                invariant
                    self.wf(),
                    self.width == start.width,
                    self.height == start.height,
                    y <= py < y + h,
                    x <= px <= x + w,
                    in_wide(x as int),
                    in_wide(y as int),
                    in_wide(w as int),
                    in_wide(h as int),
                    shape_ok(shape),
                    forall|xx: int, yy: int| start.on(xx, yy) ==> #[trigger] self.pixel(xx, yy) == (if x <= xx < x + w
                        && ((y <= yy < py) || (yy == py && xx < px)) && shape_has(shape, xx, yy, x as int, y as int, w as int) {
                        color
                    } else {
                        start.pixel(xx, yy)
                    }),
                decreases x + w - px,
            {
                let hit = shape_has_exec(shape, px, py, x, y, w);
                if hit {
                    self.put(px, py, color);
                }
                px += 1;
            }
            py += 1;
        }
    }

    /// Draws the horizontal line on row `y` from `x0` to `x1`, both ends
    /// included, in either order.
    pub fn hline(&mut self, x0: i32, x1: i32, y: i32, color: Rgb)
        requires
            old(self).wf(),
        ensures
            final(self).wf(),
            final(self).width == old(self).width,
            final(self).height == old(self).height,
            forall|xx: int, yy: int| old(self).on(xx, yy) ==> #[trigger] final(self).pixel(xx, yy) == (if yy == y && ((
            x0 <= xx <= x1) || (x1 <= xx <= x0)) {
                color
            } else {
                old(self).pixel(xx, yy)
            }),
    {
        let ghost start = *self;
        let (a, b) = if x0 <= x1 { (x0, x1) } else { (x1, x0) };
        let mut px = a;
        let mut done = false;
        while !done
            invariant
                self.wf(),
                self.width == start.width,
                self.height == start.height,
                a <= px <= b,
                a == (if x0 <= x1 { x0 } else { x1 }),
                b == (if x0 <= x1 { x1 } else { x0 }),
                forall|xx: int, yy: int| start.on(xx, yy) ==> #[trigger] self.pixel(xx, yy) == (if yy == y && a <= xx
                    < (if done { b + 1 } else { px as int }) {
                    color
                } else {
                    start.pixel(xx, yy)
                }),
            decreases b - px + (if done { 0int } else { 1int }),
        {
            self.put(px, y, color);
            if px == b {
                done = true;
            } else {
                px += 1;
            }
        }
    }

    /// Strokes the outline of a rounded rectangle `thick` pixels wide (at
    /// least one), growing outwards: ring `t` lies inside the rectangle grown
    /// by `t` and outside the one shrunk by `t + 1`.
    pub fn stroke_round_rect(&mut self, x: i32, y: i32, w: i32, h: i32, r: i32, color: Rgb, thick: i32)
        requires
            old(self).wf(),
            in_limit(x as int),
            in_limit(y as int),
            in_limit(w as int),
            in_limit(h as int),
            in_limit(r as int),
            0 <= thick <= COORD_LIMIT,
        ensures
            final(self).wf(),
            final(self).width == old(self).width,
            final(self).height == old(self).height,
            forall|xx: int, yy: int| old(self).on(xx, yy) ==> #[trigger] final(self).pixel(xx, yy) == (if w > 0 && h > 0
                && exists|t: int| 0 <= t < (if thick > 1 { thick as int } else { 1 }) && #[trigger] on_ring(xx, yy, x as int, y as int, w as int, h as int, clamp_radius(r as int, w / 2, h / 2), t) {
                color
            } else {
                old(self).pixel(xx, yy)
            }),
    {
        let ghost start = *self;
        if w <= 0 || h <= 0 {
            return;
        }
        let rr = clamp_radius_exec(r, w / 2, h / 2);
        let rings: i32 = if thick > 1 { thick } else { 1 };
        let mut t: i32 = 0;
        while t < rings
            invariant
                self.wf(),
                self.width == start.width,
                self.height == start.height,
                0 <= t <= rings <= COORD_LIMIT,
                rings == (if thick > 1 { thick as int } else { 1 }),
                in_limit(x as int),
                in_limit(y as int),
                in_limit(w as int),
                in_limit(h as int),
                0 <= rr <= COORD_LIMIT,
                rr == clamp_radius(r as int, w / 2, h / 2),
                forall|xx: int, yy: int| start.on(xx, yy) ==> #[trigger] self.pixel(xx, yy) == (if exists|s: int|
                    0 <= s < t && #[trigger] on_ring(xx, yy, x as int, y as int, w as int, h as int, rr as int, s) {
                    color
                } else {
                    start.pixel(xx, yy)
                }),
            decreases rings - t,
        {
            let ghost mid = *self;
            self.fill_where(
                x - t,
                y - t,
                w + 2 * t,
                h + 2 * t,
                Shape::Ring { x: x, y: y, w: w, h: h, r: rr, t: t },
                color,
            );
            assert forall|xx: int, yy: int| start.on(xx, yy) implies #[trigger] self.pixel(xx, yy) == (if exists|s: int|
                0 <= s < t + 1 && #[trigger] on_ring(xx, yy, x as int, y as int, w as int, h as int, rr as int, s) {
                color
            } else {
                start.pixel(xx, yy)
            }) by {
                if on_ring(xx, yy, x as int, y as int, w as int, h as int, rr as int, t as int) {
                    assert(exists|s: int| 0 <= s < t + 1 && #[trigger] on_ring(xx, yy, x as int, y as int, w as int, h as int, rr as int, s));
                } else {
                    if exists|s: int| 0 <= s < t + 1 && #[trigger] on_ring(xx, yy, x as int, y as int, w as int, h as int, rr as int, s) {
                        let s = choose|s: int| 0 <= s < t + 1 && #[trigger] on_ring(xx, yy, x as int, y as int, w as int, h as int, rr as int, s);
                        assert(s < t);
                    }
                }
            }
            t += 1;
        }
    }
}

/// The radius used for a rounded shape: `r` limited by both bounds, and not
/// negative.
pub open spec fn clamp_radius(r: int, a: int, b: int) -> int {
    let m1 = if r < a { r } else { a };
    let m2 = if m1 < b { m1 } else { b };
    if m2 < 0 {
        0
    } else {
        m2
    }
}

fn clamp_radius_exec(r: i32, a: i32, b: i32) -> (m: i32)
    ensures
        m == clamp_radius(r as int, a as int, b as int),
{
    let m1 = if r < a { r } else { a };
    let m2 = if m1 < b { m1 } else { b };
    if m2 < 0 {
        0
    } else {
        m2
    }
}

/// (`px`, `py`) lies in the rectangle with corner (`x`, `y`) and size `w`
/// by `h` whose corners are rounded with radius `r`: a point in a corner
/// square counts when it is within `r` of the corner's centre (measured to
/// the centre's far edge).
pub open spec fn inside_round_rect(px: int, py: int, x: int, y: int, w: int, h: int, r: int) -> bool {
    if px < x || py < y || px >= x + w || py >= y + h {
        false
    } else if r <= 0 {
        true
    } else {
        let lx = px - x;
        let ly = py - y;
        let c1 = lx < r && ly < r && (r - lx) * (r - lx) + (r - ly) * (r - ly) > r * r;
        let c2 = lx >= w - r && ly < r && (lx - (w - r - 1)) * (lx - (w - r - 1)) + (r - ly) * (r - ly) > r * r;
        let c3 = lx < r && ly >= h - r && (r - lx) * (r - lx) + (ly - (h - r - 1)) * (ly - (h - r - 1)) > r * r;
        let c4 = lx >= w - r && ly >= h - r && (lx - (w - r - 1)) * (lx - (w - r - 1)) + (ly - (h - r - 1)) * (ly - (h
            - r - 1)) > r * r;
        !(c1 || c2 || c3 || c4)
    }
}

/// The point at offset (`lx`, `ly`) of a rectangle `w` wide falls in a cut
/// top corner of radius `r`.
pub open spec fn in_top_corner(lx: int, ly: int, w: int, r: int) -> bool {
    (lx < r && ly < r && (r - lx) * (r - lx) + (r - ly) * (r - ly) > r * r) || (lx >= w - r && ly < r && (lx - (w
        - r - 1)) * (lx - (w - r - 1)) + (r - ly) * (r - ly) > r * r)
}

/// Which points of a rectangle a fill paints.
#[derive(Clone, Copy)]
pub enum Shape {
    /// All of them.
    Full,
    /// Those inside the rectangle `h` high rounded with radius `r`.
    Round { h: i32, r: i32 },
    /// Those outside its two cut top corners of radius `r`.
    TopRound { r: i32 },
    /// Those on ring `t` of the stroke of a rounded rectangle.
    Ring { x: i32, y: i32, w: i32, h: i32, r: i32, t: i32 },
}

/// A value within four times the coordinate bound.
pub open spec fn in_wide(v: int) -> bool {
    -4 * COORD_LIMIT <= v <= 4 * COORD_LIMIT
}

/// A shape's own numbers stay within the wide bound.
pub open spec fn shape_ok(s: Shape) -> bool {
    match s {
        Shape::Full => true,
        Shape::Round { h, r } => in_wide(h as int) && in_wide(r as int),
        Shape::TopRound { r } => in_wide(r as int),
        Shape::Ring { x, y, w, h, r, t } => in_wide(x as int) && in_wide(y as int) && in_wide(w as int) && in_wide(
            h as int,
        ) && in_wide(r as int) && 0 <= t <= COORD_LIMIT,
    }
}

/// The shape picks the point (`px`, `py`) of the rectangle at (`x`, `y`),
/// `w` wide.
pub open spec fn shape_has(s: Shape, px: int, py: int, x: int, y: int, w: int) -> bool {
    match s {
        Shape::Full => true,
        Shape::Round { h, r } => inside_round_rect(px, py, x, y, w, h as int, r as int),
        Shape::TopRound { r } => !in_top_corner(px - x, py - y, w, r as int),
        Shape::Ring { x: rx, y: ry, w: rw, h: rh, r, t } => on_ring(
            px,
            py,
            rx as int,
            ry as int,
            rw as int,
            rh as int,
            r as int,
            t as int,
        ),
    }
}

fn shape_has_exec(s: Shape, px: i32, py: i32, x: i32, y: i32, w: i32) -> (b: bool)
    requires
        shape_ok(s),
        in_wide(px as int) || (-8 * COORD_LIMIT <= px <= 8 * COORD_LIMIT),
        -8 * COORD_LIMIT <= px <= 8 * COORD_LIMIT,
        -8 * COORD_LIMIT <= py <= 8 * COORD_LIMIT,
        in_wide(x as int),
        in_wide(y as int),
        in_wide(w as int),
    ensures
        b == shape_has(s, px as int, py as int, x as int, y as int, w as int),
{
    match s {
        Shape::Full => true,
        Shape::Round { h, r } => inside_round_rect_exec(px, py, x, y, w, h, r),
        Shape::TopRound { r } => !in_top_corner_exec(px - x, py - y, w, r),
        Shape::Ring { x: rx, y: ry, w: rw, h: rh, r, t } => {
            let outer = inside_round_rect_exec(px, py, rx - t, ry - t, rw + 2 * t, rh + 2 * t, r + t);
            let ir = if r - t - 1 > 0 { r - t - 1 } else { 0 };
            let inner = inside_round_rect_exec(px, py, rx + t + 1, ry + t + 1, rw - 2 * t - 2, rh - 2 * t - 2, ir);
            outer && !inner
        },
    }
}

/// The point lies on ring `t` of a stroked rounded rectangle.
pub open spec fn on_ring(px: int, py: int, x: int, y: int, w: int, h: int, r: int, t: int) -> bool {
    inside_round_rect(px, py, x - t, y - t, w + 2 * t, h + 2 * t, r + t) && !inside_round_rect(
        px,
        py,
        x + t + 1,
        y + t + 1,
        w - 2 * t - 2,
        h - 2 * t - 2,
        if r - t - 1 > 0 { r - t - 1 } else { 0 },
    )
}

fn sq(a: i64) -> (r: i64)
    requires
        -0x4000_0000 <= a <= 0x4000_0000,
    ensures
        r == a * a,
        0 <= r <= 0x1000_0000_0000_0000,
{
    assert(0 <= a * a <= 0x1000_0000_0000_0000) by (nonlinear_arith)
        requires
            -0x4000_0000 <= a <= 0x4000_0000,
    ;
    a * a
}

/// Whether a point lies in a rounded rectangle.
pub fn inside_round_rect_exec(px: i32, py: i32, x: i32, y: i32, w: i32, h: i32, r: i32) -> (b: bool)
    requires
        -0x1000_0000 <= px <= 0x1000_0000,
        -0x1000_0000 <= py <= 0x1000_0000,
        -0x1000_0000 <= x <= 0x1000_0000,
        -0x1000_0000 <= y <= 0x1000_0000,
        -0x1000_0000 <= w <= 0x1000_0000,
        -0x1000_0000 <= h <= 0x1000_0000,
        -0x1000_0000 <= r <= 0x1000_0000,
    ensures
        b == inside_round_rect(px as int, py as int, x as int, y as int, w as int, h as int, r as int),
{
    let (px, py, x, y, w, h, r) = (px as i64, py as i64, x as i64, y as i64, w as i64, h as i64, r as i64);
    if px < x || py < y || px >= x + w || py >= y + h {
        return false;
    }
    if r <= 0 {
        return true;
    }
    let lx = px - x;
    let ly = py - y;
    let rr = sq(r);
    let c1 = lx < r && ly < r && sq(r - lx) + sq(r - ly) > rr;
    let c2 = lx >= w - r && ly < r && sq(lx - (w - r - 1)) + sq(r - ly) > rr;
    let c3 = lx < r && ly >= h - r && sq(r - lx) + sq(ly - (h - r - 1)) > rr;
    let c4 = lx >= w - r && ly >= h - r && sq(lx - (w - r - 1)) + sq(ly - (h - r - 1)) > rr;
    !(c1 || c2 || c3 || c4)
}

fn in_top_corner_exec(lx: i32, ly: i32, w: i32, r: i32) -> (b: bool)
    requires
        -0x1000_0000 <= lx <= 0x1000_0000,
        -0x1000_0000 <= ly <= 0x1000_0000,
        -0x1000_0000 <= w <= 0x1000_0000,
        -0x1000_0000 <= r <= 0x1000_0000,
    ensures
        b == in_top_corner(lx as int, ly as int, w as int, r as int),
{
    let (lx, ly, w, r) = (lx as i64, ly as i64, w as i64, r as i64);
    let rr = sq(r);
    (lx < r && ly < r && sq(r - lx) + sq(r - ly) > rr) || (lx >= w - r && ly < r && sq(lx - (w - r - 1)) + sq(r - ly)
        > rr)
}

/// The alpha value at (`x`, `y`) of a plane `w` pixels wide reaches `min`.
#[verifier::opaque]
pub open spec fn opaque_at(alpha: Seq<u8>, w: int, x: int, y: int, min: u8) -> bool {
    alpha[y * w + x] >= min
}

/// `r` is the bounding box (left, top, right, bottom, inclusive) of the
/// pixels whose alpha reaches `min`, or `None` when there is none.
pub open spec fn alpha_bounds_ok(r: Option<(usize, usize, usize, usize)>, alpha: Seq<u8>, w: int, h: int, min: u8) -> bool {
    match r {
        None => forall|x: int, y: int| 0 <= x < w && 0 <= y < h ==> !#[trigger] opaque_at(alpha, w, x, y, min),
        Some((x0, y0, x1, y1)) => {
            &&& x0 <= x1 < w
            &&& y0 <= y1 < h
            &&& forall|x: int, y: int|
                0 <= x < w && 0 <= y < h && #[trigger] opaque_at(alpha, w, x, y, min) ==> x0 <= x <= x1 && y0 <= y <= y1
            &&& exists|y: int| 0 <= y < h && #[trigger] opaque_at(alpha, w, x0 as int, y, min)
            &&& exists|y: int| 0 <= y < h && #[trigger] opaque_at(alpha, w, x1 as int, y, min)
            &&& exists|x: int| 0 <= x < w && #[trigger] opaque_at(alpha, w, x, y0 as int, min)
            &&& exists|x: int| 0 <= x < w && #[trigger] opaque_at(alpha, w, x, y1 as int, min)
        },
    }
}

/// The bounding box of the pixels of an alpha plane (`w` by `h`, row by
/// row) whose alpha reaches `min`.
pub fn alpha_bounds(alpha: &[u8], w: usize, h: usize, min: u8) -> (r: Option<(usize, usize, usize, usize)>)
    requires
        alpha@.len() == w * h,
    ensures
        alpha_bounds_ok(r, alpha@, w as int, h as int, min),
{
    let n = alpha.len();
    let mut found = false;
    let (mut x0, mut y0, mut x1, mut y1): (usize, usize, usize, usize) = (0, 0, 0, 0);
    let ghost mut wy0: int = 0;
    let ghost mut wy1: int = 0;
    let ghost mut wx0: int = 0;
    let ghost mut wx1: int = 0;
    let mut y: usize = 0;
    while y < h
        invariant
            y <= h,
            alpha@.len() == w * h,
            n == alpha@.len(),
            !found ==> forall|xx: int, yy: int| 0 <= xx < w && 0 <= yy < y ==> !#[trigger] opaque_at(alpha@, w as int, xx, yy, min),
            found ==> {
                &&& x0 <= x1 < w
                &&& y0 <= y1 < y
                &&& forall|xx: int, yy: int| 0 <= xx < w && 0 <= yy < y && #[trigger] opaque_at(alpha@, w as int, xx, yy, min)
                    ==> x0 <= xx <= x1 && y0 <= yy <= y1
                &&& 0 <= wy0 < y && opaque_at(alpha@, w as int, x0 as int, wy0, min)
                &&& 0 <= wy1 < y && opaque_at(alpha@, w as int, x1 as int, wy1, min)
                &&& 0 <= wx0 < w && opaque_at(alpha@, w as int, wx0, y0 as int, min)
                &&& 0 <= wx1 < w && opaque_at(alpha@, w as int, wx1, y1 as int, min)
            },
        decreases h - y,
    {
        let mut x: usize = 0;
        while x < w
            invariant
                y < h,
                x <= w,
                alpha@.len() == w * h,
                n == alpha@.len(),
                !found ==> forall|xx: int, yy: int| 0 <= xx < w && 0 <= yy < h && (yy < y || (yy == y && xx < x)) ==> !#[trigger] opaque_at(alpha@, w as int, xx, yy, min),
                found ==> {
                    &&& x0 <= x1 < w
                    &&& y0 <= y1 <= y
                    &&& forall|xx: int, yy: int| 0 <= xx < w && 0 <= yy < h && (yy < y || (yy == y && xx < x)) && #[trigger] opaque_at(alpha@, w as int, xx, yy, min)
                        ==> x0 <= xx <= x1 && y0 <= yy <= y1
                    &&& 0 <= wy0 <= y && opaque_at(alpha@, w as int, x0 as int, wy0, min)
                    &&& 0 <= wy1 <= y && opaque_at(alpha@, w as int, x1 as int, wy1, min)
                    &&& 0 <= wx0 < w && opaque_at(alpha@, w as int, wx0, y0 as int, min)
                    &&& 0 <= wx1 < w && opaque_at(alpha@, w as int, wx1, y1 as int, min)
                },
            decreases w - x,
        {
            proof {
                lemma_index(w as int, h as int, x as int, y as int);
                assert(y * w <= y * w + x) by (nonlinear_arith)
                    requires
                        0 <= x,
                        0 <= y,
                        0 <= w,
                ;
            }
            let idx = y * w + x;
            assert(opaque_at(alpha@, w as int, x as int, y as int, min) == (alpha@[idx as int] >= min)) by {
                reveal(opaque_at);
            }
            if alpha[idx] >= min {
                if !found {
                    found = true;
                    x0 = x;
                    x1 = x;
                    y0 = y;
                    y1 = y;
                    proof {
                        wy0 = y as int;
                        wy1 = y as int;
                        wx0 = x as int;
                        wx1 = x as int;
                    }
                } else {
                    if x < x0 {
                        x0 = x;
                        proof {
                            wy0 = y as int;
                        }
                    }
                    if x > x1 {
                        x1 = x;
                        proof {
                            wy1 = y as int;
                        }
                    }
                    if y > y1 {
                        y1 = y;
                        proof {
                            wx1 = x as int;
                        }
                    }
                }
            }
            x += 1;
        }
        y += 1;
    }
    if found {
        let r = Some((x0, y0, x1, y1));
        assert(opaque_at(alpha@, w as int, x0 as int, wy0, min));
        assert(opaque_at(alpha@, w as int, x1 as int, wy1, min));
        assert(opaque_at(alpha@, w as int, wx0, y0 as int, min));
        assert(opaque_at(alpha@, w as int, wx1, y1 as int, min));
        assert(exists|yy: int| 0 <= yy < h && #[trigger] opaque_at(alpha@, w as int, x0 as int, yy, min));
        assert(exists|yy: int| 0 <= yy < h && #[trigger] opaque_at(alpha@, w as int, x1 as int, yy, min));
        assert(exists|xx: int| 0 <= xx < w && #[trigger] opaque_at(alpha@, w as int, xx, y0 as int, min));
        assert(exists|xx: int| 0 <= xx < w && #[trigger] opaque_at(alpha@, w as int, xx, y1 as int, min));
        assert(alpha_bounds_ok(r, alpha@, w as int, h as int, min));
        r
    } else {
        None
    }
}

} // verus!
