use vstd::prelude::*;

verus! {

/// One cell of the visibility grid: the static transparency/walkability
/// seeded from the map, and the per-refresh `fov` flag.
#[derive(Clone, Copy, Debug, PartialEq, Eq, Structural)]
pub struct Cell {
    pub transparent: bool,
    pub walkable: bool,
    pub fov: bool,
}

/// The discrete line the ray caster walks from `(x0, y0)` to `(x1, y1)`:
/// the start point is included, the end point is not.
pub uninterp spec fn line_pts(x0: i32, y0: i32, x1: i32, y1: i32) -> Seq<(i32, i32)>;

/// Relies on bresenham::Bresenham: an iterator over the points of the
/// discrete line from `start` to `end`, yielding `start` first, never
/// yielding `end`, and staying inside the bounding box of the two
/// endpoints.
#[verifier::external_body]
fn line_points(x0: i32, y0: i32, x1: i32, y1: i32) -> (r: Vec<(i32, i32)>)
    ensures
        r@ == line_pts(x0, y0, x1, y1),
        forall|k: int|
            0 <= k < r@.len() ==> {
                let p = #[trigger] r@[k];
                &&& (if x0 <= x1 {
                    x0 <= p.0 <= x1
                } else {
                    x1 <= p.0 <= x0
                })
                &&& (if y0 <= y1 {
                    y0 <= p.1 <= y1
                } else {
                    y1 <= p.1 <= y0
                })
            },
        r@.len() > 0 ==> r@[0] == (x0, y0),
{
    bresenham::Bresenham::new((x0 as isize, y0 as isize), (x1 as isize, y1 as isize))
        .map(|p: (isize, isize)| (p.0 as i32, p.1 as i32))
        .collect()
}

/// The visibility engine's grid: `w * h` cells in row-major order (cell
/// `(x, y)` sits at offset `x + y * w`).
pub struct FOV {
    pub w: i32,
    pub h: i32,
    pub nbcells: i32,
    pub cells: Vec<Cell>,
}

/// A cell offset is in range exactly when its coordinates are.
pub proof fn lemma_off_bounds(w: int, h: int, x: int, y: int)
    requires
        0 <= x < w,
        0 <= y < h,
    ensures
        0 <= x + y * w < w * h,
{
    assert(y * w <= (h - 1) * w) by (nonlinear_arith)
        requires
            y <= h - 1,
            w >= 0,
    ;
    assert((h - 1) * w == h * w - w) by (nonlinear_arith);
    assert(y * w >= 0) by (nonlinear_arith)
        requires
            y >= 0,
            w >= 0,
    ;
}

/// Offsets determine coordinates: `x + y * w` splits back into `x` and `y`.
pub proof fn lemma_off_inverse(w: int, x: int, y: int)
    requires
        0 <= x < w,
        0 <= y,
    ensures
        (x + y * w) % w == x,
        (x + y * w) / w == y,
{
    vstd::arithmetic::div_mod::lemma_fundamental_div_mod_converse(x + y * w, w, y, x);
}

/// The set of offsets the walk of one cast ray marks, starting at index
/// `k` of the line with the given blocked state.  A ray stops at the radius
/// limit and one step after the first opaque cell; that opaque cell itself
/// is lit only when `light_walls` is set.
pub open spec fn ray_marks_from(
    cells: Seq<Cell>,
    w: int,
    xo: int,
    yo: int,
    r2: int,
    light_walls: bool,
    pts: Seq<(i32, i32)>,
    k: int,
    blocked: bool,
) -> Set<int>
    decreases pts.len() - k,
{
    if k < 0 || k >= pts.len() {
        Set::empty()
    } else {
        let cx = pts[k].0 as int;
        let cy = pts[k].1 as int;
        if r2 > 0 && (cx - xo) * (cx - xo) + (cy - yo) * (cy - yo) > r2 {
            Set::empty()
        } else if blocked {
            Set::empty()
        } else {
            let off = cx + cy * w;
            let opaque = !(0 <= off < cells.len() && cells[off].transparent);
            let rest = ray_marks_from(cells, w, xo, yo, r2, light_walls, pts, k + 1, opaque);
            if light_walls || !opaque {
                rest.insert(off)
            } else {
                rest
            }
        }
    }
}

/// Everything one ray from `(xo, yo)` toward `(xd, yd)` lights: the origin
/// cell plus the walk along the line.
pub open spec fn ray_marks(
    cells: Seq<Cell>,
    w: int,
    xo: i32,
    yo: i32,
    xd: i32,
    yd: i32,
    r2: int,
    light_walls: bool,
) -> Set<int> {
    ray_marks_from(
        cells,
        w,
        xo as int,
        yo as int,
        r2,
        light_walls,
        line_pts(xo, yo, xd, yd),
        0,
        false,
    ).insert(xo as int + yo as int * w)
}

impl FOV {
    /// The grid shape is consistent: `nbcells` cells, one per coordinate
    /// pair.
    pub open spec fn wf(&self) -> bool {
        &&& self.w >= 0
        &&& self.h >= 0
        &&& self.nbcells == self.w * self.h
        &&& self.cells@.len() == self.nbcells
    }

    pub open spec fn in_bounds(&self, x: int, y: int) -> bool {
        0 <= x < self.w && 0 <= y < self.h
    }

    /// The offset of cell `(x, y)`.
    #[verifier::inline]
    pub open spec fn spec_off(&self, x: int, y: int) -> int {
        x + y * self.w
    }

    /// What `is_in_fov` answers: in bounds and currently lit.
    pub open spec fn visible(&self, x: int, y: int) -> bool {
        self.in_bounds(x, y) && self.cells@[self.spec_off(x, y)].fov
    }

    pub fn new(w: i32, h: i32) -> (r: FOV)
        requires
            0 <= w,
            0 <= h,
            w * h <= i32::MAX,
        ensures
            r.wf(),
            r.w == w,
            r.h == h,
            forall|i: int|
                0 <= i < r.cells@.len() ==> #[trigger] r.cells@[i] == (Cell {
                    transparent: false,
                    walkable: false,
                    fov: false,
                }),
    {
        proof {
            assert(w * h >= 0) by (nonlinear_arith)
                requires
                    w >= 0,
                    h >= 0,
            ;
        }
        let nbcells = w * h;
        let mut cells: Vec<Cell> = Vec::new();
        while cells.len() < nbcells as usize
            invariant
                cells@.len() <= nbcells,
                forall|i: int|
                    0 <= i < cells@.len() ==> #[trigger] cells@[i] == (Cell {
                        transparent: false,
                        walkable: false,
                        fov: false,
                    }),
            decreases nbcells - cells@.len(),
        {
            cells.push(Cell { transparent: false, walkable: false, fov: false });
        }
        FOV { w, h, nbcells, cells }
    }

    /// Seed one cell's static state from the map; its `fov` flag starts
    /// cleared.
    pub fn set(&mut self, x: i32, y: i32, transparent: bool, walkable: bool)
        requires
            old(self).wf(),
            old(self).in_bounds(x as int, y as int),
        ensures
            final(self).wf(),
            final(self).w == old(self).w,
            final(self).h == old(self).h,
            final(self).cells@ == old(self).cells@.update(
                x as int + y as int * old(self).w,
                Cell { transparent, walkable, fov: false },
            ),
    {
        proof {
            lemma_off_bounds(self.w as int, self.h as int, x as int, y as int);
        }
        let off = (x + y * self.w) as usize;
        self.cells.set(off, Cell { transparent, walkable, fov: false });
    }

    /// Whether cell `(x, y)` is currently visible.  Out-of-grid queries are
    /// never visible.
    pub fn is_in_fov(&self, x: i32, y: i32) -> (r: bool)
        requires
            self.wf(),
        ensures
            r == self.visible(x as int, y as int),
            !self.in_bounds(x as int, y as int) ==> r == false,
    {
        if x < 0 || x >= self.w || y < 0 || y >= self.h {
            return false;
        }
        proof {
            lemma_off_bounds(self.w as int, self.h as int, x as int, y as int);
        }
        self.cells[(x + y * self.w) as usize].fov
    }
}


impl FOV {
    /// Cast one ray from the origin toward `(xd, yd)`, lighting exactly the
    /// cells `ray_marks` names on top of whatever is already lit.
    #[verifier::loop_isolation(false)]
    fn cast_ray(&mut self, xo: i32, yo: i32, xd: i32, yd: i32, r2: i32, light_walls: bool)
        requires
            old(self).wf(),
            old(self).in_bounds(xo as int, yo as int),
            old(self).in_bounds(xd as int, yd as int),
            r2 >= 0,
            old(self).w <= 32767,
            old(self).h <= 32767,
        ensures
            final(self).wf(),
            final(self).w == old(self).w,
            final(self).h == old(self).h,
            final(self).nbcells == old(self).nbcells,
            forall|i: int|
                0 <= i < old(self).cells@.len() ==> #[trigger] final(self).cells@[i] == (Cell {
                    fov: old(self).cells@[i].fov || ray_marks(
                        old(self).cells@,
                        old(self).w as int,
                        xo,
                        yo,
                        xd,
                        yd,
                        r2 as int,
                        light_walls,
                    ).contains(i),
                    ..old(self).cells@[i]
                }),
    {
        let ghost w = self.w as int;
        let ghost cells0 = self.cells@;
        let ghost lpts = line_pts(xo, yo, xd, yd);
        let ghost marks = ray_marks(cells0, w, xo, yo, xd, yd, r2 as int, light_walls);
        let pts = line_points(xo, yo, xd, yd);
        proof {
            lemma_off_bounds(w, self.h as int, xo as int, yo as int);
        }
        let o = (xo + yo * self.w) as usize;
        let c0 = self.cells[o];
        self.cells.set(o, Cell { fov: true, ..c0 });
        let ghost mut done: Set<int> = Set::empty().insert(xo as int + yo as int * w);
        let mut blocked = false;
        let mut k: usize = 0;
        while k < pts.len()
            invariant
                0 <= k <= pts.len(),
                self.w == old(self).w,
                self.h == old(self).h,
                self.nbcells == old(self).nbcells,
                forall|i: int|
                    marks.contains(i) == (done.contains(i) || ray_marks_from(
                        cells0,
                        w,
                        xo as int,
                        yo as int,
                        r2 as int,
                        light_walls,
                        lpts,
                        k as int,
                        blocked,
                    ).contains(i)),
                self.cells@.len() == cells0.len(),
                forall|i: int|
                    0 <= i < cells0.len() ==> #[trigger] self.cells@[i] == (Cell {
                        fov: cells0[i].fov || done.contains(i),
                        ..cells0[i]
                    }),
            decreases pts.len() - k,
        {
            let (cx, cy) = pts[k];
            proof {
                assert(lpts[k as int] == (cx, cy));
                assert(0 <= cx < self.w && 0 <= cy < self.h);
            }
            if r2 > 0 {
                let dx = cx - xo;
                let dy = cy - yo;
                proof {
                    assert(dx * dx + dy * dy <= i32::MAX && dx * dx >= 0 && dy * dy >= 0)
                        by (nonlinear_arith)
                        requires
                            -32767 <= dx <= 32767,
                            -32767 <= dy <= 32767,
                    ;
                }
                let cur_radius = dx * dx + dy * dy;
                if cur_radius > r2 {
                    return ;
                }
            }
            proof {
                lemma_off_bounds(w, self.h as int, cx as int, cy as int);
            }
            let off = (cx + cy * self.w) as usize;
            let ghost entry_blocked = blocked;
            if !blocked && !self.cells[off].transparent {
                blocked = true;
            } else if blocked {
                return ;
            }
            if light_walls || !blocked {
                let c = self.cells[off];
                self.cells.set(off, Cell { fov: true, ..c });
                proof {
                    done = done.insert(off as int);
                }
            }
            k = k + 1;
        }
    }
}


/// One quadrant pass of the wall-lighting correction: the grid it reads
/// (`cells` is the state left by the ray phase), the grid shape, the
/// quadrant rectangle, and the pass's outward directions.
pub struct PpPass {
    pub cells: Seq<Cell>,
    pub w: int,
    pub nb: int,
    pub x0: int,
    pub y0: int,
    pub x1: int,
    pub y1: int,
    pub dx: int,
    pub dy: int,
}

impl PpPass {
    pub open spec fn wf(self) -> bool {
        &&& 0 <= self.x0 <= self.x1 < self.w
        &&& 0 <= self.y0 <= self.y1
        &&& self.nb <= self.cells.len()
        &&& -1 <= self.dx <= 1
        &&& -1 <= self.dy <= 1
        &&& self.w >= 1
    }

    /// The opaque cell at `(x2, y2)`, named by its offset `i`, is a cell
    /// this pass may reveal.
    pub open spec fn valid_target(self, x2: int, y2: int, i: int) -> bool {
        let o2 = x2 + y2 * self.w;
        o2 < self.nb && !self.cells[o2].transparent && i == o2
    }

    /// The pass reveals offset `i` from source cell `(cx, cy)`: the source
    /// is a lit transparent cell of the rectangle, and `i` is one of its
    /// up-to-three opaque neighbours toward `(dx, dy)` that the rectangle
    /// still covers on the guarded axes.
    pub open spec fn source(self, cx: int, cy: int, i: int) -> bool {
        let off = cx + cy * self.w;
        &&& off < self.nb
        &&& self.cells[off].fov
        &&& self.cells[off].transparent
        &&& {
            ||| (self.x0 <= cx + self.dx <= self.x1 && self.valid_target(cx + self.dx, cy, i))
            ||| (self.y0 <= cy + self.dy <= self.y1 && self.valid_target(cx, cy + self.dy, i))
            ||| (self.x0 <= cx + self.dx <= self.x1 && self.y0 <= cy + self.dy <= self.y1
                && self.valid_target(cx + self.dx, cy + self.dy, i))
        }
    }

    /// Everything the pass reveals from sources lexicographically before
    /// `(cx, cy)`.
    pub open spec fn upto(self, cx: int, cy: int, i: int) -> bool {
        exists|a: int, b: int|
            self.x0 <= a <= self.x1 && self.y0 <= b <= self.y1 && (a < cx || (a == cx && b < cy))
                && #[trigger] self.source(a, b, i)
    }

    /// Everything the pass reveals.
    pub open spec fn marks(self, i: int) -> bool {
        exists|a: int, b: int|
            self.x0 <= a <= self.x1 && self.y0 <= b <= self.y1 && #[trigger] self.source(a, b, i)
    }
}

/// Only opaque in-range cells are ever revealed by the correction pass.
pub proof fn lemma_pp_marks_opaque(p: PpPass, i: int)
    requires
        p.wf(),
        p.marks(i),
    ensures
        0 <= i < p.nb,
        !p.cells[i].transparent,
{
    let (a, b) = choose|a: int, b: int|
        p.x0 <= a <= p.x1 && p.y0 <= b <= p.y1 && #[trigger] p.source(a, b, i);
    assert(p.source(a, b, i));
    assert(b * p.w >= 0) by (nonlinear_arith)
        requires
            b >= 0,
            p.w >= 0,
    ;
    if !(p.x0 <= a + p.dx <= p.x1 && p.valid_target(a + p.dx, b, i)) {
        assert((b + p.dy) * p.w >= 0) by (nonlinear_arith)
            requires
                b + p.dy >= 0,
                p.w >= 0,
        ;
    }
}

/// The pass reveals the same cells over any two grids that agree on
/// transparency everywhere and on the lit flag of transparent cells.
pub proof fn lemma_pp_marks_congruent(p: PpPass, q: PpPass, i: int)
    requires
        p.wf(),
        q.wf(),
        q == (PpPass { cells: q.cells, ..p }),
        q.cells.len() == p.cells.len(),
        forall|j: int|
            0 <= j < p.cells.len() ==> (#[trigger] q.cells[j]).transparent
                == p.cells[j].transparent,
        forall|j: int|
            0 <= j < p.cells.len() && p.cells[j].transparent ==> (#[trigger] q.cells[j]).fov
                == p.cells[j].fov,
    ensures
        p.marks(i) == q.marks(i),
{
    assert forall|a: int, b: int|
        p.x0 <= a <= p.x1 && p.y0 <= b <= p.y1 implies (#[trigger] p.source(a, b, i) == q.source(
        a,
        b,
        i,
    )) by {
        lemma_off_bounds(p.w, p.y1 + 1, a, b);
        assert(b * p.w >= 0) by (nonlinear_arith)
            requires
                b >= 0,
                p.w >= 0,
        ;
        if b + p.dy >= 0 {
            assert((b + p.dy) * p.w >= 0) by (nonlinear_arith)
                requires
                    b + p.dy >= 0,
                    p.w >= 0,
            ;
        }
    }
    if p.marks(i) {
        let (a, b) = choose|a: int, b: int|
            p.x0 <= a <= p.x1 && p.y0 <= b <= p.y1 && #[trigger] p.source(a, b, i);
        assert(q.source(a, b, i));
    }
    if q.marks(i) {
        let (a, b) = choose|a: int, b: int|
            q.x0 <= a <= q.x1 && q.y0 <= b <= q.y1 && #[trigger] q.source(a, b, i);
        assert(p.source(a, b, i));
    }
}

impl FOV {
    /// Reveal the up-to-three neighbours of one source cell, when the
    /// source is lit and transparent.
    #[verifier::loop_isolation(false)]
    #[verifier::rlimit(100)]
    fn pp_cell(&mut self, Ghost(p): Ghost<PpPass>, x0: i32, y0: i32, x1: i32, y1: i32, dx: i32, dy: i32, cx: i32, cy: i32)
        requires
            old(self).wf(),
            p.wf(),
            p.w == old(self).w,
            p.nb == old(self).nbcells,
            p.x0 == x0,
            p.y0 == y0,
            p.x1 == x1,
            p.y1 == y1,
            p.dx == dx,
            p.dy == dy,
            p.cells.len() == old(self).cells@.len(),
            x0 <= cx <= x1,
            y0 <= cy <= y1,
            y1 < old(self).h,
            old(self).w <= 32767,
            old(self).h <= 32767,
            forall|j: int|
                0 <= j < p.cells.len() ==> (#[trigger] old(self).cells@[j]).transparent
                    == p.cells[j].transparent,
            forall|j: int|
                0 <= j < p.cells.len() && p.cells[j].transparent ==> (#[trigger] old(
                    self,
                ).cells@[j]).fov == p.cells[j].fov,
        ensures
            final(self).wf(),
            final(self).w == old(self).w,
            final(self).h == old(self).h,
            final(self).nbcells == old(self).nbcells,
            forall|i: int|
                0 <= i < old(self).cells@.len() ==> #[trigger] final(self).cells@[i] == (Cell {
                    fov: old(self).cells@[i].fov || p.source(cx as int, cy as int, i),
                    ..old(self).cells@[i]
                }),
    {
        let x2 = cx + dx;
        let y2 = cy + dy;
        proof {
            lemma_off_bounds(p.w, self.h as int, cx as int, cy as int);
        }
        let offset = cx + cy * self.w;
        if self.cells[offset as usize].fov && self.cells[offset as usize].transparent {
            if x2 >= x0 && x2 <= x1 {
                let offset2 = x2 + cy * self.w;
                if offset2 < self.nbcells && !self.cells[offset2 as usize].transparent {
                    let c = self.cells[offset2 as usize];
                    self.cells.set(offset2 as usize, Cell { fov: true, ..c });
                }
            }
            if y2 >= y0 && y2 <= y1 {
                proof {
                    lemma_off_bounds(p.w, self.h as int, cx as int, y2 as int);
                }
                let offset2 = cx + y2 * self.w;
                if offset2 < self.nbcells && !self.cells[offset2 as usize].transparent {
                    let c = self.cells[offset2 as usize];
                    self.cells.set(offset2 as usize, Cell { fov: true, ..c });
                }
            }
            if x2 >= x0 && x2 <= x1 && y2 >= y0 && y2 <= y1 {
                proof {
                    lemma_off_bounds(p.w, self.h as int, x2 as int, y2 as int);
                }
                let offset2 = x2 + y2 * self.w;
                if offset2 < self.nbcells && !self.cells[offset2 as usize].transparent {
                    let c = self.cells[offset2 as usize];
                    self.cells.set(offset2 as usize, Cell { fov: true, ..c });
                }
            }
        }
    }

    /// One quadrant of the wall-lighting correction: reveal opaque cells
    /// that sit next to an already-lit transparent cell, on the quadrant's
    /// outward directions.  Reveals exactly the cells `PpPass::marks`
    /// names; only opaque cells are ever newly lit.
    #[verifier::loop_isolation(false)]
    #[verifier::rlimit(100)]
    fn postproc(&mut self, x0: i32, y0: i32, x1: i32, y1: i32, dx: i32, dy: i32)
        requires
            old(self).wf(),
            0 <= x0 <= x1 < old(self).w,
            0 <= y0 <= y1 < old(self).h,
            -1 <= dx <= 1,
            -1 <= dy <= 1,
            old(self).w <= 32767,
            old(self).h <= 32767,
        ensures
            final(self).wf(),
            final(self).w == old(self).w,
            final(self).h == old(self).h,
            final(self).nbcells == old(self).nbcells,
            forall|i: int|
                0 <= i < old(self).cells@.len() ==> #[trigger] final(self).cells@[i] == (Cell {
                    fov: old(self).cells@[i].fov || (PpPass {
                        cells: old(self).cells@,
                        w: old(self).w as int,
                        nb: old(self).nbcells as int,
                        x0: x0 as int,
                        y0: y0 as int,
                        x1: x1 as int,
                        y1: y1 as int,
                        dx: dx as int,
                        dy: dy as int,
                    }).marks(i),
                    ..old(self).cells@[i]
                }),
    {
        let ghost p = PpPass {
            cells: old(self).cells@,
            w: old(self).w as int,
            nb: old(self).nbcells as int,
            x0: x0 as int,
            y0: y0 as int,
            x1: x1 as int,
            y1: y1 as int,
            dx: dx as int,
            dy: dy as int,
        };
        let mut cx = x0;
        while cx <= x1
            invariant
                x0 <= cx <= x1 + 1,
                self.w == old(self).w,
                self.h == old(self).h,
                self.nbcells == old(self).nbcells,
                self.cells@.len() == p.cells.len(),
                forall|i: int|
                    0 <= i < p.cells.len() ==> #[trigger] self.cells@[i] == (Cell {
                        fov: p.cells[i].fov || p.upto(cx as int, y0 as int, i),
                        ..p.cells[i]
                    }),
            decreases x1 + 1 - cx,
        {
            let mut cy = y0;
            while cy <= y1
                invariant
                    x0 <= cx <= x1,
                    y0 <= cy <= y1 + 1,
                    self.w == old(self).w,
                    self.h == old(self).h,
                    self.nbcells == old(self).nbcells,
                    self.cells@.len() == p.cells.len(),
                    forall|i: int|
                        0 <= i < p.cells.len() ==> #[trigger] self.cells@[i] == (Cell {
                            fov: p.cells[i].fov || p.upto(cx as int, cy as int, i),
                            ..p.cells[i]
                        }),
                decreases y1 + 1 - cy,
            {
                proof {
                    assert forall|j: int|
                        0 <= j < p.cells.len() && p.cells[j].transparent implies (#[trigger] self
                        .cells@[j]).fov == p.cells[j].fov by {
                        if p.upto(cx as int, cy as int, j) {
                            let (a, b) = choose|a: int, b: int|
                                p.x0 <= a <= p.x1 && p.y0 <= b <= p.y1 && (a < cx as int || (a == cx
                                    as int && b < cy as int)) && #[trigger] p.source(a, b, j);
                            lemma_pp_marks_opaque_source(p, a, b, j);
                        }
                    }
                }
                let ghost pre = self.cells@;
                self.pp_cell(Ghost(p), x0, y0, x1, y1, dx, dy, cx, cy);
                proof {
                    assert forall|i: int| 0 <= i < p.cells.len() implies #[trigger] self.cells@[i]
                        == (Cell {
                        fov: p.cells[i].fov || p.upto(cx as int, cy as int + 1, i),
                        ..p.cells[i]
                    }) by {
                        if p.upto(cx as int, cy as int + 1, i) {
                            let (a, b) = choose|a: int, b: int|
                                p.x0 <= a <= p.x1 && p.y0 <= b <= p.y1 && (a < cx as int || (a == cx
                                    as int && b < cy as int + 1)) && #[trigger] p.source(a, b, i);
                            if a < cx as int || (a == cx as int && b < cy as int) {
                                assert(p.upto(cx as int, cy as int, i));
                            } else {
                                assert(p.source(cx as int, cy as int, i));
                            }
                        }
                        if p.source(cx as int, cy as int, i) {
                            assert(p.upto(cx as int, cy as int + 1, i));
                        }
                        if p.upto(cx as int, cy as int, i) {
                            let (a, b) = choose|a: int, b: int|
                                p.x0 <= a <= p.x1 && p.y0 <= b <= p.y1 && (a < cx as int || (a == cx
                                    as int && b < cy as int)) && #[trigger] p.source(a, b, i);
                            assert(p.upto(cx as int, cy as int + 1, i));
                        }
                    }
                }
                cy = cy + 1;
            }
            proof {
                assert forall|i: int|
                    #![trigger p.upto(cx as int + 1, y0 as int, i)]
                    0 <= i < p.cells.len() implies (p.upto(cx as int, y1 as int + 1, i) == p.upto(
                    cx as int + 1,
                    y0 as int,
                    i,
                )) by {
                    if p.upto(cx as int, y1 as int + 1, i) {
                        let (a, b) = choose|a: int, b: int|
                            p.x0 <= a <= p.x1 && p.y0 <= b <= p.y1 && (a < cx as int || (a == cx
                                as int && b < y1 as int + 1)) && #[trigger] p.source(a, b, i);
                        assert(a < cx as int + 1);
                    }
                    if p.upto(cx as int + 1, y0 as int, i) {
                        let (a, b) = choose|a: int, b: int|
                            p.x0 <= a <= p.x1 && p.y0 <= b <= p.y1 && (a < cx as int + 1 || (a == cx
                                as int + 1 && b < y0 as int)) && #[trigger] p.source(a, b, i);
                        assert(a < cx as int || (a == cx as int && b < y1 as int + 1));
                    }
                }
            }
            cx = cx + 1;
        }
        proof {
            assert forall|i: int|
                #![trigger p.marks(i)]
                0 <= i < p.cells.len() implies (p.upto(x1 as int + 1, y0 as int, i) == p.marks(
                i,
            )) by {
                if p.upto(x1 as int + 1, y0 as int, i) {
                    let (a, b) = choose|a: int, b: int|
                        p.x0 <= a <= p.x1 && p.y0 <= b <= p.y1 && (a < x1 as int + 1 || (a == x1
                            as int + 1 && b < y0 as int)) && #[trigger] p.source(a, b, i);
                    assert(p.marks(i));
                }
                if p.marks(i) {
                    let (a, b) = choose|a: int, b: int|
                        p.x0 <= a <= p.x1 && p.y0 <= b <= p.y1 && #[trigger] p.source(a, b, i);
                    assert(a < x1 as int + 1);
                }
            }
        }
    }
}

/// A named source of the pass reveals only opaque in-range cells.
pub proof fn lemma_pp_marks_opaque_source(p: PpPass, a: int, b: int, i: int)
    requires
        p.wf(),
        p.x0 <= a <= p.x1,
        p.y0 <= b <= p.y1,
        p.source(a, b, i),
    ensures
        0 <= i < p.nb,
        !p.cells[i].transparent,
{
    assert(b * p.w >= 0) by (nonlinear_arith)
        requires
            b >= 0,
            p.w >= 0,
    ;
    if !(p.x0 <= a + p.dx <= p.x1 && p.valid_target(a + p.dx, b, i)) {
        assert((b + p.dy) * p.w >= 0) by (nonlinear_arith)
            requires
                b + p.dy >= 0,
                p.w >= 0,
        ;
    }
}


/// The bounding box `(xmin, ymin, xmax, ymax)` a refresh limits itself to:
/// the radius square clipped to the grid, or the whole grid when the radius
/// is not positive.
pub open spec fn spec_bbox(w: int, h: int, px: int, py: int, max_radius: int) -> (int, int, int, int) {
    if max_radius > 0 {
        (
            if px - max_radius > 0 {
                px - max_radius
            } else {
                0
            },
            if py - max_radius > 0 {
                py - max_radius
            } else {
                0
            },
            if px + max_radius + 1 < w {
                px + max_radius + 1
            } else {
                w
            },
            if py + max_radius + 1 < h {
                py + max_radius + 1
            } else {
                h
            },
        )
    } else {
        (0, 0, w, h)
    }
}

/// The squared radius rays are limited to; zero disables the limit.
pub open spec fn spec_r2(max_radius: int) -> int {
    if max_radius > 0 {
        max_radius * max_radius
    } else {
        0
    }
}

/// Offset `i` is lit by a ray of the first sweep (along the top edge of the
/// bounding box), for an endpoint column strictly below `hi`.
pub open spec fn sweep1_lit(
    cells: Seq<Cell>,
    w: int,
    h: int,
    px: i32,
    py: i32,
    max_radius: i32,
    lw: bool,
    hi: int,
    i: int,
) -> bool {
    let bb = spec_bbox(w, h, px as int, py as int, max_radius as int);
    exists|xo: i32|
        bb.0 <= xo < hi && #[trigger] ray_marks(
            cells,
            w,
            px,
            py,
            xo,
            bb.1 as i32,
            spec_r2(max_radius as int),
            lw,
        ).contains(i)
}

/// Offset `i` is lit by a ray of the second sweep (down the right edge).
pub open spec fn sweep2_lit(
    cells: Seq<Cell>,
    w: int,
    h: int,
    px: i32,
    py: i32,
    max_radius: i32,
    lw: bool,
    hi: int,
    i: int,
) -> bool {
    let bb = spec_bbox(w, h, px as int, py as int, max_radius as int);
    exists|yo: i32|
        bb.1 + 1 <= yo < hi && #[trigger] ray_marks(
            cells,
            w,
            px,
            py,
            (bb.2 - 1) as i32,
            yo,
            spec_r2(max_radius as int),
            lw,
        ).contains(i)
}

/// Offset `i` is lit by a ray of the third sweep (along the bottom edge,
/// right to left down to column zero), for an endpoint column strictly
/// above `lo`.
pub open spec fn sweep3_lit(
    cells: Seq<Cell>,
    w: int,
    h: int,
    px: i32,
    py: i32,
    max_radius: i32,
    lw: bool,
    lo: int,
    i: int,
) -> bool {
    let bb = spec_bbox(w, h, px as int, py as int, max_radius as int);
    exists|xo: i32|
        lo < xo <= bb.2 - 2 && #[trigger] ray_marks(
            cells,
            w,
            px,
            py,
            xo,
            (bb.3 - 1) as i32,
            spec_r2(max_radius as int),
            lw,
        ).contains(i)
}

/// Offset `i` is lit by a ray of the fourth sweep (up the left edge, down
/// to row one), for an endpoint row strictly above `lo`.
pub open spec fn sweep4_lit(
    cells: Seq<Cell>,
    w: int,
    h: int,
    px: i32,
    py: i32,
    max_radius: i32,
    lw: bool,
    lo: int,
    i: int,
) -> bool {
    let bb = spec_bbox(w, h, px as int, py as int, max_radius as int);
    exists|yo: i32|
        lo < yo <= bb.3 - 2 && #[trigger] ray_marks(
            cells,
            w,
            px,
            py,
            bb.0 as i32,
            yo,
            spec_r2(max_radius as int),
            lw,
        ).contains(i)
}

/// Offset `i` is lit by some ray of the four perimeter sweeps.
pub open spec fn rays_lit(
    cells: Seq<Cell>,
    w: int,
    h: int,
    px: i32,
    py: i32,
    max_radius: i32,
    lw: bool,
    i: int,
) -> bool {
    let bb = spec_bbox(w, h, px as int, py as int, max_radius as int);
    ||| sweep1_lit(cells, w, h, px, py, max_radius, lw, bb.2, i)
    ||| sweep2_lit(cells, w, h, px, py, max_radius, lw, bb.3, i)
    ||| sweep3_lit(cells, w, h, px, py, max_radius, lw, -1, i)
    ||| sweep4_lit(cells, w, h, px, py, max_radius, lw, 0, i)
}

/// The grid after the ray phase: the static fields kept, the lit flag set
/// exactly on the ray-lit offsets.
pub open spec fn cells_after_rays(
    cells: Seq<Cell>,
    w: int,
    h: int,
    px: i32,
    py: i32,
    max_radius: i32,
    lw: bool,
) -> Seq<Cell> {
    Seq::new(cells.len(), |j: int| Cell { fov: rays_lit(cells, w, h, px, py, max_radius, lw, j), ..cells[j] })
}

/// The quadrant pass `q` (0 to 3) of the wall-lighting correction, reading
/// the grid the ray phase left.
pub open spec fn pp_pass(
    cells: Seq<Cell>,
    w: int,
    h: int,
    px: i32,
    py: i32,
    max_radius: i32,
    lw: bool,
    q: int,
) -> PpPass {
    let bb = spec_bbox(w, h, px as int, py as int, max_radius as int);
    let c1 = cells_after_rays(cells, w, h, px, py, max_radius, lw);
    let nb = w * h;
    if q == 0 {
        PpPass { cells: c1, w, nb, x0: bb.0, y0: bb.1, x1: px as int, y1: py as int, dx: -1, dy: -1 }
    } else if q == 1 {
        PpPass { cells: c1, w, nb, x0: px as int, y0: bb.1, x1: bb.2 - 1, y1: py as int, dx: 1, dy: -1 }
    } else if q == 2 {
        PpPass { cells: c1, w, nb, x0: bb.0, y0: py as int, x1: px as int, y1: bb.3 - 1, dx: -1, dy: 1 }
    } else {
        PpPass { cells: c1, w, nb, x0: px as int, y0: py as int, x1: bb.2 - 1, y1: bb.3 - 1, dx: 1, dy: 1 }
    }
}

/// What a visibility refresh from `(px, py)` computes for offset `i`: lit
/// by some cast ray, or, when walls are lit, revealed by one of the four
/// quadrant correction passes over the ray phase's result.
pub open spec fn fov_model(
    cells: Seq<Cell>,
    w: int,
    h: int,
    px: i32,
    py: i32,
    max_radius: i32,
    lw: bool,
    i: int,
) -> bool {
    ||| rays_lit(cells, w, h, px, py, max_radius, lw, i)
    ||| (lw && {
        ||| pp_pass(cells, w, h, px, py, max_radius, lw, 0).marks(i)
        ||| pp_pass(cells, w, h, px, py, max_radius, lw, 1).marks(i)
        ||| pp_pass(cells, w, h, px, py, max_radius, lw, 2).marks(i)
        ||| pp_pass(cells, w, h, px, py, max_radius, lw, 3).marks(i)
    })
}

/// A ray lights the same offsets over any two grids that agree on
/// transparency everywhere: the walk never reads the lit flags.
pub proof fn lemma_ray_marks_from_congruent(
    ca: Seq<Cell>,
    cb: Seq<Cell>,
    w: int,
    xo: int,
    yo: int,
    r2: int,
    lw: bool,
    pts: Seq<(i32, i32)>,
    k: int,
    blocked: bool,
)
    requires
        ca.len() == cb.len(),
        forall|j: int| 0 <= j < ca.len() ==> (#[trigger] cb[j]).transparent == ca[j].transparent,
    ensures
        ray_marks_from(ca, w, xo, yo, r2, lw, pts, k, blocked) == ray_marks_from(
            cb,
            w,
            xo,
            yo,
            r2,
            lw,
            pts,
            k,
            blocked,
        ),
    decreases pts.len() - k,
{
    if 0 <= k < pts.len() {
        let cx = pts[k].0 as int;
        let cy = pts[k].1 as int;
        if !(r2 > 0 && (cx - xo) * (cx - xo) + (cy - yo) * (cy - yo) > r2) && !blocked {
            let off = cx + cy * w;
            lemma_ray_marks_from_congruent(
                ca,
                cb,
                w,
                xo,
                yo,
                r2,
                lw,
                pts,
                k + 1,
                !(0 <= off < ca.len() && ca[off].transparent),
            );
        }
    }
}

/// The corollary for a whole ray.
pub proof fn lemma_ray_marks_congruent(
    ca: Seq<Cell>,
    cb: Seq<Cell>,
    w: int,
    xo: i32,
    yo: i32,
    xd: i32,
    yd: i32,
    r2: int,
    lw: bool,
)
    requires
        ca.len() == cb.len(),
        forall|j: int| 0 <= j < ca.len() ==> (#[trigger] cb[j]).transparent == ca[j].transparent,
    ensures
        ray_marks(ca, w, xo, yo, xd, yd, r2, lw) == ray_marks(cb, w, xo, yo, xd, yd, r2, lw),
{
    lemma_ray_marks_from_congruent(
        ca,
        cb,
        w,
        xo as int,
        yo as int,
        r2,
        lw,
        line_pts(xo, yo, xd, yd),
        0,
        false,
    );
}


impl FOV {
    /// Recompute the whole visibility grid for a viewer at
    /// `(player_x, player_y)`: clear every lit flag, cast one ray to every
    /// cell on the perimeter of the radius bounding box (four pole-to-pole
    /// sweeps), and, when `light_walls` is set, run the four-quadrant
    /// correction that reveals wall faces adjacent to lit floor.  The
    /// resulting lit set is exactly `fov_model`; the static fields of every
    /// cell are untouched.
    #[verifier::loop_isolation(false)]
    #[verifier::rlimit(100)]
    pub fn compute_fov(&mut self, player_x: i32, player_y: i32, max_radius: i32, light_walls: bool)
        requires
            old(self).wf(),
            old(self).in_bounds(player_x as int, player_y as int),
            old(self).w <= 32767,
            old(self).h <= 32767,
            max_radius <= 32767,
        ensures
            final(self).wf(),
            final(self).w == old(self).w,
            final(self).h == old(self).h,
            final(self).nbcells == old(self).nbcells,
            forall|i: int|
                0 <= i < old(self).cells@.len() ==> #[trigger] final(self).cells@[i] == (Cell {
                    fov: fov_model(
                        old(self).cells@,
                        old(self).w as int,
                        old(self).h as int,
                        player_x,
                        player_y,
                        max_radius,
                        light_walls,
                        i,
                    ),
                    ..old(self).cells@[i]
                }),
    {
        let ghost cells0 = self.cells@;
        let ghost w = self.w as int;
        let ghost h = self.h as int;
        let ghost bb = spec_bbox(w, h, player_x as int, player_y as int, max_radius as int);

        let mut xmin: i32 = 0;
        let mut ymin: i32 = 0;
        let mut xmax: i32 = self.w;
        let mut ymax: i32 = self.h;
        if max_radius > 0 {
            xmin = if player_x - max_radius > 0 {
                player_x - max_radius
            } else {
                0
            };
            ymin = if player_y - max_radius > 0 {
                player_y - max_radius
            } else {
                0
            };
            xmax = if player_x + max_radius + 1 < self.w {
                player_x + max_radius + 1
            } else {
                self.w
            };
            ymax = if player_y + max_radius + 1 < self.h {
                player_y + max_radius + 1
            } else {
                self.h
            };
        }
        proof {
            assert(bb == (xmin as int, ymin as int, xmax as int, ymax as int));
        }

        let mut ci: usize = 0;
        while ci < self.cells.len()
            invariant
                ci <= self.cells@.len(),
                self.w == old(self).w,
                self.h == old(self).h,
                self.nbcells == old(self).nbcells,
                self.cells@.len() == cells0.len(),
                forall|i: int|
                    0 <= i < ci ==> #[trigger] self.cells@[i] == (Cell {
                        fov: false,
                        ..cells0[i]
                    }),
                forall|i: int| ci <= i < cells0.len() ==> #[trigger] self.cells@[i] == cells0[i],
            decreases self.cells@.len() - ci,
        {
            let c = self.cells[ci];
            self.cells.set(ci, Cell { fov: false, ..c });
            ci = ci + 1;
        }

        let r2: i32 = if max_radius > 0 {
            proof {
                assert(max_radius * max_radius <= 32767 * 32767) by (nonlinear_arith)
                    requires
                        0 < max_radius <= 32767,
                ;
            }
            max_radius * max_radius
        } else {
            0
        };

        // First sweep: along the top edge of the box.
        let mut xo: i32 = xmin;
        let mut yo: i32 = ymin;
        while xo < xmax
            invariant
                xmin <= xo <= xmax,
                yo == ymin,
                self.w == old(self).w,
                self.h == old(self).h,
                self.nbcells == old(self).nbcells,
                self.cells@.len() == cells0.len(),
                forall|i: int|
                    0 <= i < cells0.len() ==> #[trigger] self.cells@[i] == (Cell {
                        fov: sweep1_lit(
                            cells0,
                            w,
                            h,
                            player_x,
                            player_y,
                            max_radius,
                            light_walls,
                            xo as int,
                            i,
                        ),
                        ..cells0[i]
                    }),
            decreases xmax - xo,
        {
            let ghost pre = self.cells@;
            self.cast_ray(player_x, player_y, xo, yo, r2, light_walls);
            proof {
                lemma_ray_marks_congruent(
                    pre,
                    cells0,
                    w,
                    player_x,
                    player_y,
                    xo,
                    yo,
                    r2 as int,
                    light_walls,
                );
                assert forall|i: int| 0 <= i < cells0.len() implies #[trigger] self.cells@[i]
                    == (Cell {
                    fov: sweep1_lit(
                        cells0,
                        w,
                        h,
                        player_x,
                        player_y,
                        max_radius,
                        light_walls,
                        xo as int + 1,
                        i,
                    ),
                    ..cells0[i]
                }) by {
                    assert(yo == bb.1 as i32 && r2 as int == spec_r2(max_radius as int));
                    assert(ray_marks(cells0, w, player_x, player_y, xo, bb.1 as i32, spec_r2(max_radius as int), light_walls) == ray_marks(cells0, w, player_x, player_y, xo, yo, r2 as int, light_walls));
                    if sweep1_lit(
                        cells0,
                        w,
                        h,
                        player_x,
                        player_y,
                        max_radius,
                        light_walls,
                        xo as int + 1,
                        i,
                    ) {
                        let e = choose|e: i32|
                            bb.0 <= e < xo as int + 1 && #[trigger] ray_marks(
                                cells0,
                                w,
                                player_x,
                                player_y,
                                e,
                                bb.1 as i32,
                                spec_r2(max_radius as int),
                                light_walls,
                            ).contains(i);
                        if e < xo {
                            assert(sweep1_lit(
                                cells0,
                                w,
                                h,
                                player_x,
                                player_y,
                                max_radius,
                                light_walls,
                                xo as int,
                                i,
                            ));
                        }
                    }
                }
            }
            xo = xo + 1;
        }

        // Second sweep: down the right edge.
        xo = xmax - 1;
        yo = ymin + 1;
        while yo < ymax
            invariant
                ymin + 1 <= yo <= ymax || yo == ymin + 1,
                xo == xmax - 1,
                self.w == old(self).w,
                self.h == old(self).h,
                self.nbcells == old(self).nbcells,
                self.cells@.len() == cells0.len(),
                forall|i: int|
                    0 <= i < cells0.len() ==> #[trigger] self.cells@[i] == (Cell {
                        fov: sweep1_lit(
                            cells0,
                            w,
                            h,
                            player_x,
                            player_y,
                            max_radius,
                            light_walls,
                            bb.2,
                            i,
                        ) || sweep2_lit(
                            cells0,
                            w,
                            h,
                            player_x,
                            player_y,
                            max_radius,
                            light_walls,
                            yo as int,
                            i,
                        ),
                        ..cells0[i]
                    }),
            decreases ymax - yo,
        {
            let ghost pre = self.cells@;
            self.cast_ray(player_x, player_y, xo, yo, r2, light_walls);
            proof {
                lemma_ray_marks_congruent(
                    pre,
                    cells0,
                    w,
                    player_x,
                    player_y,
                    xo,
                    yo,
                    r2 as int,
                    light_walls,
                );
                assert forall|i: int| 0 <= i < cells0.len() implies #[trigger] self.cells@[i]
                    == (Cell {
                    fov: sweep1_lit(
                        cells0,
                        w,
                        h,
                        player_x,
                        player_y,
                        max_radius,
                        light_walls,
                        bb.2,
                        i,
                    ) || sweep2_lit(
                        cells0,
                        w,
                        h,
                        player_x,
                        player_y,
                        max_radius,
                        light_walls,
                        yo as int + 1,
                        i,
                    ),
                    ..cells0[i]
                }) by {
                    assert(xo == (bb.2 - 1) as i32 && r2 as int == spec_r2(max_radius as int));
                    assert(ray_marks(cells0, w, player_x, player_y, (bb.2 - 1) as i32, yo, spec_r2(max_radius as int), light_walls) == ray_marks(cells0, w, player_x, player_y, xo, yo, r2 as int, light_walls));
                    if sweep2_lit(
                        cells0,
                        w,
                        h,
                        player_x,
                        player_y,
                        max_radius,
                        light_walls,
                        yo as int + 1,
                        i,
                    ) {
                        let e = choose|e: i32|
                            bb.1 + 1 <= e < yo as int + 1 && #[trigger] ray_marks(
                                cells0,
                                w,
                                player_x,
                                player_y,
                                (bb.2 - 1) as i32,
                                e,
                                spec_r2(max_radius as int),
                                light_walls,
                            ).contains(i);
                        if e < yo {
                            assert(sweep2_lit(
                                cells0,
                                w,
                                h,
                                player_x,
                                player_y,
                                max_radius,
                                light_walls,
                                yo as int,
                                i,
                            ));
                        }
                    }
                }
            }
            yo = yo + 1;
        }

        // Third sweep: along the bottom edge, right to left down to column
        // zero.
        xo = xmax - 2;
        yo = ymax - 1;
        while xo >= 0
            invariant
                -1 <= xo <= xmax - 2,
                yo == ymax - 1,
                self.w == old(self).w,
                self.h == old(self).h,
                self.nbcells == old(self).nbcells,
                self.cells@.len() == cells0.len(),
                forall|i: int|
                    0 <= i < cells0.len() ==> #[trigger] self.cells@[i] == (Cell {
                        fov: sweep1_lit(
                            cells0,
                            w,
                            h,
                            player_x,
                            player_y,
                            max_radius,
                            light_walls,
                            bb.2,
                            i,
                        ) || sweep2_lit(
                            cells0,
                            w,
                            h,
                            player_x,
                            player_y,
                            max_radius,
                            light_walls,
                            bb.3,
                            i,
                        ) || sweep3_lit(
                            cells0,
                            w,
                            h,
                            player_x,
                            player_y,
                            max_radius,
                            light_walls,
                            xo as int,
                            i,
                        ),
                        ..cells0[i]
                    }),
            decreases xo + 1,
        {
            let ghost pre = self.cells@;
            self.cast_ray(player_x, player_y, xo, yo, r2, light_walls);
            proof {
                lemma_ray_marks_congruent(
                    pre,
                    cells0,
                    w,
                    player_x,
                    player_y,
                    xo,
                    yo,
                    r2 as int,
                    light_walls,
                );
                assert forall|i: int| 0 <= i < cells0.len() implies #[trigger] self.cells@[i]
                    == (Cell {
                    fov: sweep1_lit(
                        cells0,
                        w,
                        h,
                        player_x,
                        player_y,
                        max_radius,
                        light_walls,
                        bb.2,
                        i,
                    ) || sweep2_lit(
                        cells0,
                        w,
                        h,
                        player_x,
                        player_y,
                        max_radius,
                        light_walls,
                        bb.3,
                        i,
                    ) || sweep3_lit(
                        cells0,
                        w,
                        h,
                        player_x,
                        player_y,
                        max_radius,
                        light_walls,
                        xo as int - 1,
                        i,
                    ),
                    ..cells0[i]
                }) by {
                    assert(yo == (bb.3 - 1) as i32 && r2 as int == spec_r2(max_radius as int));
                    assert(ray_marks(cells0, w, player_x, player_y, xo, (bb.3 - 1) as i32, spec_r2(max_radius as int), light_walls) == ray_marks(cells0, w, player_x, player_y, xo, yo, r2 as int, light_walls));
                    if sweep3_lit(
                        cells0,
                        w,
                        h,
                        player_x,
                        player_y,
                        max_radius,
                        light_walls,
                        xo as int - 1,
                        i,
                    ) {
                        let e = choose|e: i32|
                            xo as int - 1 < e <= bb.2 - 2 && #[trigger] ray_marks(
                                cells0,
                                w,
                                player_x,
                                player_y,
                                e,
                                (bb.3 - 1) as i32,
                                spec_r2(max_radius as int),
                                light_walls,
                            ).contains(i);
                        if e > xo {
                            assert(sweep3_lit(
                                cells0,
                                w,
                                h,
                                player_x,
                                player_y,
                                max_radius,
                                light_walls,
                                xo as int,
                                i,
                            ));
                        }
                    }
                }
            }
            xo = xo - 1;
        }

        // Fourth sweep: up the left edge, down to row one.
        xo = xmin;
        yo = ymax - 2;
        while yo > 0
            invariant
                0 <= yo <= ymax - 2 || yo == ymax - 2,
                xo == xmin,
                self.w == old(self).w,
                self.h == old(self).h,
                self.nbcells == old(self).nbcells,
                self.cells@.len() == cells0.len(),
                forall|i: int|
                    0 <= i < cells0.len() ==> #[trigger] self.cells@[i] == (Cell {
                        fov: sweep1_lit(
                            cells0,
                            w,
                            h,
                            player_x,
                            player_y,
                            max_radius,
                            light_walls,
                            bb.2,
                            i,
                        ) || sweep2_lit(
                            cells0,
                            w,
                            h,
                            player_x,
                            player_y,
                            max_radius,
                            light_walls,
                            bb.3,
                            i,
                        ) || sweep3_lit(
                            cells0,
                            w,
                            h,
                            player_x,
                            player_y,
                            max_radius,
                            light_walls,
                            -1,
                            i,
                        ) || sweep4_lit(
                            cells0,
                            w,
                            h,
                            player_x,
                            player_y,
                            max_radius,
                            light_walls,
                            yo as int,
                            i,
                        ),
                        ..cells0[i]
                    }),
            decreases yo,
        {
            let ghost pre = self.cells@;
            self.cast_ray(player_x, player_y, xo, yo, r2, light_walls);
            proof {
                lemma_ray_marks_congruent(
                    pre,
                    cells0,
                    w,
                    player_x,
                    player_y,
                    xo,
                    yo,
                    r2 as int,
                    light_walls,
                );
                assert forall|i: int| 0 <= i < cells0.len() implies #[trigger] self.cells@[i]
                    == (Cell {
                    fov: sweep1_lit(
                        cells0,
                        w,
                        h,
                        player_x,
                        player_y,
                        max_radius,
                        light_walls,
                        bb.2,
                        i,
                    ) || sweep2_lit(
                        cells0,
                        w,
                        h,
                        player_x,
                        player_y,
                        max_radius,
                        light_walls,
                        bb.3,
                        i,
                    ) || sweep3_lit(
                        cells0,
                        w,
                        h,
                        player_x,
                        player_y,
                        max_radius,
                        light_walls,
                        -1,
                        i,
                    ) || sweep4_lit(
                        cells0,
                        w,
                        h,
                        player_x,
                        player_y,
                        max_radius,
                        light_walls,
                        yo as int - 1,
                        i,
                    ),
                    ..cells0[i]
                }) by {
                    assert(xo == bb.0 as i32 && r2 as int == spec_r2(max_radius as int));
                    assert(ray_marks(cells0, w, player_x, player_y, bb.0 as i32, yo, spec_r2(max_radius as int), light_walls) == ray_marks(cells0, w, player_x, player_y, xo, yo, r2 as int, light_walls));
                    if sweep4_lit(
                        cells0,
                        w,
                        h,
                        player_x,
                        player_y,
                        max_radius,
                        light_walls,
                        yo as int - 1,
                        i,
                    ) {
                        let e = choose|e: i32|
                            yo as int - 1 < e <= bb.3 - 2 && #[trigger] ray_marks(
                                cells0,
                                w,
                                player_x,
                                player_y,
                                bb.0 as i32,
                                e,
                                spec_r2(max_radius as int),
                                light_walls,
                            ).contains(i);
                        if e > yo {
                            assert(sweep4_lit(
                                cells0,
                                w,
                                h,
                                player_x,
                                player_y,
                                max_radius,
                                light_walls,
                                yo as int,
                                i,
                            ));
                        }
                    }
                }
            }
            yo = yo - 1;
        }

        if light_walls {
            let ghost c1 = cells_after_rays(
                cells0,
                w,
                h,
                player_x,
                player_y,
                max_radius,
                light_walls,
            );
            let ghost q0 = pp_pass(cells0, w, h, player_x, player_y, max_radius, light_walls, 0);
            let ghost q1 = pp_pass(cells0, w, h, player_x, player_y, max_radius, light_walls, 1);
            let ghost q2 = pp_pass(cells0, w, h, player_x, player_y, max_radius, light_walls, 2);
            let ghost q3 = pp_pass(cells0, w, h, player_x, player_y, max_radius, light_walls, 3);
            proof {
                assert(self.cells@ =~= c1);
                assert(q0.wf() && q1.wf() && q2.wf() && q3.wf());
            }
            self.postproc(xmin, ymin, player_x, player_y, -1, -1);
            proof {
                assert forall|i: int| 0 <= i < cells0.len() implies #[trigger] self.cells@[i]
                    == (Cell { fov: c1[i].fov || q0.marks(i), ..c1[i] }) by {}
            }
            let ghost e1 = self.cells@;
            self.postproc(player_x, ymin, xmax - 1, player_y, 1, -1);
            proof {
                let q1e = PpPass { cells: e1, ..q1 };
                assert forall|j: int|
                    0 <= j < c1.len() && c1[j].transparent implies (#[trigger] e1[j]).fov
                    == c1[j].fov by {
                    if q0.marks(j) {
                        lemma_pp_marks_opaque(q0, j);
                    }
                }
                assert forall|i: int| 0 <= i < cells0.len() implies #[trigger] self.cells@[i]
                    == (Cell { fov: c1[i].fov || q0.marks(i) || q1.marks(i), ..c1[i] }) by {
                    lemma_pp_marks_congruent(q1, q1e, i);
                }
            }
            let ghost e2 = self.cells@;
            self.postproc(xmin, player_y, player_x, ymax - 1, -1, 1);
            proof {
                let q2e = PpPass { cells: e2, ..q2 };
                assert forall|j: int|
                    0 <= j < c1.len() && c1[j].transparent implies (#[trigger] e2[j]).fov
                    == c1[j].fov by {
                    if q0.marks(j) {
                        lemma_pp_marks_opaque(q0, j);
                    }
                    if q1.marks(j) {
                        lemma_pp_marks_opaque(q1, j);
                    }
                }
                assert forall|i: int| 0 <= i < cells0.len() implies #[trigger] self.cells@[i]
                    == (Cell {
                    fov: c1[i].fov || q0.marks(i) || q1.marks(i) || q2.marks(i),
                    ..c1[i]
                }) by {
                    lemma_pp_marks_congruent(q2, q2e, i);
                }
            }
            let ghost e3 = self.cells@;
            self.postproc(player_x, player_y, xmax - 1, ymax - 1, 1, 1);
            proof {
                let q3e = PpPass { cells: e3, ..q3 };
                assert forall|j: int|
                    0 <= j < c1.len() && c1[j].transparent implies (#[trigger] e3[j]).fov
                    == c1[j].fov by {
                    if q0.marks(j) {
                        lemma_pp_marks_opaque(q0, j);
                    }
                    if q1.marks(j) {
                        lemma_pp_marks_opaque(q1, j);
                    }
                    if q2.marks(j) {
                        lemma_pp_marks_opaque(q2, j);
                    }
                }
                assert forall|i: int| 0 <= i < cells0.len() implies #[trigger] self.cells@[i]
                    == (Cell {
                    fov: c1[i].fov || q0.marks(i) || q1.marks(i) || q2.marks(i) || q3.marks(i),
                    ..c1[i]
                }) by {
                    lemma_pp_marks_congruent(q3, q3e, i);
                }
            }
        }
    }
}


/// Offset `i` is the `kk`-th cell of the ray cast from `(px, py)` toward
/// `(xd, yd)`, and every cell of the ray up to and including it is
/// transparent.
pub open spec fn ray_prefix_clear(
    cells: Seq<Cell>,
    w: int,
    px: i32,
    py: i32,
    xd: i32,
    yd: i32,
    i: int,
) -> bool {
    let pts = line_pts(px, py, xd, yd);
    exists|kk: int|
        0 <= kk < pts.len() && i == (#[trigger] pts[kk]).0 + pts[kk].1 * w && (forall|j: int|
            0 <= j <= kk ==> 0 <= (#[trigger] pts[j]).0 + pts[j].1 * w < cells.len()
                && cells[pts[j].0 + pts[j].1 * w].transparent)
}

proof fn lemma_ray_marks_from_clear(
    cells: Seq<Cell>,
    w: int,
    xo: int,
    yo: int,
    r2: int,
    pts: Seq<(i32, i32)>,
    k: int,
    i: int,
)
    requires
        ray_marks_from(cells, w, xo, yo, r2, false, pts, k, false).contains(i),
    ensures
        exists|kk: int|
            k <= kk < pts.len() && i == (#[trigger] pts[kk]).0 + pts[kk].1 * w && (forall|j: int|
                k <= j <= kk ==> 0 <= (#[trigger] pts[j]).0 + pts[j].1 * w < cells.len()
                    && cells[pts[j].0 + pts[j].1 * w].transparent),
    decreases pts.len() - k,
{
    let cx = pts[k].0 as int;
    let cy = pts[k].1 as int;
    let off = cx + cy * w;
    let opaque = !(0 <= off < cells.len() && cells[off].transparent);
    if !opaque && i == off {
        let kk = k;
        assert(k <= kk < pts.len() && i == pts[kk].0 + pts[kk].1 * w && (forall|j: int|
            k <= j <= kk ==> 0 <= (#[trigger] pts[j]).0 + pts[j].1 * w < cells.len()
                && cells[pts[j].0 + pts[j].1 * w].transparent));
    } else {
        assert(ray_marks_from(cells, w, xo, yo, r2, false, pts, k + 1, opaque).contains(i));
        if opaque {
            assert(!ray_marks_from(cells, w, xo, yo, r2, false, pts, k + 1, true).contains(i));
            assert(false);
        }
        lemma_ray_marks_from_clear(cells, w, xo, yo, r2, pts, k + 1, i);
        let kk = choose|kk: int|
            k + 1 <= kk < pts.len() && i == (#[trigger] pts[kk]).0 + pts[kk].1 * w && (forall|
                j: int,
            |
                k + 1 <= j <= kk ==> 0 <= (#[trigger] pts[j]).0 + pts[j].1 * w < cells.len()
                    && cells[pts[j].0 + pts[j].1 * w].transparent);
        assert(k <= kk < pts.len() && i == pts[kk].0 + pts[kk].1 * w && (forall|j: int|
            k <= j <= kk ==> 0 <= (#[trigger] pts[j]).0 + pts[j].1 * w < cells.len()
                && cells[pts[j].0 + pts[j].1 * w].transparent));
    }
}

proof fn lemma_ray_marks_clear(
    cells: Seq<Cell>,
    w: int,
    px: i32,
    py: i32,
    xd: i32,
    yd: i32,
    r2: int,
    i: int,
)
    requires
        ray_marks(cells, w, px, py, xd, yd, r2, false).contains(i),
        i != px as int + py as int * w,
    ensures
        ray_prefix_clear(cells, w, px, py, xd, yd, i),
{
    assert(ray_marks_from(
        cells,
        w,
        px as int,
        py as int,
        r2,
        false,
        line_pts(px, py, xd, yd),
        0,
        false,
    ).contains(i));
    lemma_ray_marks_from_clear(cells, w, px as int, py as int, r2, line_pts(px, py, xd, yd), 0, i);
}

/// Law: with `light_walls` off, every cell a refresh marks visible, other
/// than the viewer's own cell, lies on one of the engine's cast rays, and
/// every cell of that ray up to and including it is transparent — in
/// particular every cell strictly between it and the origin along its
/// casting ray.
pub proof fn lemma_visible_cells_have_clear_rays(
    cells: Seq<Cell>,
    w: int,
    h: int,
    px: i32,
    py: i32,
    max_radius: i32,
    i: int,
)
    requires
        fov_model(cells, w, h, px, py, max_radius, false, i),
        i != px as int + py as int * w,
    ensures
        exists|e: (i32, i32)| #[trigger] ray_prefix_clear(cells, w, px, py, e.0, e.1, i),
{
    let bb = spec_bbox(w, h, px as int, py as int, max_radius as int);
    let r2 = spec_r2(max_radius as int);
    if sweep1_lit(cells, w, h, px, py, max_radius, false, bb.2, i) {
        let xo = choose|xo: i32|
            bb.0 <= xo < bb.2 && #[trigger] ray_marks(
                cells,
                w,
                px,
                py,
                xo,
                bb.1 as i32,
                r2,
                false,
            ).contains(i);
        lemma_ray_marks_clear(cells, w, px, py, xo, bb.1 as i32, r2, i);
        assert(ray_prefix_clear(cells, w, px, py, xo, bb.1 as i32, i));
        let e = (xo, bb.1 as i32);
        assert(ray_prefix_clear(cells, w, px, py, e.0, e.1, i));
    } else if sweep2_lit(cells, w, h, px, py, max_radius, false, bb.3, i) {
        let yo = choose|yo: i32|
            bb.1 + 1 <= yo < bb.3 && #[trigger] ray_marks(
                cells,
                w,
                px,
                py,
                (bb.2 - 1) as i32,
                yo,
                r2,
                false,
            ).contains(i);
        lemma_ray_marks_clear(cells, w, px, py, (bb.2 - 1) as i32, yo, r2, i);
        let e = ((bb.2 - 1) as i32, yo);
        assert(ray_prefix_clear(cells, w, px, py, e.0, e.1, i));
    } else if sweep3_lit(cells, w, h, px, py, max_radius, false, -1, i) {
        let xo = choose|xo: i32|
            -1 < xo <= bb.2 - 2 && #[trigger] ray_marks(
                cells,
                w,
                px,
                py,
                xo,
                (bb.3 - 1) as i32,
                r2,
                false,
            ).contains(i);
        lemma_ray_marks_clear(cells, w, px, py, xo, (bb.3 - 1) as i32, r2, i);
        let e = (xo, (bb.3 - 1) as i32);
        assert(ray_prefix_clear(cells, w, px, py, e.0, e.1, i));
    } else {
        let yo = choose|yo: i32|
            0 < yo <= bb.3 - 2 && #[trigger] ray_marks(
                cells,
                w,
                px,
                py,
                bb.0 as i32,
                yo,
                r2,
                false,
            ).contains(i);
        lemma_ray_marks_clear(cells, w, px, py, bb.0 as i32, yo, r2, i);
        let e = (bb.0 as i32, yo);
        assert(ray_prefix_clear(cells, w, px, py, e.0, e.1, i));
    }
}


/// Law at the grid level: after a refresh computed without wall lighting,
/// any visible cell other than the viewer's own lies on one of the cast
/// rays, and the ray's cells up to and including it are all transparent in
/// the grid the refresh read.
pub proof fn lemma_refresh_visibility_has_clear_rays(
    pre: FOV,
    post: FOV,
    px: i32,
    py: i32,
    max_radius: i32,
    x: int,
    y: int,
)
    requires
        pre.wf(),
        post.w == pre.w,
        post.h == pre.h,
        post.cells@.len() == pre.cells@.len(),
        pre.in_bounds(px as int, py as int),
        forall|i: int|
            0 <= i < pre.cells@.len() ==> #[trigger] post.cells@[i] == (Cell {
                fov: fov_model(
                    pre.cells@,
                    pre.w as int,
                    pre.h as int,
                    px,
                    py,
                    max_radius,
                    false,
                    i,
                ),
                ..pre.cells@[i]
            }),
        post.visible(x, y),
        !(x == px as int && y == py as int),
    ensures
        exists|e: (i32, i32)|
            #[trigger] ray_prefix_clear(pre.cells@, pre.w as int, px, py, e.0, e.1, x + y * pre.w),
{
    let w = pre.w as int;
    let off = x + y * w;
    lemma_off_bounds(w, pre.h as int, x, y);
    assert(post.cells@[off].fov);
    assert(fov_model(pre.cells@, w, pre.h as int, px, py, max_radius, false, off));
    lemma_off_inverse(w, x, y);
    lemma_off_inverse(w, px as int, py as int);
    assert(off != px as int + py as int * w);
    lemma_visible_cells_have_clear_rays(pre.cells@, w, pre.h as int, px, py, max_radius, off);
}

} // verus!
