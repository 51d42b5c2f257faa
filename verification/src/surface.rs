//! The presentation surface: a grid of logical cells, each shown as a square of
//! `scale` by `scale` physical pixels.

use vstd::prelude::*;

verus! {

/// Largest physical extent, in pixels, of a surface side: half of `i32::MAX`.
/// Windowing backends keep the positions and sizes of rectangles within this
/// bound, so a rectangle of such a surface reaches the display as it is.
pub const MAX_EXTENT: u32 = 0x3fff_ffff;

/// An axis-aligned rectangle in physical pixels, origin at the upper left.
#[derive(Clone, Copy, Debug, PartialEq, Eq, Structural)]
pub struct Rect {
    pub x: i32,
    pub y: i32,
    pub width: u32,
    pub height: u32,
}

impl Rect {
    /// Whether the physical pixel `(px, py)` lies inside the rectangle.
    pub open spec fn covers(self, px: int, py: int) -> bool {
        &&& self.x <= px < self.x + self.width
        &&& self.y <= py < self.y + self.height
    }
}

/// The fixed geometry of a presentation surface: its logical resolution and the
/// integer factor by which each logical cell is magnified.
#[derive(Clone, Copy, Debug)]
pub struct Surface {
    width: u32,
    height: u32,
    scale: u32,
}

/// Whether a logical resolution and a scale describe a surface that can be shown.
pub open spec fn presentable(logical_width: int, logical_height: int, scale: int) -> bool {
    &&& 1 <= logical_width
    &&& 1 <= logical_height
    &&& 1 <= scale
    &&& logical_width * scale <= MAX_EXTENT
    &&& logical_height * scale <= MAX_EXTENT
}

impl Surface {
    /// Number of cells in a row.
    pub closed spec fn width(&self) -> int {
        self.width as int
    }

    /// Number of rows.
    pub closed spec fn height(&self) -> int {
        self.height as int
    }

    /// Side, in physical pixels, of the square that shows one cell.
    pub closed spec fn scale(&self) -> int {
        self.scale as int
    }

    /// The invariant of every surface.
    pub open spec fn valid(&self) -> bool {
        presentable(self.width(), self.height(), self.scale())
    }

    #[verifier::type_invariant]
    spec fn inv(&self) -> bool {
        self.valid()
    }

    /// Number of cells of the framebuffer that the surface shows.
    pub open spec fn cells(&self) -> int {
        self.width() * self.height()
    }

    /// Describes a surface of `logical_width` by `logical_height` cells, each
    /// magnified `scale` times. `None` exactly when a dimension or the scale is
    /// zero or a physical side would exceed `MAX_EXTENT`.
    pub fn initialize(logical_width: u32, logical_height: u32, scale: u32) -> (surface: Option<Surface>)
        ensures
            surface.is_some() <==> presentable(logical_width as int, logical_height as int, scale as int),
            surface matches Some(s) ==> {
                &&& s.valid()
                &&& s.width() == logical_width
                &&& s.height() == logical_height
                &&& s.scale() == scale
            },
    {
        if logical_width == 0 || logical_height == 0 || scale == 0 {
            return None;
        }
        let fits_across = match logical_width.checked_mul(scale) {
            Some(w) => w <= MAX_EXTENT,
            None => false,
        };
        let fits_down = match logical_height.checked_mul(scale) {
            Some(h) => h <= MAX_EXTENT,
            None => false,
        };
        if fits_across && fits_down {
            Some(Surface { width: logical_width, height: logical_height, scale })
        } else {
            None
        }
    }

    /// Number of cells in a row.
    pub fn logical_width(&self) -> (w: u32)
        ensures
            w == self.width(),
    {
        self.width
    }

    /// Number of rows.
    pub fn logical_height(&self) -> (h: u32)
        ensures
            h == self.height(),
    {
        self.height
    }

    /// Side of the square that shows one cell.
    pub fn scale_factor(&self) -> (s: u32)
        ensures
            s == self.scale(),
    {
        self.scale
    }

    /// Physical size of the window, `(logical_width * scale, logical_height * scale)`.
    pub fn window_size(&self) -> (size: (u32, u32))
        ensures
            size.0 == self.width() * self.scale(),
            size.1 == self.height() * self.scale(),
    {
        proof {
            use_type_invariant(self);
        }
        (self.width * self.scale, self.height * self.scale)
    }
}

/// The indices of the lit cells of a framebuffer, in increasing order.
pub open spec fn lit_cells(framebuffer: Seq<bool>) -> Seq<int>
    decreases framebuffer.len(),
{
    if framebuffer.len() == 0 {
        Seq::empty()
    } else {
        let before = lit_cells(framebuffer.drop_last());
        if framebuffer.last() {
            before.push(framebuffer.len() - 1)
        } else {
            before
        }
    }
}

impl Surface {
    /// Column of the cell at `index` of a row-major framebuffer.
    pub open spec fn column_of(&self, index: int) -> int {
        index % self.width()
    }

    /// Row of the cell at `index` of a row-major framebuffer.
    pub open spec fn row_of(&self, index: int) -> int {
        index / self.width()
    }

    /// The square of physical pixels that shows the cell at `index`: its upper
    /// left corner is the cell's column and row times the scale, its sides are
    /// the scale.
    pub open spec fn cell_rect(&self, index: int) -> Rect {
        Rect {
            x: (self.column_of(index) * self.scale()) as i32,
            y: (self.row_of(index) * self.scale()) as i32,
            width: self.scale() as u32,
            height: self.scale() as u32,
        }
    }

    /// The rectangles that show a framebuffer: one for each lit cell, in the
    /// order of the cells, and none for an unlit cell.
    pub open spec fn rendered(&self, framebuffer: Seq<bool>) -> Seq<Rect> {
        lit_cells(framebuffer).map_values(|index: int| self.cell_rect(index))
    }

    /// A cell of the surface lies inside the window: its square starts at a
    /// non-negative position and ends at or before the window's far edges.
    pub proof fn lemma_cell_in_window(&self, index: int)
        requires
            self.valid(),
            0 <= index < self.cells(),
        ensures
            0 <= self.column_of(index) < self.width(),
            0 <= self.row_of(index) < self.height(),
            index == self.row_of(index) * self.width() + self.column_of(index),
            0 <= self.column_of(index) * self.scale(),
            self.column_of(index) * self.scale() + self.scale() <= self.width() * self.scale(),
            0 <= self.row_of(index) * self.scale(),
            self.row_of(index) * self.scale() + self.scale() <= self.height() * self.scale(),
            self.cell_rect(index).x == self.column_of(index) * self.scale(),
            self.cell_rect(index).y == self.row_of(index) * self.scale(),
            self.cell_rect(index).width == self.scale(),
            self.cell_rect(index).height == self.scale(),
    {
        let w = self.width();
        let h = self.height();
        let k = self.scale();
        let c = index % w;
        let r = index / w;
        assert(0 <= c < w && 0 <= r < h && index == r * w + c) by (nonlinear_arith)
            requires
                1 <= w,
                1 <= h,
                0 <= index < w * h,
                c == index % w,
                r == index / w,
        ;
        assert(0 <= c * k && c * k + k <= w * k) by (nonlinear_arith)
            requires
                0 <= c < w,
                1 <= k,
        ;
        assert(0 <= r * k && r * k + k <= h * k) by (nonlinear_arith)
            requires
                0 <= r < h,
                1 <= k,
        ;
    }

    /// The square that shows the cell at `index`.
    pub fn rect_of_cell(&self, index: usize) -> (rect: Rect)
        requires
            index < self.cells(),
        ensures
            rect == self.cell_rect(index as int),
    {
        proof {
            use_type_invariant(self);
            self.lemma_cell_in_window(index as int);
        }
        let width: usize = self.width as usize;
        let column: u32 = (index % width) as u32;
        let row: u32 = (index / width) as u32;
        Rect {
            x: (column * self.scale) as i32,
            y: (row * self.scale) as i32,
            width: self.scale,
            height: self.scale,
        }
    }

    /// Turns a framebuffer into the rectangles to fill: for every lit cell
    /// the square at its column and row times the scale, in the order of the
    /// cells; an unlit cell gives nothing.
    pub fn render(&self, framebuffer: &[bool]) -> (rects: Vec<Rect>)
        requires
            framebuffer@.len() == self.cells(),
        ensures
            rects@ == self.rendered(framebuffer@),
    {
        let mut rects: Vec<Rect> = Vec::new();
        let mut index: usize = 0;
        while index < framebuffer.len()
            invariant
                index <= framebuffer@.len(),
                framebuffer@.len() == self.cells(),
                rects@ == self.rendered(framebuffer@.take(index as int)),
            decreases framebuffer@.len() - index,
        {
            proof {
                let shown = framebuffer@.take(index + 1);
                assert(shown.drop_last() == framebuffer@.take(index as int));
                assert(shown.last() == framebuffer@[index as int]);
            }
            if framebuffer[index] {
                let rect = self.rect_of_cell(index);
                rects.push(rect);
            }
            index += 1;
        }
        proof {
            assert(framebuffer@.take(index as int) == framebuffer@);
        }
        rects
    }
}

/// The lit cells are listed once each and in increasing order: every entry of
/// `lit_cells` is the index of a lit cell, later entries are larger, and every
/// lit cell is an entry.
pub proof fn lemma_lit_cells_exact(framebuffer: Seq<bool>)
    ensures
        lit_cells(framebuffer).len() <= framebuffer.len(),
        forall|k: int|
            0 <= k < lit_cells(framebuffer).len() ==> {
                &&& 0 <= #[trigger] lit_cells(framebuffer)[k] < framebuffer.len()
                &&& framebuffer[lit_cells(framebuffer)[k]]
            },
        forall|j: int, k: int|
            0 <= j < k < lit_cells(framebuffer).len() ==> #[trigger] lit_cells(framebuffer)[j]
                < #[trigger] lit_cells(framebuffer)[k],
        forall|index: int|
            0 <= index < framebuffer.len() && #[trigger] framebuffer[index] ==> lit_cells(
                framebuffer,
            ).contains(index),
    decreases framebuffer.len(),
{
    if framebuffer.len() > 0 {
        let shorter = framebuffer.drop_last();
        let before = lit_cells(shorter);
        let last = framebuffer.len() - 1;
        lemma_lit_cells_exact(shorter);
        let all = lit_cells(framebuffer);
        assert forall|index: int| 0 <= index < framebuffer.len() && #[trigger] framebuffer[index]
            implies all.contains(index) by {
            if index < last {
                assert(shorter[index]);
                let k = choose|k: int| 0 <= k < before.len() && before[k] == index;
                assert(all[k] == index);
            } else {
                assert(all[all.len() - 1] == index);
            }
        }
    }
}

/// A framebuffer without a lit cell has no lit cells to list, and only such a
/// framebuffer has none.
pub proof fn lemma_lit_cells_empty(framebuffer: Seq<bool>)
    ensures
        lit_cells(framebuffer).len() == 0 <==> forall|index: int|
            0 <= index < framebuffer.len() ==> !#[trigger] framebuffer[index],
{
    lemma_lit_cells_exact(framebuffer);
    let lit = lit_cells(framebuffer);
    if lit.len() == 0 {
        assert forall|index: int| 0 <= index < framebuffer.len() implies !#[trigger] framebuffer[index] by {
            if framebuffer[index] {
                assert(lit.contains(index));
            }
        }
    } else {
        assert(framebuffer[lit[0]]);
    }
}

impl Surface {
    /// Different cells of a surface are shown by different squares.
    pub proof fn lemma_cell_rect_injective(&self, first: int, second: int)
        requires
            self.valid(),
            0 <= first < self.cells(),
            0 <= second < self.cells(),
            self.cell_rect(first) == self.cell_rect(second),
        ensures
            first == second,
    {
        self.lemma_cell_in_window(first);
        self.lemma_cell_in_window(second);
        let k = self.scale();
        let c1 = self.column_of(first);
        let c2 = self.column_of(second);
        let r1 = self.row_of(first);
        let r2 = self.row_of(second);
        assert(c1 == c2) by (nonlinear_arith)
            requires
                c1 * k == c2 * k,
                1 <= k,
        ;
        assert(r1 == r2) by (nonlinear_arith)
            requires
                r1 * k == r2 * k,
                1 <= k,
        ;
    }

    /// The squares of two different cells share no pixel.
    pub proof fn lemma_cell_rects_disjoint(&self, first: int, second: int, px: int, py: int)
        requires
            self.valid(),
            0 <= first < self.cells(),
            0 <= second < self.cells(),
            self.cell_rect(first).covers(px, py),
            self.cell_rect(second).covers(px, py),
        ensures
            first == second,
    {
        self.lemma_cell_in_window(first);
        self.lemma_cell_in_window(second);
        let k = self.scale();
        let c1 = self.column_of(first);
        let c2 = self.column_of(second);
        let r1 = self.row_of(first);
        let r2 = self.row_of(second);
        assert(c1 == c2) by (nonlinear_arith)
            requires
                c1 * k <= px < c1 * k + k,
                c2 * k <= px < c2 * k + k,
                1 <= k,
        ;
        assert(r1 == r2) by (nonlinear_arith)
            requires
                r1 * k <= py < r1 * k + k,
                r2 * k <= py < r2 * k + k,
                1 <= k,
        ;
    }

    /// Lit cells and rectangles correspond one to one: the rendering holds the
    /// square of the cell at `index` if and only if that cell is lit, for every
    /// index of the framebuffer; every rectangle of the rendering is the square
    /// of a lit cell; and no rectangle occurs twice.
    pub proof fn lemma_render_bijective(&self, framebuffer: Seq<bool>)
        requires
            self.valid(),
            framebuffer.len() == self.cells(),
        ensures
            self.rendered(framebuffer).len() == lit_cells(framebuffer).len(),
            forall|index: int|
                0 <= index < self.cells() ==> (self.rendered(framebuffer).contains(
                    #[trigger] self.cell_rect(index),
                ) <==> framebuffer[index]),
            forall|k: int|
                0 <= k < self.rendered(framebuffer).len() ==> {
                    &&& 0 <= lit_cells(framebuffer)[k] < self.cells()
                    &&& framebuffer[lit_cells(framebuffer)[k]]
                    &&& #[trigger] self.rendered(framebuffer)[k] == self.cell_rect(
                        lit_cells(framebuffer)[k],
                    )
                },
            self.rendered(framebuffer).no_duplicates(),
    {
        lemma_lit_cells_exact(framebuffer);
        let lit = lit_cells(framebuffer);
        let rects = self.rendered(framebuffer);
        assert forall|index: int| 0 <= index < self.cells() implies (rects.contains(
            #[trigger] self.cell_rect(index),
        ) <==> framebuffer[index]) by {
            if framebuffer[index] {
                assert(lit.contains(index));
                let k = choose|k: int| 0 <= k < lit.len() && lit[k] == index;
                assert(rects[k] == self.cell_rect(index));
            }
            if rects.contains(self.cell_rect(index)) {
                let k = choose|k: int| 0 <= k < rects.len() && rects[k] == self.cell_rect(index);
                assert(rects[k] == self.cell_rect(lit[k]));
                self.lemma_cell_rect_injective(lit[k], index);
            }
        }
        assert forall|j: int, k: int| 0 <= j < rects.len() && 0 <= k < rects.len() && j != k implies rects[j]
            != rects[k] by {
            if rects[j] == rects[k] {
                assert(rects[j] == self.cell_rect(lit[j]));
                assert(rects[k] == self.cell_rect(lit[k]));
                self.lemma_cell_rect_injective(lit[j], lit[k]);
                if j < k {
                    assert(lit[j] < lit[k]);
                } else {
                    assert(lit[k] < lit[j]);
                }
            }
        }
    }

    /// Rendering a framebuffer that is entirely unlit draws nothing, so the
    /// surface stays as clearing left it; and only such a framebuffer renders
    /// to nothing.
    pub proof fn lemma_unlit_renders_nothing(&self, framebuffer: Seq<bool>)
        ensures
            self.rendered(framebuffer).len() == 0 <==> forall|index: int|
                0 <= index < framebuffer.len() ==> !#[trigger] framebuffer[index],
    {
        lemma_lit_cells_empty(framebuffer);
    }
}

/// Whether one of the rectangles holds the physical pixel `(px, py)`.
pub open spec fn painted(rects: Seq<Rect>, px: int, py: int) -> bool {
    exists|k: int| 0 <= k < rects.len() && #[trigger] rects[k].covers(px, py)
}

impl Surface {
    /// Whether the physical pixel `(px, py)` lies inside the window.
    pub open spec fn in_window(&self, px: int, py: int) -> bool {
        &&& 0 <= px < self.width() * self.scale()
        &&& 0 <= py < self.height() * self.scale()
    }

    /// Index of the cell that the physical pixel `(px, py)` belongs to.
    pub open spec fn cell_at(&self, px: int, py: int) -> int {
        (py / self.scale()) * self.width() + px / self.scale()
    }

    /// Every pixel of the window belongs to exactly one cell, the one whose
    /// square holds it.
    pub proof fn lemma_pixel_cell(&self, px: int, py: int)
        requires
            self.valid(),
            self.in_window(px, py),
        ensures
            0 <= self.cell_at(px, py) < self.cells(),
            self.column_of(self.cell_at(px, py)) == px / self.scale(),
            self.row_of(self.cell_at(px, py)) == py / self.scale(),
            self.cell_rect(self.cell_at(px, py)).covers(px, py),
    {
        let w = self.width();
        let h = self.height();
        let k = self.scale();
        let c = px / k;
        let r = py / k;
        let index = r * w + c;
        assert(0 <= c < w && c * k <= px < c * k + k) by (nonlinear_arith)
            requires
                1 <= k,
                1 <= w,
                0 <= px < w * k,
                c == px / k,
        ;
        assert(0 <= r < h && r * k <= py < r * k + k) by (nonlinear_arith)
            requires
                1 <= k,
                1 <= h,
                0 <= py < h * k,
                r == py / k,
        ;
        assert(0 <= index < w * h && index % w == c && index / w == r) by (nonlinear_arith)
            requires
                0 <= c < w,
                0 <= r < h,
                index == r * w + c,
        ;
        self.lemma_cell_in_window(index);
    }

    /// The rendering is the framebuffer magnified: a pixel of the window is
    /// painted if and only if the cell it belongs to is lit, and no pixel
    /// outside the window is painted.
    pub proof fn lemma_render_magnifies(&self, framebuffer: Seq<bool>, px: int, py: int)
        requires
            self.valid(),
            framebuffer.len() == self.cells(),
        ensures
            self.in_window(px, py) ==> (painted(self.rendered(framebuffer), px, py)
                <==> framebuffer[self.cell_at(px, py)]),
            !self.in_window(px, py) ==> !painted(self.rendered(framebuffer), px, py),
    {
        self.lemma_render_bijective(framebuffer);
        let rects = self.rendered(framebuffer);
        let lit = lit_cells(framebuffer);
        if painted(rects, px, py) {
            let k = choose|k: int| 0 <= k < rects.len() && #[trigger] rects[k].covers(px, py);
            assert(rects[k] == self.cell_rect(lit[k]));
            self.lemma_cell_in_window(lit[k]);
            assert(self.in_window(px, py));
            self.lemma_pixel_cell(px, py);
            self.lemma_cell_rects_disjoint(lit[k], self.cell_at(px, py), px, py);
        }
        if self.in_window(px, py) && framebuffer[self.cell_at(px, py)] {
            self.lemma_pixel_cell(px, py);
            let index = self.cell_at(px, py);
            assert(rects.contains(self.cell_rect(index)));
            let k = choose|k: int| 0 <= k < rects.len() && rects[k] == self.cell_rect(index);
            assert(rects[k].covers(px, py));
        }
    }
}

} // verus!
