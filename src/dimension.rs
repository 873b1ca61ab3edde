use vstd::prelude::*;

verus! {

/// Fewest columns a pane grid ever reports.
pub const MIN_COLS: usize = 2;

/// Fewest lines a pane grid ever reports.
pub const MIN_LINES: usize = 1;

/// Offsets around a grid: horizontal, above and below.
#[derive(Clone, Copy, Debug, Default, PartialEq, Eq)]
pub struct Delta<T> {
    pub x: T,
    pub top_y: T,
    pub bottom_y: T,
}

/// Size of one character cell in physical pixels, and the display scale
/// (physical pixels per logical point).
#[derive(Clone, Copy, Debug, PartialEq, Eq)]
pub struct SugarDimensions {
    pub scale: u32,
    pub width: u32,
    pub height: u32,
}

impl SugarDimensions {
    /// A usable metric: no factor is zero.
    pub open spec fn wf(&self) -> bool {
        self.scale >= 1 && self.width >= 1 && self.height >= 1
    }
}

/// Clamps an exact pixel value into the range of `i64`.
pub open spec fn sat_px(v: int) -> int {
    if v < i64::MIN {
        i64::MIN as int
    } else if v > i64::MAX {
        i64::MAX as int
    } else {
        v
    }
}

/// A count that is at least `min` and at most `usize::MAX`.
pub open spec fn clamp_count(q: int, min: int) -> int {
    if q < min {
        min
    } else if q > usize::MAX {
        usize::MAX as int
    } else {
        q
    }
}

/// Columns of a pane `width` pixels wide: the logical width less the
/// horizontal margin (taken once more at scale), over the logical cell width.
pub open spec fn columns_spec(width: int, d: SugarDimensions, margin: Delta<i64>) -> int {
    let s = d.scale as int;
    clamp_count((width - margin.x * s * s) / (d.width as int), MIN_COLS as int)
}

/// Lines of a pane `height` pixels tall, with a line height given in
/// hundredths of the cell height.
pub open spec fn lines_spec(
    height: int,
    d: SugarDimensions,
    line_height: int,
    margin: Delta<i64>,
) -> int {
    let s = d.scale as int;
    clamp_count(
        (height - (margin.top_y + margin.bottom_y) * s) * 100 / (d.height as int * line_height),
        MIN_LINES as int,
    )
}

/// The grid `(columns, lines)` of a pixel box.
pub open spec fn compute_spec(
    width: int,
    height: int,
    d: SugarDimensions,
    line_height: int,
    margin: Delta<i64>,
) -> (int, int) {
    (columns_spec(width, d, margin), lines_spec(height, d, line_height, margin))
}

proof fn lemma_floor_div_monotonic(a: int, b: int, d: int)
    requires
        a <= b,
        d > 0,
    ensures
        a / d <= b / d,
{
    vstd::arithmetic::div_mod::lemma_div_is_ordered(a, b, d);
}

proof fn lemma_clamp_monotonic(a: int, b: int, min: int)
    requires
        a <= b,
        0 <= min <= usize::MAX,
    ensures
        clamp_count(a, min) <= clamp_count(b, min),
{
}

/// A wider or taller box never has fewer columns or lines, and every grid
/// has at least two columns and one line.
pub proof fn lemma_compute_monotonic(
    w1: int,
    h1: int,
    w2: int,
    h2: int,
    d: SugarDimensions,
    line_height: int,
    margin: Delta<i64>,
)
    requires
        d.wf(),
        line_height >= 1,
        w1 <= w2,
        h1 <= h2,
    ensures
        compute_spec(w1, h1, d, line_height, margin).0 <= compute_spec(w2, h2, d, line_height, margin).0,
        compute_spec(w1, h1, d, line_height, margin).1 <= compute_spec(w2, h2, d, line_height, margin).1,
        compute_spec(w1, h1, d, line_height, margin).0 >= MIN_COLS,
        compute_spec(w1, h1, d, line_height, margin).1 >= MIN_LINES,
{
    let s = d.scale as int;
    lemma_floor_div_monotonic(w1 - margin.x * s * s, w2 - margin.x * s * s, d.width as int);
    let m = (margin.top_y + margin.bottom_y) * s;
    assert((h1 - m) * 100 <= (h2 - m) * 100) by (nonlinear_arith)
        requires h1 <= h2;
    assert(d.height as int * line_height > 0) by (nonlinear_arith)
        requires d.height >= 1, line_height >= 1;
    lemma_floor_div_monotonic((h1 - m) * 100, (h2 - m) * 100, d.height as int * line_height);
    lemma_clamp_monotonic(
        (w1 - margin.x * s * s) / (d.width as int),
        (w2 - margin.x * s * s) / (d.width as int),
        MIN_COLS as int,
    );
    lemma_clamp_monotonic(
        (h1 - m) * 100 / (d.height as int * line_height),
        (h2 - m) * 100 / (d.height as int * line_height),
        MIN_LINES as int,
    );
}

/// `num / den` rounded down and clamped to `[min, usize::MAX]`.
fn clamped_quotient(num: i128, den: i128, min: usize) -> (r: usize)
    requires
        den > 0,
    ensures
        r == clamp_count(num / den, min as int),
{
    if num < 0 {
        proof {
            vstd::arithmetic::div_mod::lemma_div_is_ordered(num as int, 0, den as int);
            assert(0int / den as int == 0) by (nonlinear_arith)
                requires den > 0;
        }
        return min;
    }
    let q = num / den;
    if q < min as i128 {
        min
    } else if q > usize::MAX as i128 {
        usize::MAX
    } else {
        q as usize
    }
}

/// The grid of a pixel box; `line_height` is in hundredths of the cell height.
pub(crate) fn compute(
    width: i64,
    height: i64,
    dimensions: SugarDimensions,
    line_height: u32,
    margin: Delta<i64>,
) -> (r: (usize, usize))
    requires
        dimensions.wf(),
        line_height >= 1,
    ensures
        r.0 == columns_spec(width as int, dimensions, margin),
        r.1 == lines_spec(height as int, dimensions, line_height as int, margin),
        r.0 >= MIN_COLS,
        r.1 >= MIN_LINES,
{
    let s = dimensions.scale as i128;
    let mx = margin.x as i128;
    assert(-0x8000_0000_0000_0000 * 0xFFFF_FFFF <= mx * s <= 0x8000_0000_0000_0000 * 0xFFFF_FFFF)
        by (nonlinear_arith)
        requires -0x8000_0000_0000_0000 <= mx <= 0x8000_0000_0000_0000, 0 <= s <= 0xFFFF_FFFF;
    let mxs = mx * s;
    assert(-0x8000_0000_0000_0000 * 0xFFFF_FFFF * 0xFFFF_FFFF <= mxs * s
        <= 0x8000_0000_0000_0000 * 0xFFFF_FFFF * 0xFFFF_FFFF) by (nonlinear_arith)
        requires
            -0x8000_0000_0000_0000 * 0xFFFF_FFFF <= mxs <= 0x8000_0000_0000_0000 * 0xFFFF_FFFF,
            0 <= s <= 0xFFFF_FFFF;
    let margin_x = mxs * s;
    let col_num = width as i128 - margin_x;
    let columns = clamped_quotient(col_num, dimensions.width as i128, MIN_COLS);

    let spaces = margin.top_y as i128 + margin.bottom_y as i128;
    assert(-0x1_0000_0000_0000_0000 * 0x1_0000_0000 <= spaces * s <= 0x1_0000_0000_0000_0000 * 0x1_0000_0000)
        by (nonlinear_arith)
        requires -0x1_0000_0000_0000_0000 <= spaces <= 0x1_0000_0000_0000_0000, 0 <= s <= 0xFFFF_FFFF;
    let line_num = (height as i128 - spaces * s) * 100;
    let ch = dimensions.height as i128;
    let lh = line_height as i128;
    assert(0 < ch * lh <= 0xFFFF_FFFF * 0xFFFF_FFFF) by (nonlinear_arith)
        requires 1 <= ch <= 0xFFFF_FFFF, 1 <= lh <= 0xFFFF_FFFF;
    let den = ch * lh;
    let lines = clamped_quotient(line_num, den, MIN_LINES);
    (columns, lines)
}

/// Pixel box of one pane, the cell grid derived from it, and its margin.
#[derive(Clone, Copy, Debug)]
pub struct ContextDimension {
    pub width: i64,
    pub height: i64,
    pub columns: usize,
    pub lines: usize,
    pub dimension: SugarDimensions,
    pub margin: Delta<i64>,
}

impl ContextDimension {
    /// Usable metrics and a grid within its minimums.
    pub open spec fn wf(&self) -> bool {
        self.dimension.wf() && self.columns >= MIN_COLS && self.lines >= MIN_LINES
    }

    /// The grid matches the box at the standard line height.
    pub open spec fn synced(&self) -> bool {
        &&& self.wf()
        &&& self.columns == columns_spec(self.width as int, self.dimension, self.margin)
        &&& self.lines == lines_spec(self.height as int, self.dimension, 100, self.margin)
    }

    /// `d` after its fields are replaced and its grid recomputed at the
    /// standard line height.
    pub open spec fn recomputed(
        d: ContextDimension,
        width: i64,
        height: i64,
        dimension: SugarDimensions,
        margin: Delta<i64>,
    ) -> ContextDimension {
        ContextDimension {
            width,
            height,
            columns: columns_spec(width as int, dimension, margin) as usize,
            lines: lines_spec(height as int, dimension, 100, margin) as usize,
            dimension,
            margin,
        }
    }

    /// `self` with another width, grid recomputed.
    pub open spec fn with_width(self, width: i64) -> ContextDimension {
        Self::recomputed(self, width, self.height, self.dimension, self.margin)
    }

    /// `self` with another height, grid recomputed.
    pub open spec fn with_height(self, height: i64) -> ContextDimension {
        Self::recomputed(self, self.width, height, self.dimension, self.margin)
    }

    /// `self` with another margin, grid recomputed.
    pub open spec fn with_margin(self, margin: Delta<i64>) -> ContextDimension {
        Self::recomputed(self, self.width, self.height, self.dimension, margin)
    }

    /// A pixel box with its grid; `line_height` is in hundredths of the cell
    /// height (100 is one cell).
    pub fn build(
        width: i64,
        height: i64,
        dimension: SugarDimensions,
        line_height: u32,
        margin: Delta<i64>,
    ) -> (r: Self)
        requires
            dimension.wf(),
            line_height >= 1,
        ensures
            r.wf(),
            r.width == width,
            r.height == height,
            r.dimension == dimension,
            r.margin == margin,
            r.columns == columns_spec(width as int, dimension, margin),
            r.lines == lines_spec(height as int, dimension, line_height as int, margin),
    {
        let (columns, lines) = compute(width, height, dimension, line_height, margin);
        ContextDimension { width, height, columns, lines, dimension, margin }
    }

    /// Sets the width and recomputes the grid.
    pub fn update_width(&mut self, width: i64)
        requires
            old(self).wf(),
        ensures
            *final(self) == old(self).with_width(width),
            final(self).synced(),
    {
        self.width = width;
        self.update();
    }

    /// Sets the height and recomputes the grid.
    pub fn update_height(&mut self, height: i64)
        requires
            old(self).wf(),
        ensures
            *final(self) == old(self).with_height(height),
            final(self).synced(),
    {
        self.height = height;
        self.update();
    }

    /// Sets the margin and recomputes the grid.
    pub fn update_margin(&mut self, margin: Delta<i64>)
        requires
            old(self).wf(),
        ensures
            *final(self) == old(self).with_margin(margin),
            final(self).synced(),
    {
        self.margin = margin;
        self.update();
    }

    /// Sets the cell metrics and recomputes the grid.
    pub fn update_dimensions(&mut self, dimensions: SugarDimensions)
        requires
            old(self).wf(),
            dimensions.wf(),
        ensures
            *final(self) == Self::recomputed(
                *old(self),
                old(self).width,
                old(self).height,
                dimensions,
                old(self).margin,
            ),
            final(self).synced(),
    {
        self.dimension = dimensions;
        self.update();
    }

    fn update(&mut self)
        requires
            old(self).dimension.wf(),
        ensures
            *final(self) == Self::recomputed(
                *old(self),
                old(self).width,
                old(self).height,
                old(self).dimension,
                old(self).margin,
            ),
            final(self).synced(),
    {
        let (columns, lines) = compute(self.width, self.height, self.dimension, 100, self.margin);
        self.columns = columns;
        self.lines = lines;
    }

    pub fn columns(&self) -> (r: usize)
        ensures
            r == self.columns,
    {
        self.columns
    }

    pub fn screen_lines(&self) -> (r: usize)
        ensures
            r == self.lines,
    {
        self.lines
    }

    /// Lines of history and screen together: the screen alone.
    pub fn total_lines(&self) -> (r: usize)
        ensures
            r == self.lines,
    {
        self.screen_lines()
    }

    pub fn square_width(&self) -> (r: u32)
        ensures
            r == self.dimension.width,
    {
        self.dimension.width
    }

    pub fn square_height(&self) -> (r: u32)
        ensures
            r == self.dimension.height,
    {
        self.dimension.height
    }
}

impl Default for ContextDimension {
    /// An empty box with unit metrics: the minimum grid.
    fn default() -> (r: ContextDimension)
        ensures
            r.width == 0 && r.height == 0,
            r.columns == MIN_COLS && r.lines == MIN_LINES,
            r.dimension == (SugarDimensions { scale: 1, width: 1, height: 1 }),
            r.margin == (Delta::<i64> { x: 0, top_y: 0, bottom_y: 0 }),
            r.synced(),
    {
        ContextDimension {
            width: 0,
            height: 0,
            columns: MIN_COLS,
            lines: MIN_LINES,
            dimension: SugarDimensions { scale: 1, width: 1, height: 1 },
            margin: Delta { x: 0, top_y: 0, bottom_y: 0 },
        }
    }
}

} // verus!
