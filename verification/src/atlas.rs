//! The glyph atlas: one square pixel buffer, cut into a grid of equal cells, and
//! the record of which character was given which cell.
//!
//! Packing is additive. A character gets the next free cell on its first
//! encounter and keeps it until the atlas is cleared; cells are handed out in
//! row-major order.

use vstd::prelude::*;

verus! {

/// The value of a pixel on which no glyph was written: distance zero.
pub const NEUTRAL_GRAY: u8 = 128;

/// The largest side of a distance field that the engine handles, in pixels.
pub const MAX_GLYPH_SIDE: usize = 1024;

/// Where a character's distance field lies in the atlas, and how large the
/// glyph and its field are. All values are pixels.
#[derive(Debug, Clone, Copy, PartialEq, Eq, Structural)]
pub struct GlyphInfo {
    pub atlas_x: usize,
    pub atlas_y: usize,
    pub width: usize,
    pub height: usize,
    pub sdf_width: usize,
    pub sdf_height: usize,
}

/// A cached character with its place.
#[derive(Debug, Clone, Copy, PartialEq, Eq, Structural)]
pub struct GlyphEntry {
    pub ch: char,
    pub info: GlyphInfo,
}

/// A quantized distance field, row by row, that waits to be packed.
#[derive(Debug)]
pub struct SdfGlyph {
    pub width: usize,
    pub height: usize,
    pub sdf_width: usize,
    pub sdf_height: usize,
    pub bytes: Vec<u8>,
}

impl SdfGlyph {
    /// There is one byte per pixel of the field, and no side is longer than
    /// `MAX_GLYPH_SIDE`.
    pub open spec fn wf(&self) -> bool {
        &&& self.bytes@.len() == self.sdf_width * self.sdf_height
        &&& self.sdf_width <= MAX_GLYPH_SIDE
        &&& self.sdf_height <= MAX_GLYPH_SIDE
    }
}

/// What packing one glyph came to.
#[derive(Debug, Clone, Copy, PartialEq, Eq, Structural)]
pub enum PackOutcome {
    /// The glyph was written into the next free cell.
    Packed,
    /// The character already has a cell; nothing was written.
    AlreadyCached,
    /// Every cell is taken; the glyph was dropped.
    AtlasFull,
}

/// Pixel `p` of a buffer with rows of `stride` pixels lies in the rectangle of
/// `w` by `h` pixels whose top left corner is `(x0, y0)`.
pub open spec fn in_rect(p: int, stride: int, x0: int, y0: int, w: int, h: int) -> bool {
    stride > 0 && x0 <= p % stride < x0 + w && y0 <= p / stride < y0 + h
}

/// `pixels` after the first `rows` rows of the rectangle, and the first `cols`
/// pixels of the row behind them, were overwritten from `src`, whose rows are
/// `src_w` bytes long.
pub open spec fn blit_partial(
    pixels: Seq<u8>,
    stride: int,
    x0: int,
    y0: int,
    w: int,
    rows: int,
    cols: int,
    src: Seq<u8>,
    src_w: int,
) -> Seq<u8> {
    Seq::new(
        pixels.len(),
        |p: int|
            if in_rect(p, stride, x0, y0, w, rows) || in_rect(p, stride, x0, y0 + rows, cols, 1) {
                src[(p / stride - y0) * src_w + (p % stride - x0)]
            } else {
                pixels[p]
            },
    )
}

/// `pixels` with the rectangle of `w` by `h` pixels at `(x0, y0)` overwritten by
/// the top left `w` by `h` pixels of `src`. Every other pixel keeps its value.
pub open spec fn blit_spec(
    pixels: Seq<u8>,
    stride: int,
    x0: int,
    y0: int,
    w: int,
    h: int,
    src: Seq<u8>,
    src_w: int,
) -> Seq<u8> {
    blit_partial(pixels, stride, x0, y0, w, h, 0, src, src_w)
}

/// The smaller of two lengths.
pub open spec fn min_len(a: int, b: int) -> int {
    if a <= b {
        a
    } else {
        b
    }
}

/// What a `GlyphAtlas` stands for.
pub struct AtlasView {
    /// The side of the square pixel buffer.
    pub atlas_size: int,
    /// The side of one square cell.
    pub cell_size: int,
    /// The pixels, row by row.
    pub pixels: Seq<u8>,
    /// The cached characters; the one at position `i` owns cell `i`.
    pub glyphs: Seq<GlyphEntry>,
}

impl AtlasView {
    /// The number of cells in one row, and of rows.
    pub open spec fn cells_per_row(self) -> int {
        self.atlas_size / self.cell_size
    }

    /// The number of cells.
    pub open spec fn capacity(self) -> int {
        self.cells_per_row() * self.cells_per_row()
    }

    /// The left edge of cell `index`.
    pub open spec fn cell_x(self, index: int) -> int {
        (index % self.cells_per_row()) * self.cell_size
    }

    /// The top edge of cell `index`.
    pub open spec fn cell_y(self, index: int) -> int {
        (index / self.cells_per_row()) * self.cell_size
    }

    /// `ch` has a cell.
    pub open spec fn contains(self, ch: char) -> bool {
        exists|i: int| 0 <= i < self.glyphs.len() && #[trigger] self.glyphs[i].ch == ch
    }

    /// The cell index of `ch`, where it has one.
    pub open spec fn index_of(self, ch: char) -> int {
        choose|i: int| 0 <= i < self.glyphs.len() && #[trigger] self.glyphs[i].ch == ch
    }

    /// The place of `ch`, or `None` where it was never packed.
    pub open spec fn lookup(self, ch: char) -> Option<GlyphInfo> {
        if self.contains(ch) {
            Some(self.glyphs[self.index_of(ch)].info)
        } else {
            None
        }
    }

    /// No cell is left.
    pub open spec fn is_full(self) -> bool {
        self.glyphs.len() >= self.capacity()
    }

    /// The invariant of the atlas: the buffer is square, no more characters are
    /// cached than there are cells, the character at position `i` sits at the
    /// origin of cell `i`, no field is larger than `MAX_GLYPH_SIDE`, and no
    /// character is cached twice.
    pub open spec fn wf(self) -> bool {
        &&& self.cell_size >= 1
        &&& self.atlas_size >= 0
        &&& self.pixels.len() == self.atlas_size * self.atlas_size <= usize::MAX
        &&& self.glyphs.len() <= self.capacity()
        &&& forall|i: int|
            0 <= i < self.glyphs.len() ==> (#[trigger] self.glyphs[i]).info.atlas_x == self.cell_x(i)
                && self.glyphs[i].info.atlas_y == self.cell_y(i) && self.glyphs[i].info.sdf_width
                <= MAX_GLYPH_SIDE && self.glyphs[i].info.sdf_height <= MAX_GLYPH_SIDE
        &&& forall|i: int, j: int|
            0 <= i < j < self.glyphs.len() ==> (#[trigger] self.glyphs[i]).ch != (
            #[trigger] self.glyphs[j]).ch
    }

    /// The entry that packing `glyph` for `ch` appends.
    pub open spec fn next_entry(self, ch: char, glyph: SdfGlyph) -> GlyphEntry {
        GlyphEntry {
            ch,
            info: GlyphInfo {
                atlas_x: self.cell_x(self.glyphs.len() as int) as usize,
                atlas_y: self.cell_y(self.glyphs.len() as int) as usize,
                width: glyph.width,
                height: glyph.height,
                sdf_width: glyph.sdf_width,
                sdf_height: glyph.sdf_height,
            },
        }
    }

    /// The atlas after `glyph` was packed for `ch` into the next free cell. What
    /// of the field does not fit into the cell is cut off.
    pub open spec fn packed(self, ch: char, glyph: SdfGlyph) -> AtlasView {
        let index = self.glyphs.len() as int;
        AtlasView {
            atlas_size: self.atlas_size,
            cell_size: self.cell_size,
            pixels: blit_spec(
                self.pixels,
                self.atlas_size,
                self.cell_x(index),
                self.cell_y(index),
                min_len(glyph.sdf_width as int, self.cell_size),
                min_len(glyph.sdf_height as int, self.cell_size),
                glyph.bytes@,
                glyph.sdf_width as int,
            ),
            glyphs: self.glyphs.push(self.next_entry(ch, glyph)),
        }
    }

    /// The empty atlas of the same shape: every pixel neutral, no character
    /// cached.
    pub open spec fn cleared(self) -> AtlasView {
        AtlasView {
            atlas_size: self.atlas_size,
            cell_size: self.cell_size,
            pixels: Seq::new((self.atlas_size * self.atlas_size) as nat, |p: int| NEUTRAL_GRAY),
            glyphs: Seq::empty(),
        }
    }
}

/// The cells of two rectangles of side `cell` do not share a pixel.
pub open spec fn cells_disjoint(a: GlyphInfo, b: GlyphInfo, cell: int) -> bool {
    ||| a.atlas_x + cell <= b.atlas_x
    ||| b.atlas_x + cell <= a.atlas_x
    ||| a.atlas_y + cell <= b.atlas_y
    ||| b.atlas_y + cell <= a.atlas_y
}

/// Column and row of a cell lie inside the grid, and the cell inside the atlas.
pub proof fn lemma_cell_in_atlas(atlas_size: int, cell_size: int, index: int)
    requires
        cell_size >= 1,
        atlas_size >= 0,
        0 <= index < (atlas_size / cell_size) * (atlas_size / cell_size),
    ensures
        0 <= index % (atlas_size / cell_size) < atlas_size / cell_size,
        0 <= index / (atlas_size / cell_size) < atlas_size / cell_size,
        0 <= (index % (atlas_size / cell_size)) * cell_size,
        0 <= (index / (atlas_size / cell_size)) * cell_size,
        (index % (atlas_size / cell_size)) * cell_size + cell_size <= atlas_size,
        (index / (atlas_size / cell_size)) * cell_size + cell_size <= atlas_size,
{
    let per_row = atlas_size / cell_size;
    assert(per_row >= 0) by (nonlinear_arith)
        requires
            per_row == atlas_size / cell_size,
            atlas_size >= 0,
            cell_size >= 1,
    ;
    assert(per_row >= 1) by (nonlinear_arith)
        requires
            per_row >= 0,
            0 <= index < per_row * per_row,
    ;
    let col = index % per_row;
    let row = index / per_row;
    vstd::arithmetic::div_mod::lemma_fundamental_div_mod(index, per_row);
    assert(0 <= col < per_row);
    assert(0 <= row < per_row) by (nonlinear_arith)
        requires
            index == per_row * row + col,
            0 <= col < per_row,
            0 <= index < per_row * per_row,
            per_row >= 1,
    ;
    assert(per_row * cell_size <= atlas_size) by {
        vstd::arithmetic::div_mod::lemma_fundamental_div_mod(atlas_size, cell_size);
        vstd::arithmetic::div_mod::lemma_mod_bound(atlas_size, cell_size);
        assert(per_row * cell_size == cell_size * per_row) by (nonlinear_arith);
    }
    assert(col * cell_size + cell_size <= per_row * cell_size && 0 <= col * cell_size)
        by (nonlinear_arith)
        requires
            0 <= col < per_row,
            cell_size >= 1,
    ;
    assert(row * cell_size + cell_size <= per_row * cell_size && 0 <= row * cell_size)
        by (nonlinear_arith)
        requires
            0 <= row < per_row,
            cell_size >= 1,
    ;
}

/// Two different cells of the grid do not overlap.
pub proof fn lemma_grid_cells_disjoint(atlas_size: int, cell_size: int, i: int, j: int)
    requires
        cell_size >= 1,
        atlas_size >= 0,
        0 <= i < j < (atlas_size / cell_size) * (atlas_size / cell_size),
    ensures
        ({
            let per_row = atlas_size / cell_size;
            ||| (i % per_row) * cell_size + cell_size <= (j % per_row) * cell_size
            ||| (j % per_row) * cell_size + cell_size <= (i % per_row) * cell_size
            ||| (i / per_row) * cell_size + cell_size <= (j / per_row) * cell_size
            ||| (j / per_row) * cell_size + cell_size <= (i / per_row) * cell_size
        }),
{
    let per_row = atlas_size / cell_size;
    lemma_cell_in_atlas(atlas_size, cell_size, i);
    lemma_cell_in_atlas(atlas_size, cell_size, j);
    vstd::arithmetic::div_mod::lemma_fundamental_div_mod(i, per_row);
    vstd::arithmetic::div_mod::lemma_fundamental_div_mod(j, per_row);
    let (ci, ri, cj, rj) = (i % per_row, i / per_row, j % per_row, j / per_row);
    if ri == rj {
        assert(ci != cj);
        if ci < cj {
            assert(ci * cell_size + cell_size <= cj * cell_size) by (nonlinear_arith)
                requires
                    ci < cj,
                    cell_size >= 1,
            ;
        } else {
            assert(cj * cell_size + cell_size <= ci * cell_size) by (nonlinear_arith)
                requires
                    cj < ci,
                    cell_size >= 1,
            ;
        }
    } else if ri < rj {
        assert(ri * cell_size + cell_size <= rj * cell_size) by (nonlinear_arith)
            requires
                ri < rj,
                cell_size >= 1,
        ;
    } else {
        assert(rj * cell_size + cell_size <= ri * cell_size) by (nonlinear_arith)
            requires
                rj < ri,
                cell_size >= 1,
        ;
    }
}

/// Packing never lets two characters share atlas space: the cells of any two
/// different cached characters are disjoint, and each lies inside the atlas.
pub proof fn lemma_cached_cells_disjoint(atlas: AtlasView, a: char, b: char)
    requires
        atlas.wf(),
        atlas.contains(a),
        atlas.contains(b),
        a != b,
    ensures
        cells_disjoint(atlas.lookup(a).unwrap(), atlas.lookup(b).unwrap(), atlas.cell_size),
        atlas.lookup(a).unwrap().atlas_x + atlas.cell_size <= atlas.atlas_size,
        atlas.lookup(a).unwrap().atlas_y + atlas.cell_size <= atlas.atlas_size,
{
    let i = atlas.index_of(a);
    let j = atlas.index_of(b);
    assert(atlas.glyphs[i].ch == a && atlas.glyphs[j].ch == b);
    lemma_cell_in_atlas(atlas.atlas_size, atlas.cell_size, i);
    if i < j {
        lemma_grid_cells_disjoint(atlas.atlas_size, atlas.cell_size, i, j);
    } else {
        lemma_grid_cells_disjoint(atlas.atlas_size, atlas.cell_size, j, i);
    }
}

/// A character's place does not depend on which of its positions is asked for:
/// in a well-formed atlas it has only one.
pub proof fn lemma_lookup_at(atlas: AtlasView, i: int)
    requires
        atlas.wf(),
        0 <= i < atlas.glyphs.len(),
    ensures
        atlas.contains(atlas.glyphs[i].ch),
        atlas.index_of(atlas.glyphs[i].ch) == i,
        atlas.lookup(atlas.glyphs[i].ch) == Some(atlas.glyphs[i].info),
{
    let ch = atlas.glyphs[i].ch;
    let j = atlas.index_of(ch);
    assert(atlas.glyphs[j].ch == ch);
    if j < i {
        assert(atlas.glyphs[j].ch != atlas.glyphs[i].ch);
    } else if i < j {
        assert(atlas.glyphs[i].ch != atlas.glyphs[j].ch);
    }
}

/// Writing pixel `(x0 + cols, y0 + rows)` is the next step of a blit.
proof fn lemma_blit_step(
    pixels: Seq<u8>,
    stride: int,
    x0: int,
    y0: int,
    w: int,
    rows: int,
    cols: int,
    src: Seq<u8>,
    src_w: int,
)
    requires
        0 <= x0,
        0 <= y0,
        0 <= rows,
        0 <= cols < w,
        x0 + w <= stride,
        (y0 + rows) * stride + x0 + cols < pixels.len(),
    ensures
        blit_partial(pixels, stride, x0, y0, w, rows, cols, src, src_w).update(
            (y0 + rows) * stride + x0 + cols,
            src[rows * src_w + cols],
        ) == blit_partial(pixels, stride, x0, y0, w, rows, cols + 1, src, src_w),
{
    let at = (y0 + rows) * stride + x0 + cols;
    let before = blit_partial(pixels, stride, x0, y0, w, rows, cols, src, src_w);
    let after = blit_partial(pixels, stride, x0, y0, w, rows, cols + 1, src, src_w);
    vstd::arithmetic::div_mod::lemma_fundamental_div_mod_converse(
        at,
        stride,
        y0 + rows,
        x0 + cols,
    );
    assert forall|p: int| 0 <= p < pixels.len() implies before.update(at, src[rows * src_w + cols])[p]
        == after[p] by {
        vstd::arithmetic::div_mod::lemma_fundamental_div_mod(p, stride);
        if p != at {
            assert(!(p / stride == y0 + rows && p % stride == x0 + cols)) by (nonlinear_arith)
                requires
                    p == stride * (p / stride) + p % stride,
                    at == (y0 + rows) * stride + x0 + cols,
                    p != at,
            ;
        }
    }
    assert(before.update(at, src[rows * src_w + cols]) =~= after);
}

/// A finished row is the start of the next one.
proof fn lemma_blit_row_done(
    pixels: Seq<u8>,
    stride: int,
    x0: int,
    y0: int,
    w: int,
    rows: int,
    src: Seq<u8>,
    src_w: int,
)
    requires
        rows >= 0,
    ensures
        blit_partial(pixels, stride, x0, y0, w, rows, w, src, src_w) == blit_partial(
            pixels,
            stride,
            x0,
            y0,
            w,
            rows + 1,
            0,
            src,
            src_w,
        ),
        blit_partial(pixels, stride, x0, y0, w, 0, 0, src, src_w) == pixels,
{
    assert(blit_partial(pixels, stride, x0, y0, w, rows, w, src, src_w) =~= blit_partial(
        pixels,
        stride,
        x0,
        y0,
        w,
        rows + 1,
        0,
        src,
        src_w,
    ));
    assert(blit_partial(pixels, stride, x0, y0, w, 0, 0, src, src_w) =~= pixels);
}

/// Overwrites the rectangle of `w` by `h` pixels at `(x0, y0)` with the top left
/// `w` by `h` pixels of `src`.
fn blit(
    pixels: &mut Vec<u8>,
    stride: usize,
    x0: usize,
    y0: usize,
    w: usize,
    h: usize,
    src: &Vec<u8>,
    src_w: usize,
)
    requires
        x0 + w <= stride,
        y0 + h <= usize::MAX,
        (y0 + h) * stride <= old(pixels)@.len(),
        w <= src_w,
        h * src_w <= src@.len(),
    ensures
        final(pixels)@ == blit_spec(
            old(pixels)@,
            stride as int,
            x0 as int,
            y0 as int,
            w as int,
            h as int,
            src@,
            src_w as int,
        ),
{
    let ghost start = pixels@;
    let total = pixels.len();
    let available = src.len();
    proof {
        lemma_blit_row_done(start, stride as int, x0 as int, y0 as int, w as int, 0, src@, src_w as int);
    }
    let mut y: usize = 0;
    while y < h
        invariant
            0 <= y <= h,
            x0 + w <= stride,
            y0 + h <= usize::MAX,
            (y0 + h) * stride <= start.len() == total,
            w <= src_w,
            h * src_w <= src@.len() == available,
            pixels@.len() == start.len(),
            pixels@ == blit_partial(
                start,
                stride as int,
                x0 as int,
                y0 as int,
                w as int,
                y as int,
                0,
                src@,
                src_w as int,
            ),
        decreases h - y,
    {
        assert((y0 + y) * stride + stride <= (y0 + h) * stride && y * src_w + src_w <= h * src_w
            && 0 <= (y0 + y) * stride && 0 <= y * src_w) by (nonlinear_arith)
            requires
                0 <= y < h,
                0 <= y0,
                0 <= stride,
                0 <= src_w,
        ;
        let row_start: usize = (y0 + y) * stride + x0;
        let src_start: usize = y * src_w;
        let mut x: usize = 0;
        while x < w
            invariant
                0 <= x <= w,
                0 <= y < h,
                x0 + w <= stride,
                w <= src_w,
                row_start == (y0 + y) * stride + x0,
                src_start == y * src_w,
                row_start + w <= start.len() == total,
                src_start + w <= src@.len() == available,
                pixels@.len() == start.len(),
                pixels@ == blit_partial(
                    start,
                    stride as int,
                    x0 as int,
                    y0 as int,
                    w as int,
                    y as int,
                    x as int,
                    src@,
                    src_w as int,
                ),
            decreases w - x,
        {
            proof {
                lemma_blit_step(
                    start,
                    stride as int,
                    x0 as int,
                    y0 as int,
                    w as int,
                    y as int,
                    x as int,
                    src@,
                    src_w as int,
                );
            }
            pixels.set(row_start + x, src[src_start + x]);
            x += 1;
        }
        proof {
            lemma_blit_row_done(
                start,
                stride as int,
                x0 as int,
                y0 as int,
                w as int,
                y as int,
                src@,
                src_w as int,
            );
        }
        y += 1;
    }
}

/// The glyph atlas: a square buffer of one byte per pixel and the characters
/// that were packed into it.
pub struct GlyphAtlas {
    atlas_size: usize,
    cell_size: usize,
    pixels: Vec<u8>,
    entries: Vec<GlyphEntry>,
}

impl View for GlyphAtlas {
    type V = AtlasView;

    closed spec fn view(&self) -> AtlasView {
        AtlasView {
            atlas_size: self.atlas_size as int,
            cell_size: self.cell_size as int,
            pixels: self.pixels@,
            glyphs: self.entries@,
        }
    }
}

impl GlyphAtlas {
    /// The atlas meets its invariant.
    pub open spec fn wf(&self) -> bool {
        self@.wf()
    }

    /// An empty atlas of `atlas_size` by `atlas_size` pixels with square cells
    /// of side `cell_size`. Every pixel is neutral.
    pub fn new(atlas_size: usize, cell_size: usize) -> (atlas: GlyphAtlas)
        requires
            cell_size >= 1,
            atlas_size * atlas_size <= usize::MAX,
        ensures
            atlas.wf(),
            atlas@.atlas_size == atlas_size,
            atlas@.cell_size == cell_size,
            atlas@ == atlas@.cleared(),
    {
        let pixels = vec![NEUTRAL_GRAY; atlas_size * atlas_size];
        let atlas = GlyphAtlas { atlas_size, cell_size, pixels, entries: Vec::new() };
        proof {
            assert(atlas@.pixels =~= atlas@.cleared().pixels);
            assert(atlas@.glyphs =~= atlas@.cleared().glyphs);
            assert(0 <= atlas@.capacity()) by (nonlinear_arith)
                requires
                    atlas@.capacity() == atlas@.cells_per_row() * atlas@.cells_per_row(),
            ;
        }
        atlas
    }

    /// Forgets every character and resets every pixel to neutral. Called when
    /// the font or its size changes.
    pub fn clear(&mut self)
        requires
            old(self).wf(),
        ensures
            final(self).wf(),
            final(self)@ == old(self)@.cleared(),
    {
        let total = self.pixels.len();
        self.pixels = vec![NEUTRAL_GRAY; total];
        self.entries = Vec::new();
        proof {
            assert(self@.pixels =~= old(self)@.cleared().pixels);
            assert(self@.glyphs =~= old(self)@.cleared().glyphs);
            assert(0 <= self@.capacity()) by (nonlinear_arith)
                requires
                    self@.capacity() == self@.cells_per_row() * self@.cells_per_row(),
            ;
        }
    }

    /// The side of the pixel buffer.
    pub fn atlas_size(&self) -> (size: usize)
        ensures
            size == self@.atlas_size,
    {
        self.atlas_size
    }

    /// The side of one cell.
    pub fn cell_size(&self) -> (size: usize)
        ensures
            size == self@.cell_size,
    {
        self.cell_size
    }

    /// The pixels, row by row, as they are uploaded.
    pub fn pixels(&self) -> (pixels: &Vec<u8>)
        ensures
            pixels@ == self@.pixels,
    {
        &self.pixels
    }

    /// The cached characters with their places; the one at position `i` owns
    /// cell `i`.
    pub fn entries(&self) -> (entries: &Vec<GlyphEntry>)
        ensures
            entries@ == self@.glyphs,
    {
        &self.entries
    }

    /// The number of cached characters.
    pub fn len(&self) -> (len: usize)
        ensures
            len == self@.glyphs.len(),
    {
        self.entries.len()
    }

    /// The number of cells.
    pub fn capacity(&self) -> (capacity: usize)
        requires
            self.wf(),
        ensures
            capacity == self@.capacity(),
    {
        let per_row = self.atlas_size / self.cell_size;
        proof {
            assert(per_row * per_row <= self.atlas_size * self.atlas_size) by (nonlinear_arith)
                requires
                    0 <= per_row <= self.atlas_size,
            ;
        }
        per_row * per_row
    }

    /// The cell index of `ch`, or `None` where it has no cell.
    pub fn find(&self, ch: char) -> (found: Option<usize>)
        requires
            self.wf(),
        ensures
            found is Some == self@.contains(ch),
            found matches Some(i) ==> i == self@.index_of(ch) && i < self@.glyphs.len()
                && self@.glyphs[i as int].ch == ch,
    {
        let mut i: usize = 0;
        while i < self.entries.len()
            invariant
                self.wf(),
                0 <= i <= self.entries@.len(),
                forall|k: int| 0 <= k < i ==> (#[trigger] self.entries@[k]).ch != ch,
            decreases self.entries@.len() - i,
        {
            if self.entries[i].ch == ch {
                proof {
                    lemma_lookup_at(self@, i as int);
                }
                return Some(i);
            }
            i += 1;
        }
        None
    }

    /// Whether `ch` has a cell.
    pub fn contains(&self, ch: char) -> (cached: bool)
        requires
            self.wf(),
        ensures
            cached == self@.contains(ch),
    {
        self.find(ch).is_some()
    }

    /// The place of `ch`, or `None` where it was never packed.
    pub fn lookup(&self, ch: char) -> (info: Option<GlyphInfo>)
        requires
            self.wf(),
        ensures
            info == self@.lookup(ch),
    {
        match self.find(ch) {
            Some(i) => Some(self.entries[i].info),
            None => None,
        }
    }

    /// Whether every cell is taken.
    pub fn is_full(&self) -> (full: bool)
        requires
            self.wf(),
        ensures
            full == self@.is_full(),
    {
        self.entries.len() >= self.capacity()
    }

    /// Packs the distance field of `ch` into the next free cell, in row-major
    /// order, and records its place. A character that has a cell keeps it, and
    /// when no cell is left the glyph is dropped: in both cases the atlas is
    /// left as it was.
    pub fn pack_glyph(&mut self, ch: char, glyph: &SdfGlyph) -> (outcome: PackOutcome)
        requires
            old(self).wf(),
            glyph.wf(),
        ensures
            final(self).wf(),
            outcome == if old(self)@.contains(ch) {
                PackOutcome::AlreadyCached
            } else if old(self)@.is_full() {
                PackOutcome::AtlasFull
            } else {
                PackOutcome::Packed
            },
            outcome == PackOutcome::Packed ==> final(self)@ == old(self)@.packed(ch, *glyph),
            outcome != PackOutcome::Packed ==> final(self)@ == old(self)@,
    {
        if self.contains(ch) {
            return PackOutcome::AlreadyCached;
        }
        if self.is_full() {
            return PackOutcome::AtlasFull;
        }
        let index = self.entries.len();
        let per_row = self.atlas_size / self.cell_size;
        proof {
            lemma_cell_in_atlas(self.atlas_size as int, self.cell_size as int, index as int);
        }
        let x0 = (index % per_row) * self.cell_size;
        let y0 = (index / per_row) * self.cell_size;
        let copy_w = if glyph.sdf_width <= self.cell_size {
            glyph.sdf_width
        } else {
            self.cell_size
        };
        let copy_h = if glyph.sdf_height <= self.cell_size {
            glyph.sdf_height
        } else {
            self.cell_size
        };
        proof {
            assert((y0 + copy_h) * self.atlas_size <= self.atlas_size * self.atlas_size)
                by (nonlinear_arith)
                requires
                    0 <= y0 + copy_h <= self.atlas_size,
            ;
            assert(copy_h * glyph.sdf_width <= glyph.sdf_width * glyph.sdf_height)
                by (nonlinear_arith)
                requires
                    0 <= copy_h <= glyph.sdf_height,
                    0 <= glyph.sdf_width,
            ;
        }
        blit(
            &mut self.pixels,
            self.atlas_size,
            x0,
            y0,
            copy_w,
            copy_h,
            &glyph.bytes,
            glyph.sdf_width,
        );
        self.entries.push(
            GlyphEntry {
                ch,
                info: GlyphInfo {
                    atlas_x: x0,
                    atlas_y: y0,
                    width: glyph.width,
                    height: glyph.height,
                    sdf_width: glyph.sdf_width,
                    sdf_height: glyph.sdf_height,
                },
            },
        );
        proof {
            let before = old(self)@;
            assert(self@.glyphs =~= before.packed(ch, *glyph).glyphs);
            assert forall|i: int, j: int| 0 <= i < j < self@.glyphs.len() implies (
            #[trigger] self@.glyphs[i]).ch != (#[trigger] self@.glyphs[j]).ch by {
                if j == index {
                    assert(before.glyphs[i].ch != ch);
                } else {
                    assert(before.glyphs[i].ch != before.glyphs[j].ch);
                }
            }
        }
        PackOutcome::Packed
    }
}

} // verus!
