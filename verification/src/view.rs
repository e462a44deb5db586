//! A 2D grid for simple terminal graphics.
//!
//! [`View`] is a fixed-size rectangular buffer of boolean cells plus two
//! display symbols. Cells are stored in one flat vector of exactly
//! `width * height` entries, and a coordinate `(x, y)` is in bounds iff
//! `x < width && y < height`.
//!
//! The mapping from a coordinate to a position in the flat buffer is
//! `y * height + x` — note `height`, not the conventional `width`. For
//! non-square grids this makes some in-bounds coordinates alias one buffer
//! cell (when `width > height`) or fall outside the buffer altogether (when
//! `width < height`), and the traversal of [`View::iter`] then ends early.
//! Callers depend on this exact mapping, defects included, so every contract
//! below states it literally; `View::index_in_range` says when a coordinate
//! escapes the aliasing-free path.

use vstd::prelude::*;
use vstd::view::View as _;

verus! {

/// Relies on `String::push`: it appends the given character to the end of
/// the string.
pub assume_specification[ String::push ](s: &mut String, ch: char)
    ensures
        final(s)@ == old(s)@.push(ch),
;

/// A fixed-size 2D grid of boolean cells with two display symbols.
#[derive(PartialEq, Eq, Clone, Debug)]
pub struct View {
    pub width: u16,
    pub height: u16,
    pub symbol_off: char,
    pub symbol_on: char,
    /// The flat cell store; mutate it only through [`View::set`], which
    /// keeps [`View::wf`] intact.
    pub buffer: Vec<bool>,
}

impl View {
    /// The flat cell buffer, as a mathematical sequence.
    pub open spec fn cells(self) -> Seq<bool> {
        self.buffer@
    }

    /// Well-formedness: the buffer holds exactly `width * height` cells, and
    /// that product is small enough for the 16-bit index arithmetic used
    /// throughout. Every constructor establishes this and every method
    /// preserves it.
    pub open spec fn wf(self) -> bool {
        &&& self.cells().len() == self.width * self.height
        &&& self.width * self.height <= u16::MAX
    }

    /// The bounds-check rule: `(x, y)` addresses a valid cell iff
    /// `x < width && y < height`.
    pub open spec fn in_bounds(self, x: u16, y: u16) -> bool {
        x < self.width && y < self.height
    }

    /// The position in the flat buffer that `(x, y)` maps to. The grid
    /// uses `y * height + x` — reproduced literally from the stored layout,
    /// including its failure modes on non-square grids.
    pub open spec fn idx_of(self, x: u16, y: u16) -> int {
        y * self.height + x
    }

    /// Whether the coordinate's buffer position actually falls inside the
    /// buffer. On a grid with `width >= height` this holds for every
    /// in-bounds coordinate; with `width < height` some in-bounds
    /// coordinates map past the end of the buffer, and reading or writing
    /// them is a fatal error.
    pub open spec fn index_in_range(self, x: u16, y: u16) -> bool {
        self.in_bounds(x, y) ==> self.idx_of(x, y) < self.width * self.height
    }

    /// The value a checked read of `(x, y)` observes: the mapped buffer
    /// cell when the coordinate is in bounds, absent otherwise.
    pub open spec fn cell(self, x: u16, y: u16) -> Option<bool> {
        if self.in_bounds(x, y) {
            Some(self.cells()[self.idx_of(x, y)])
        } else {
            None
        }
    }
}

impl View {
    /// Create a `width` by `height` grid with every cell false and the
    /// default display symbols (`░` for off, `█` for on).
    ///
    /// Zero width or height yields an empty grid. The cell buffer is
    /// allocated with 16-bit arithmetic, so the product of the dimensions
    /// must be representable.
    pub fn new(width: u16, height: u16) -> (g: View)
        requires
            width * height <= u16::MAX,
        ensures
            g.width == width,
            g.height == height,
            g.symbol_off == '░',
            g.symbol_on == '█',
            g.cells().len() == width * height,
            forall|i: int| 0 <= i < g.cells().len() ==> g.cells()[i] == false,
            g.wf(),
    {
        let buf_size = (width * height) as usize;
        let mut buffer: Vec<bool> = Vec::new();
        let mut i: usize = 0;
        while i < buf_size
            invariant
                i <= buf_size,
                buffer@.len() == i,
                forall|j: int| 0 <= j < i ==> buffer@[j] == false,
            decreases buf_size - i,
        {
            buffer.push(false);
            i = i + 1;
        }

        View { width, height, buffer, symbol_off: '░', symbol_on: '█' }
    }

    /// Set the characters to print for a coordinate's value, returning the
    /// grid for chaining.
    ///
    /// Defaults are `off` = `░`, `on` = `█`.
    pub fn set_symbols(self, off: char, on: char) -> (g: View)
        ensures
            g.width == self.width,
            g.height == self.height,
            g.cells() == self.cells(),
            g.symbol_off == off,
            g.symbol_on == on,
    {
        let mut g = self;
        g.symbol_off = off;
        g.symbol_on = on;
        g
    }

    /// Dimensions as a (width, height) tuple.
    pub fn dimensions(&self) -> (d: (u16, u16))
        ensures
            d.0 == self.width,
            d.1 == self.height,
    {
        (self.width, self.height)
    }
}

impl View {
    #[inline(always)]
    fn index(&self, x: u16, y: u16) -> (i: usize)
        requires
            y * self.height + x <= u16::MAX,
        ensures
            i == self.idx_of(x, y),
    {
        (y * self.height + x) as usize
    }

    #[inline(always)]
    fn bounds_check(&self, x: u16, y: u16) -> (b: bool)
        ensures
            b == self.in_bounds(x, y),
    {
        return x < self.width && y < self.height;
    }

    fn checked_index(&self, x: u16, y: u16) -> (r: Option<usize>)
        requires
            self.in_bounds(x, y) ==> self.idx_of(x, y) <= u16::MAX,
        ensures
            self.in_bounds(x, y) ==> r == Some(self.idx_of(x, y) as usize),
            !self.in_bounds(x, y) ==> r is None,
    {
        if self.bounds_check(x, y) {
            Some(self.index(x, y))
        } else {
            None
        }
    }
}

impl View {
    /// Returns the value at the given coordinate while checking if valid:
    /// the stored cell when `(x, y)` is in bounds, `None` otherwise.
    ///
    /// This is the primary safe read path. The coordinate's mapped buffer
    /// position must not fall past the end of the buffer (which only a
    /// grid with `width < height` can make happen).
    pub fn at(&self, x: u16, y: u16) -> (r: Option<bool>)
        requires
            self.wf(),
            self.index_in_range(x, y),
        ensures
            r == self.cell(x, y),
    {
        match self.checked_index(x, y) {
            Some(idx) => Some(self.buffer[idx]),
            None => None,
        }
    }

    /// Returns the value at the given coordinate, which must be inside the
    /// grid; an out-of-bounds coordinate is a fatal, unrecoverable error,
    /// so callers must have established the bound already.
    #[inline(always)]
    pub fn unchecked_at(&self, x: u16, y: u16) -> (r: bool)
        requires
            self.wf(),
            self.in_bounds(x, y),
            self.index_in_range(x, y),
        ensures
            Some(r) == self.cell(x, y),
    {
        self.at(x, y).unwrap()
    }

    /// Set the value at a coordinate.
    ///
    /// Returns whether it was successful or not, i.e. the coordinate was
    /// within bounds; nothing is written otherwise.
    pub fn set(&mut self, x: u16, y: u16, value: bool) -> (ok: bool)
        requires
            old(self).wf(),
            old(self).index_in_range(x, y),
        ensures
            ok == old(self).in_bounds(x, y),
            final(self).width == old(self).width,
            final(self).height == old(self).height,
            final(self).symbol_off == old(self).symbol_off,
            final(self).symbol_on == old(self).symbol_on,
            ok ==> final(self).cells() == old(self).cells().update(old(self).idx_of(x, y), value),
            !ok ==> *final(self) == *old(self),
            final(self).wf(),
    {
        match self.checked_index(x, y) {
            Some(idx) => {
                self.buffer[idx] = value;
                true
            },
            None => false,
        }
    }
}

impl View {
    /// What one step of a traversal standing at `(x, y)` yields: the
    /// coordinate and its cell while the coordinate is in bounds and its
    /// buffer position exists, and nothing once either fails — which is
    /// where a traversal ends.
    pub open spec fn iter_item(self, x: u16, y: u16) -> Option<(u16, u16, bool)> {
        if self.in_bounds(x, y) && self.idx_of(x, y) < self.cells().len() {
            Some((x, y, self.cells()[self.idx_of(x, y)]))
        } else {
            None
        }
    }

    /// The sequence of `(x, y, value)` triples a traversal starting at
    /// `(x, y)` yields: row-major with `x` varying fastest, ending at the
    /// first coordinate that is out of bounds or whose buffer position
    /// falls past the end of the buffer (the latter happens to an in-bounds
    /// coordinate only when `width < height`).
    pub open spec fn trav_from(self, x: int, y: int) -> Seq<(u16, u16, bool)>
        decreases self.height - y, self.width - x,
    {
        if 0 <= x < self.width && 0 <= y < self.height && y * self.height + x < self.cells().len() {
            let item = (x as u16, y as u16, self.cells()[y * self.height + x]);
            if x + 1 == self.width {
                seq![item] + self.trav_from(0, y + 1)
            } else {
                seq![item] + self.trav_from(x + 1, y)
            }
        } else {
            Seq::empty()
        }
    }

    /// Everything one full traversal of the grid yields, starting at (0, 0).
    /// Each call of [`View::iter`] starts a fresh traversal of exactly this
    /// sequence, so two traversals with no mutation between them are
    /// identical.
    pub open spec fn iter_seq(self) -> Seq<(u16, u16, bool)> {
        self.trav_from(0, 0)
    }

    /// The states a traversal can stand in: (0, 0) and every successor of a
    /// yielding step. Within them the 16-bit arithmetic of
    /// [`ViewIter::next`] cannot overflow.
    pub open spec fn iter_inv(self, x: u16, y: u16) -> bool {
        &&& x == 0 || x < self.width
        &&& y <= self.height
        &&& y * self.height + x <= self.width * self.height
    }

    /// Iterate over the grid with coordinates; the items resemble
    /// `(x, y, value)`. Every call starts a fresh traversal at (0, 0).
    pub fn iter<'v>(&'v self) -> (it: ViewIter<'v>)
        ensures
            it.view == self,
            it.x == 0,
            it.y == 0,
    {
        ViewIter { view: self, x: 0, y: 0 }
    }

    /// Collect one full traversal into a vector: exactly the triples of
    /// [`View::iter_seq`], in traversal order.
    pub fn triples(&self) -> (ts: Vec<(u16, u16, bool)>)
        requires
            self.wf(),
        ensures
            ts@ == self.iter_seq(),
    {
        let mut it = self.iter();
        let mut ts: Vec<(u16, u16, bool)> = Vec::new();
        loop
            invariant_except_break
                self.wf(),
                it.view == self,
                self.iter_inv(it.x, it.y),
                ts@ + self.trav_from(it.x as int, it.y as int) == self.iter_seq(),
            ensures
                ts@ == self.iter_seq(),
            decreases self.trav_from(it.x as int, it.y as int).len(),
        {
            let ghost prev = it;
            proof {
                lemma_inv_allows_step(*self, prev.x, prev.y);
            }
            match it.next() {
                Some(t) => {
                    ts.push(t);
                    proof {
                        lemma_step_preserves_inv(*self, prev.x, prev.y);
                        assert(ts@ + self.trav_from(it.x as int, it.y as int)
                            =~= self.iter_seq());
                    }
                },
                None => {
                    proof {
                        assert(ts@ =~= self.iter_seq());
                    }
                    break;
                },
            }
        }
        ts
    }
}

/// Within the traversal-state invariant the coordinate arithmetic of
/// [`ViewIter::next`] stays inside `u16`.
proof fn lemma_inv_allows_step(g: View, x: u16, y: u16)
    requires
        g.wf(),
        g.iter_inv(x, y),
    ensures
        x < u16::MAX,
        x + 1 == g.width ==> y < u16::MAX,
        g.in_bounds(x, y) ==> g.idx_of(x, y) <= u16::MAX,
{
    let w = g.width as int;
    let h = g.height as int;
    if x + 1 == g.width && y == u16::MAX {
        assert(false) by (nonlinear_arith)
            requires
                y as int * h + x <= w * h,
                w * h <= u16::MAX as int,
                y as int <= h,
                y == u16::MAX as int,
                x == w - 1,
                0 <= x,
        ;
    }
}

/// After a yielding step at `(x, y)` the advanced traversal state satisfies
/// the invariant again.
proof fn lemma_step_preserves_inv(g: View, x: u16, y: u16)
    requires
        g.wf(),
        g.iter_inv(x, y),
        g.in_bounds(x, y),
        g.idx_of(x, y) < g.cells().len(),
    ensures
        x + 1 == g.width ==> g.iter_inv(0, (y + 1) as u16),
        x + 1 != g.width ==> g.iter_inv((x + 1) as u16, y),
{
    let w = g.width as int;
    let h = g.height as int;
    assert(y * h + x < w * h);
    if x + 1 == g.width {
        assert((y + 1) * h <= w * h) by (nonlinear_arith)
            requires
                y as int * h + x < w * h,
                x == w - 1,
                0 <= y as int,
                0 < h,
                0 < w,
        ;
    }
}

impl View {
    /// The text a rendering pass standing at `(x, y)` still produces: the
    /// display symbol of each remaining traversed cell, with a line break
    /// right after the character of the last column of each row.
    pub open spec fn render_from(self, x: int, y: int) -> Seq<char>
        decreases self.height - y, self.width - x,
    {
        if 0 <= x < self.width && 0 <= y < self.height && y * self.height + x < self.cells().len() {
            let sym = if self.cells()[y * self.height + x] {
                self.symbol_on
            } else {
                self.symbol_off
            };
            if x + 1 == self.width {
                seq![sym, '\n'] + self.render_from(0, y + 1)
            } else {
                seq![sym] + self.render_from(x + 1, y)
            }
        } else {
            Seq::empty()
        }
    }

    /// The full textual form of the grid: every traversed cell as its
    /// display symbol, a line break after each complete row, the final row
    /// included.
    pub open spec fn rendered(self) -> Seq<char> {
        self.render_from(0, 0)
    }

    /// The display symbol of the cell that `(x, y)` maps to.
    pub open spec fn symbol_of(self, x: u16, y: u16) -> char {
        if self.cells()[self.idx_of(x, y)] {
            self.symbol_on
        } else {
            self.symbol_off
        }
    }

    /// Produce the textual form of the grid: `symbol_on` or `symbol_off`
    /// for each cell, with a line break after the last column of each row,
    /// the final row included.
    pub fn render(&self) -> (s: String)
        requires
            self.wf(),
        ensures
            s@ == self.rendered(),
    {
        let mut s = String::new();
        let mut it = self.iter();
        loop
            invariant_except_break
                self.wf(),
                it.view == self,
                self.iter_inv(it.x, it.y),
                s@ + self.render_from(it.x as int, it.y as int) == self.rendered(),
            ensures
                s@ == self.rendered(),
            decreases self.trav_from(it.x as int, it.y as int).len(),
        {
            let ghost prev = it;
            proof {
                lemma_inv_allows_step(*self, prev.x, prev.y);
            }
            match it.next() {
                Some(t) => {
                    s.push(if t.2 { self.symbol_on } else { self.symbol_off });
                    if t.0 == self.width - 1 {
                        s.push('\n');
                    }
                    proof {
                        lemma_step_preserves_inv(*self, prev.x, prev.y);
                        assert(s@ + self.render_from(it.x as int, it.y as int)
                            =~= self.rendered());
                    }
                },
                None => {
                    proof {
                        assert(s@ =~= self.rendered());
                    }
                    break;
                },
            }
        }
        s
    }
}

/// Iterate over a complete View.
pub struct ViewIter<'v> {
    pub view: &'v View,
    pub x: u16,
    pub y: u16,
}

impl<'v> ViewIter<'v> {
    /// One step of the traversal: yield the item at the current coordinate
    /// (absent as soon as the coordinate is out of bounds or maps past the
    /// end of the buffer), then advance row-major, `x` first.
    pub fn next(&mut self) -> (r: Option<(u16, u16, bool)>)
        requires
            old(self).view.wf(),
            old(self).x < u16::MAX,
            old(self).x + 1 == old(self).view.width ==> old(self).y < u16::MAX,
            old(self).view.in_bounds(old(self).x, old(self).y)
                ==> old(self).view.idx_of(old(self).x, old(self).y) <= u16::MAX,
        ensures
            final(self).view == old(self).view,
            r == old(self).view.iter_item(old(self).x, old(self).y),
            old(self).x + 1 == old(self).view.width
                ==> final(self).x == 0 && final(self).y == old(self).y + 1,
            old(self).x + 1 != old(self).view.width
                ==> final(self).x == old(self).x + 1 && final(self).y == old(self).y,
    {
        let val = match self.view.checked_index(self.x, self.y) {
            Some(idx) => {
                if idx < self.view.buffer.len() {
                    Some((self.x, self.y, self.view.buffer[idx]))
                } else {
                    None
                }
            },
            None => None,
        };

        self.x = self.x + 1;
        if self.x == self.view.width {
            self.x = 0;
            self.y = self.y + 1;
        }

        val
    }
}

/// Law: a checked read observes a value for exactly the in-bounds
/// coordinates.
pub proof fn lemma_get_present_iff_in_bounds(g: View, x: u16, y: u16)
    requires
        g.wf(),
        g.index_in_range(x, y),
    ensures
        g.cell(x, y) is Some <==> g.in_bounds(x, y),
{
}

/// Law: after an in-bounds write, an immediate read of the same coordinate
/// observes the value written. `g1` is the grid that a successful
/// [`View::set`] of `value` at `(x, y)` on `g0` leaves behind, as stated in
/// its postcondition.
pub proof fn lemma_set_then_get(g0: View, g1: View, x: u16, y: u16, value: bool)
    requires
        g0.wf(),
        g0.in_bounds(x, y),
        g0.index_in_range(x, y),
        g1.width == g0.width,
        g1.height == g0.height,
        g1.cells() == g0.cells().update(g0.idx_of(x, y), value),
    ensures
        g1.cell(x, y) == Some(value),
{
}

/// The traversal starting at `(x, y)` on a grid whose index mapping never
/// leaves the buffer (`width >= height`) covers each remaining coordinate
/// exactly once, row-major with `x` varying fastest: the triple of a
/// coordinate at traversal position `b * width + a` stands at the offset of
/// that position from the starting one, and the length is the number of
/// remaining positions.
proof fn lemma_trav_from(g: View, x: int, y: int)
    requires
        g.wf(),
        g.width > 0,
        g.width >= g.height,
        0 <= x < g.width,
        0 <= y <= g.height,
        y < g.height || x == 0,
    ensures
        g.trav_from(x, y).len() == (g.height - y) * g.width - x,
        forall|a: u16, b: u16|
            g.in_bounds(a, b) && b * g.width + a >= y * g.width + x ==> g.trav_from(x, y)[b
                * g.width + a - (y * g.width + x)] == ((a, b, g.cells()[g.idx_of(a, b)])),
    decreases g.height - y, g.width - x,
{
    let w = g.width as int;
    let h = g.height as int;
    let p = y * w + x;
    if y >= h {
        assert(g.trav_from(x, y) =~= Seq::empty());
        assert((h - y) * w == 0) by (nonlinear_arith)
            requires
                y == h,
        ;
        assert forall|a: u16, b: u16| g.in_bounds(a, b) implies b * g.width + a < p by {
            assert(b * w <= (h - 1) * w) by (nonlinear_arith)
                requires
                    b as int <= h - 1,
                    0 <= w,
            ;
            assert((h - 1) * w == h * w - w) by (nonlinear_arith);
        }
    } else {
        assert(y * h + x < w * h) by (nonlinear_arith)
            requires
                0 <= y,
                y < h,
                0 <= x,
                x < w,
                h <= w,
        ;
        let item = (x as u16, y as u16, g.cells()[y * h + x]);
        let pnext = p + 1;
        if x + 1 == w {
            lemma_trav_from(g, 0, y + 1);
            assert((y + 1) * w == y * w + w) by (nonlinear_arith);
            assert((h - (y + 1)) * w == (h - y) * w - w) by (nonlinear_arith);
        } else {
            lemma_trav_from(g, x + 1, y);
        }
        assert forall|a: u16, b: u16|
            g.in_bounds(a, b) && b * g.width + a >= p implies g.trav_from(x, y)[b * g.width + a
            - p] == ((a, b, g.cells()[g.idx_of(a, b)])) by {
            let pos = b * w + a;
            if pos == p {
                assert(a == x && b == y) by (nonlinear_arith)
                    requires
                        b as int * w + a == y * w + x,
                        0 <= a as int,
                        (a as int) < w,
                        0 <= x,
                        x < w,
                        0 <= b as int,
                        0 <= y,
                ;
                assert(g.trav_from(x, y)[0] == item);
            } else {
                assert(b * w <= (h - 1) * w) by (nonlinear_arith)
                    requires
                        b as int <= h - 1,
                        0 <= w,
                ;
                assert((h - 1) * w == h * w - w) by (nonlinear_arith);
                assert((h - y) * w == h * w - y * w) by (nonlinear_arith);
                assert(pos <= h * w - 1);
                if x + 1 == w {
                    let tail = g.trav_from(0, y + 1);
                    assert(g.trav_from(x, y) == seq![item] + tail);
                    assert(pnext == (y + 1) * w + 0);
                    assert(pos >= (y + 1) * g.width + 0);
                    assert(tail[b * g.width + a - ((y + 1) * g.width + 0)] == ((
                        a,
                        b,
                        g.cells()[g.idx_of(a, b)],
                    )));
                    assert((seq![item] + tail)[pos - p] == tail[pos - p - 1]);
                } else {
                    let tail = g.trav_from(x + 1, y);
                    assert(g.trav_from(x, y) == seq![item] + tail);
                    assert(pos >= y * g.width + (x + 1));
                    assert(tail[b * g.width + a - (y * g.width + (x + 1))] == ((
                        a,
                        b,
                        g.cells()[g.idx_of(a, b)],
                    )));
                    assert((seq![item] + tail)[pos - p] == tail[pos - p - 1]);
                }
            }
        }
    }
}

/// The rendering pass starting at `(x, y)` on a grid whose index mapping
/// never leaves the buffer (`width >= height`) produces one character per
/// remaining traversal position, rows of `width + 1` characters each: the
/// display symbol of the cell a coordinate maps to at the offset of its
/// position `b * (width + 1) + a`, and a line break at offset
/// `b * (width + 1) + width` of every row.
proof fn lemma_render_from(g: View, x: int, y: int)
    requires
        g.wf(),
        g.width > 0,
        g.width >= g.height,
        0 <= x < g.width,
        0 <= y <= g.height,
        y < g.height || x == 0,
    ensures
        g.render_from(x, y).len() == (g.height - y) * (g.width + 1) - x,
        forall|a: u16, b: u16|
            g.in_bounds(a, b) && b * (g.width + 1) + a >= y * (g.width + 1) + x
                ==> g.render_from(x, y)[b * (g.width + 1) + a - (y * (g.width + 1) + x)]
                == g.symbol_of(a, b),
        forall|b: u16|
            b < g.height && b * (g.width + 1) + g.width >= y * (g.width + 1) + x
                ==> #[trigger] g.render_from(x, y)[b * (g.width + 1) + g.width - (y * (g.width + 1)
                + x)] == '\n',
    decreases g.height - y, g.width - x,
{
    let w = g.width as int;
    let h = g.height as int;
    let q = y * (w + 1) + x;
    if y >= h {
        assert(g.render_from(x, y) =~= Seq::empty());
        assert forall|a: u16, b: u16|
            g.in_bounds(a, b) && b * (g.width + 1) + a >= q implies g.render_from(x, y)[b * (
        g.width + 1) + a - q] == g.symbol_of(a, b) by {
            assert(b * (w + 1) <= (h - 1) * (w + 1)) by (nonlinear_arith)
                requires
                    b as int <= h - 1,
                    0 <= w + 1,
            ;
            assert((h - 1) * (w + 1) == h * (w + 1) - (w + 1)) by (nonlinear_arith);
        }
        assert forall|b: u16|
            b < g.height && b * (g.width + 1) + g.width >= q implies #[trigger] g.render_from(
            x,
            y,
        )[b * (g.width + 1) + g.width - q] == '\n' by {
            assert(b * (w + 1) <= (h - 1) * (w + 1)) by (nonlinear_arith)
                requires
                    b as int <= h - 1,
                    0 <= w + 1,
            ;
            assert((h - 1) * (w + 1) == h * (w + 1) - (w + 1)) by (nonlinear_arith);
        }
    } else {
        assert(y * h + x < w * h) by (nonlinear_arith)
            requires
                0 <= y,
                y < h,
                0 <= x,
                x < w,
                h <= w,
        ;
        let sym = g.symbol_of(x as u16, y as u16);
        if x + 1 == w {
            lemma_render_from(g, 0, y + 1);
            assert((y + 1) * (w + 1) == y * (w + 1) + (w + 1)) by (nonlinear_arith);
            assert((h - (y + 1)) * (w + 1) == (h - y) * (w + 1) - (w + 1)) by (nonlinear_arith);
        } else {
            lemma_render_from(g, x + 1, y);
        }
        assert((h - y) * (w + 1) == h * (w + 1) - y * (w + 1)) by (nonlinear_arith);
        if x + 1 == w {
            let tail = g.render_from(0, y + 1);
            assert(g.render_from(x, y) == seq![sym, '\n'] + tail);
            assert forall|a: u16, b: u16|
                g.in_bounds(a, b) && b * (g.width + 1) + a >= q implies g.render_from(x, y)[b * (
            g.width + 1) + a - q] == g.symbol_of(a, b) by {
                let pos = b * (w + 1) + a;
                assert(b * (w + 1) <= (h - 1) * (w + 1)) by (nonlinear_arith)
                    requires
                        b as int <= h - 1,
                        0 <= w + 1,
                ;
                assert((h - 1) * (w + 1) == h * (w + 1) - (w + 1)) by (nonlinear_arith);
                if pos == q {
                    assert(a == x && b == y) by (nonlinear_arith)
                        requires
                            b as int * (w + 1) + a == y * (w + 1) + x,
                            0 <= a as int,
                            (a as int) < w + 1,
                            0 <= x,
                            x < w + 1,
                            0 <= b as int,
                            0 <= y,
                    ;
                    assert((seq![sym, '\n'] + tail)[0] == sym);
                } else {
                    assert(pos != q + 1) by (nonlinear_arith)
                        requires
                            pos == b as int * (w + 1) + a,
                            q + 1 == y * (w + 1) + w,
                            0 <= a as int,
                            (a as int) < w,
                            0 <= b as int,
                            0 <= y,
                            0 < w,
                    ;
                    assert(tail[b * (g.width + 1) + a - ((y + 1) * (g.width + 1) + 0)]
                        == g.symbol_of(a, b));
                    assert((seq![sym, '\n'] + tail)[pos - q] == tail[pos - q - 2]);
                }
            }
            assert forall|b: u16|
                b < g.height && b * (g.width + 1) + g.width >= q implies #[trigger] g.render_from(
                x,
                y,
            )[b * (g.width + 1) + g.width - q] == '\n' by {
                let npos = b * (w + 1) + w;
                assert(b * (w + 1) <= (h - 1) * (w + 1)) by (nonlinear_arith)
                    requires
                        b as int <= h - 1,
                        0 <= w + 1,
                ;
                assert((h - 1) * (w + 1) == h * (w + 1) - (w + 1)) by (nonlinear_arith);
                if npos == q + 1 {
                    assert(b == y) by (nonlinear_arith)
                        requires
                            b as int * (w + 1) + w == y * (w + 1) + w,
                            0 <= b as int,
                            0 <= y,
                            0 < w + 1,
                    ;
                    assert((seq![sym, '\n'] + tail)[1] == '\n');
                } else {
                    assert(npos != q) by (nonlinear_arith)
                        requires
                            npos == b as int * (w + 1) + w,
                            q == y * (w + 1) + x,
                            0 <= x,
                            x < w,
                            0 <= b as int,
                            0 <= y,
                            0 < w,
                    ;
                    assert(tail[b * (g.width + 1) + g.width - ((y + 1) * (g.width + 1) + 0)]
                        == '\n');
                    assert((seq![sym, '\n'] + tail)[npos - q] == tail[npos - q - 2]);
                }
            }
        } else {
            let tail = g.render_from(x + 1, y);
            assert(g.render_from(x, y) == seq![sym] + tail);
            assert forall|a: u16, b: u16|
                g.in_bounds(a, b) && b * (g.width + 1) + a >= q implies g.render_from(x, y)[b * (
            g.width + 1) + a - q] == g.symbol_of(a, b) by {
                let pos = b * (w + 1) + a;
                assert(b * (w + 1) <= (h - 1) * (w + 1)) by (nonlinear_arith)
                    requires
                        b as int <= h - 1,
                        0 <= w + 1,
                ;
                assert((h - 1) * (w + 1) == h * (w + 1) - (w + 1)) by (nonlinear_arith);
                if pos == q {
                    assert(a == x && b == y) by (nonlinear_arith)
                        requires
                            b as int * (w + 1) + a == y * (w + 1) + x,
                            0 <= a as int,
                            (a as int) < w + 1,
                            0 <= x,
                            x < w + 1,
                            0 <= b as int,
                            0 <= y,
                    ;
                    assert((seq![sym] + tail)[0] == sym);
                } else {
                    assert(tail[b * (g.width + 1) + a - (y * (g.width + 1) + (x + 1))]
                        == g.symbol_of(a, b));
                    assert((seq![sym] + tail)[pos - q] == tail[pos - q - 1]);
                }
            }
            assert forall|b: u16|
                b < g.height && b * (g.width + 1) + g.width >= q implies #[trigger] g.render_from(
                x,
                y,
            )[b * (g.width + 1) + g.width - q] == '\n' by {
                let npos = b * (w + 1) + w;
                assert(b * (w + 1) <= (h - 1) * (w + 1)) by (nonlinear_arith)
                    requires
                        b as int <= h - 1,
                        0 <= w + 1,
                ;
                assert((h - 1) * (w + 1) == h * (w + 1) - (w + 1)) by (nonlinear_arith);
                assert(npos != q) by (nonlinear_arith)
                    requires
                        npos == b as int * (w + 1) + w,
                        q == y * (w + 1) + x,
                        0 <= x,
                        x < w,
                        0 <= b as int,
                        0 <= y,
                        0 < w,
                ;
                assert(tail[b * (g.width + 1) + g.width - (y * (g.width + 1) + (x + 1))] == '\n');
                assert((seq![sym] + tail)[npos - q] == tail[npos - q - 1]);
            }
        }
    }
}

/// Law: on a grid whose traversal the index mapping does not cut short
/// (`width >= height`, or no columns at all), the text is `height` rows of
/// `width` display symbols, each row closed by a line break: the character
/// of coordinate `(x, y)` stands at position `y * (width + 1) + x`, and a
/// line break at position `y * (width + 1) + width` of every row.
pub proof fn lemma_render_complete(g: View)
    requires
        g.wf(),
        g.width >= g.height || g.width == 0,
    ensures
        g.width == 0 ==> g.rendered().len() == 0,
        g.width > 0 ==> g.rendered().len() == (g.width + 1) * g.height,
        forall|x: u16, y: u16|
            g.in_bounds(x, y) ==> g.rendered()[y * (g.width + 1) + x] == g.symbol_of(x, y),
        forall|y: u16|
            g.width > 0 && y < g.height ==> #[trigger] g.rendered()[y * (g.width + 1) + g.width]
                == '\n',
{
    if g.width == 0 {
        assert(g.rendered() =~= Seq::empty());
    } else {
        lemma_render_from(g, 0, 0);
        let w = g.width as int;
        let h = g.height as int;
        assert(h * (w + 1) == (w + 1) * h) by (nonlinear_arith);
        assert forall|x: u16, y: u16| g.in_bounds(x, y) implies g.rendered()[y * (g.width + 1) + x]
            == g.symbol_of(x, y) by {
            assert(y * (g.width + 1) + x >= 0 * (g.width + 1) + 0);
            assert(g.render_from(0, 0)[y * (g.width + 1) + x - (0 * (g.width + 1) + 0)]
                == g.symbol_of(x, y));
        }
        assert forall|y: u16| y < g.height implies #[trigger] g.rendered()[y * (g.width + 1)
            + g.width] == '\n' by {
            assert(y * (g.width + 1) + g.width >= 0 * (g.width + 1) + 0);
            assert(g.render_from(0, 0)[y * (g.width + 1) + g.width - (0 * (g.width + 1) + 0)]
                == '\n');
        }
    }
}

/// Law: on a grid whose traversal the index mapping does not cut short
/// (`width >= height`, or no columns at all), one full traversal yields
/// exactly `width * height` triples and visits every in-bounds coordinate
/// exactly once, row-major with `x` varying fastest: the triple of `(x, y)`
/// stands at position `y * width + x`. The traversal is a pure function of
/// the grid, so two traversals with no mutation between them are identical.
pub proof fn lemma_iterate_complete(g: View)
    requires
        g.wf(),
        g.width >= g.height || g.width == 0,
    ensures
        g.iter_seq().len() == g.width * g.height,
        forall|x: u16, y: u16|
            g.in_bounds(x, y) ==> g.iter_seq()[y * g.width + x] == ((
                x,
                y,
                g.cells()[g.idx_of(x, y)],
            )),
{
    if g.width == 0 {
        assert(g.iter_seq() =~= Seq::empty());
    } else {
        lemma_trav_from(g, 0, 0);
        assert(g.height * g.width == g.width * g.height) by (nonlinear_arith);
        assert forall|x: u16, y: u16| g.in_bounds(x, y) implies g.iter_seq()[y * g.width + x]
            == ((x, y, g.cells()[g.idx_of(x, y)])) by {
            assert(y * g.width + x >= 0 * g.width + 0);
            assert(g.trav_from(0, 0)[y * g.width + x - (0 * g.width + 0)] == ((
                x,
                y,
                g.cells()[g.idx_of(x, y)],
            )));
        }
    }
}

} // verus!
