//! Drawing primitives on a text buffer: labels, rectangular borders and the
//! byte-grid visualizer.
//!
//! Each primitive is described by the sequence of writes it performs, in
//! order; `paint` gives the buffer that results from performing them one
//! after another, each through the buffer's clipping write.
use vstd::prelude::*;
use vstd::string::StrSliceExecFns;
use crate::grid::{TextBuffer, TextPoint, in_grid, is_grid, put, text_cell};

verus! {

/// One write: a character and the cell it goes to.
pub type Write = (int, int, char);

/// The grid after performing `writes` on `g` in order.
pub open spec fn paint(g: Seq<Seq<Option<char>>>, writes: Seq<Write>) -> Seq<Seq<Option<char>>>
    decreases writes.len(),
{
    if writes.len() == 0 {
        g
    } else {
        let w = writes.last();
        put(paint(g, writes.drop_last()), w.0, w.1, Some(w.2))
    }
}

/// Performing `a` and then `b` is performing `a + b`.
pub proof fn lemma_paint_append(g: Seq<Seq<Option<char>>>, a: Seq<Write>, b: Seq<Write>)
    ensures
        paint(g, a + b) == paint(paint(g, a), b),
    decreases b.len(),
{
    if b.len() == 0 {
        assert(a + b =~= a);
    } else {
        assert((a + b).drop_last() =~= a + b.drop_last());
        lemma_paint_append(g, a, b.drop_last());
    }
}

/// Performing a single write.
proof fn lemma_paint_one(g: Seq<Seq<Option<char>>>, w: Write)
    ensures
        paint(g, seq![w]) == put(g, w.0, w.1, Some(w.2)),
{
    assert(seq![w].drop_last() =~= Seq::<Write>::empty());
    assert(paint(g, Seq::<Write>::empty()) == g);
}

/// Performing one more write after `writes.take(k)`.
proof fn lemma_paint_step(g: Seq<Seq<Option<char>>>, writes: Seq<Write>, k: int)
    requires
        0 <= k < writes.len(),
    ensures
        paint(g, writes.take(k + 1)) == put(
            paint(g, writes.take(k)),
            writes[k].0,
            writes[k].1,
            Some(writes[k].2),
        ),
{
    assert(writes.take(k + 1).drop_last() =~= writes.take(k));
}

/// Painting keeps the shape of the grid.
pub proof fn lemma_paint_shape(g: Seq<Seq<Option<char>>>, w: int, h: int, writes: Seq<Write>)
    requires
        is_grid(g, w, h),
    ensures
        is_grid(paint(g, writes), w, h),
    decreases writes.len(),
{
    if writes.len() > 0 {
        lemma_paint_shape(g, w, h, writes.drop_last());
    }
}

/// The cell of the last write to a cell of the grid holds that write's
/// character afterwards.
pub proof fn lemma_paint_last_write(
    g: Seq<Seq<Option<char>>>,
    w: int,
    h: int,
    writes: Seq<Write>,
    k: int,
)
    requires
        is_grid(g, w, h),
        0 <= k < writes.len(),
        0 <= writes[k].0 < w,
        0 <= writes[k].1 < h,
        forall|j: int|
            k < j < writes.len() ==> (#[trigger] writes[j]).0 != writes[k].0 || writes[j].1
                != writes[k].1,
    ensures
        text_cell(paint(g, writes), writes[k].0, writes[k].1) == Some(writes[k].2),
    decreases writes.len(),
{
    let last = writes.len() - 1;
    lemma_paint_shape(g, w, h, writes.drop_last());
    if k < last {
        assert forall|j: int| k < j < writes.drop_last().len() implies (
        #[trigger] writes.drop_last()[j]).0 != writes.drop_last()[k].0 || writes.drop_last()[j].1
            != writes.drop_last()[k].1 by {
            assert(writes.drop_last()[j] == writes[j]);
        }
        lemma_paint_last_write(g, w, h, writes.drop_last(), k);
    }
}

/// The writes of a label: character `i` of `text` goes to
/// `(x + i * sx, y + i * sy)`.
pub open spec fn label_writes(x: int, y: int, sx: int, sy: int, text: Seq<char>) -> Seq<Write> {
    Seq::new(text.len(), |i: int| (x + i * sx, y + i * sy, text[i]))
}

/// The range of cursor origins that the drawing functions start from: every
/// `i32` point, moved by a bounded offset.
pub open spec fn origin_range(v: int) -> bool {
    -0x100_0000_0000 <= v <= 0x100_0000_0000
}

/// A cursor that starts in the origin range and takes at most `usize::MAX`
/// steps of an `i32` stride stays well within `i128`.
proof fn lemma_cursor_fits(o: int, s: int, k: int)
    requires
        origin_range(o),
        i32::MIN <= s <= i32::MAX,
        0 <= k <= usize::MAX,
    ensures
        -0x1_0000_0000_0000_0000_0000_0000 <= o + k * s <= 0x1_0000_0000_0000_0000_0000_0000,
{
    assert(-0x1_0000_0000_0000_0000_0000_0000 + 0x100_0000_0000 <= k * s <= 0x1_0000_0000_0000_0000_0000_0000 - 0x100_0000_0000) by (nonlinear_arith)
        requires
            0 <= k <= usize::MAX,
            i32::MIN <= s <= i32::MAX,
    ;
}

/// Writes the characters of `s` one after another from `top_left` rightwards.
pub fn label<const WIDTH: usize, const HEIGHT: usize>(
    text: &mut TextBuffer<WIDTH, HEIGHT>,
    top_left: TextPoint,
    s: String,
)
    ensures
        final(text)@ == paint(old(text)@, label_writes(top_left.x as int, top_left.y as int, 1, 0, s@)),
{
    label_with_stride(text, top_left, TextPoint { x: 1, y: 0 }, s);
}

/// Writes the characters of `s` in order, character `i` at
/// `top_left + i * stride`. Characters that fall outside the buffer are
/// dropped and the rest are still written.
pub fn label_with_stride<const WIDTH: usize, const HEIGHT: usize>(
    text: &mut TextBuffer<WIDTH, HEIGHT>,
    top_left: TextPoint,
    stride: TextPoint,
    s: String,
)
    ensures
        final(text)@ == paint(
            old(text)@,
            label_writes(top_left.x as int, top_left.y as int, stride.x as int, stride.y as int, s@),
        ),
{
    stamp(text, top_left.x as i128, top_left.y as i128, stride.x, stride.y, s.as_str());
}

/// Writes the characters of `s` in order, character `i` at
/// `(x + i * sx, y + i * sy)`.
fn stamp<const WIDTH: usize, const HEIGHT: usize>(
    text: &mut TextBuffer<WIDTH, HEIGHT>,
    x: i128,
    y: i128,
    sx: i32,
    sy: i32,
    s: &str,
)
    requires
        origin_range(x as int),
        origin_range(y as int),
    ensures
        final(text)@ == paint(old(text)@, label_writes(x as int, y as int, sx as int, sy as int, s@)),
{
    let ghost writes = label_writes(x as int, y as int, sx as int, sy as int, s@);
    let n: usize = s.unicode_len();
    let mut cx: i128 = x;
    let mut cy: i128 = y;
    let ghost mut k: int = 0;
    for c in it: s.chars()
        invariant
            n == s@.len(),
            origin_range(x as int),
            origin_range(y as int),
            it.seq() == s@,
            k == it.index(),
            cx == x + k * sx,
            cy == y + k * sy,
            writes == label_writes(x as int, y as int, sx as int, sy as int, s@),
            text@ == paint(old(text)@, writes.take(k)),
    {
        proof {
            lemma_paint_step(old(text)@, writes, k);
        }
        text.put_cell(cx, cy, c);
        proof {
            lemma_cursor_fits(x as int, sx as int, k + 1);
            lemma_cursor_fits(y as int, sy as int, k + 1);
            assert((k + 1) * sx == k * sx + sx) by (nonlinear_arith);
            assert((k + 1) * sy == k * sy + sy) by (nonlinear_arith);
            k = k + 1;
        }
        cx = cx + sx as i128;
        cy = cy + sy as i128;
    }
    assert(writes.take(k) =~= writes);
}

/// The eight glyphs of a rectangular border: four edges and four corners.
#[derive(Clone, Copy, Debug, PartialEq, Eq, Structural)]
pub struct RectStyle {
    pub top: char,
    pub bottom: char,
    pub left: char,
    pub right: char,
    pub top_left: char,
    pub top_right: char,
    pub bottom_left: char,
    pub bottom_right: char,
}

impl RectStyle {
    /// Each corner glyph differs from the other three corners and from the
    /// four edge glyphs.
    pub open spec fn distinct_corners(&self) -> bool {
        let edges = set![self.top, self.bottom, self.left, self.right];
        &&& !edges.contains(self.top_left)
        &&& !edges.contains(self.top_right)
        &&& !edges.contains(self.bottom_left)
        &&& !edges.contains(self.bottom_right)
        &&& self.top_left != self.top_right
        &&& self.top_left != self.bottom_left
        &&& self.top_left != self.bottom_right
        &&& self.top_right != self.bottom_left
        &&& self.top_right != self.bottom_right
        &&& self.bottom_left != self.bottom_right
    }

    /// Thin single lines.
    pub open spec fn spec_thin() -> RectStyle {
        RectStyle {
            top: '─',
            bottom: '─',
            left: '│',
            right: '│',
            top_left: '┌',
            top_right: '┐',
            bottom_left: '└',
            bottom_right: '┘',
        }
    }

    /// Thin single lines.
    pub fn thin() -> (r: RectStyle)
        ensures
            r == RectStyle::spec_thin(),
            r.top == '─' && r.bottom == '─' && r.left == '│' && r.right == '│',
            r.top_left == '┌' && r.top_right == '┐',
            r.bottom_left == '└' && r.bottom_right == '┘',
            r.distinct_corners(),
    {
        RectStyle {
            top: '─',
            bottom: '─',
            left: '│',
            right: '│',
            top_left: '┌',
            top_right: '┐',
            bottom_left: '└',
            bottom_right: '┘',
        }
    }

    /// Thick single lines.
    pub fn thick() -> (r: RectStyle)
        ensures
            r.top == '━' && r.bottom == '━' && r.left == '┃' && r.right == '┃',
            r.top_left == '┏' && r.top_right == '┓',
            r.bottom_left == '┗' && r.bottom_right == '┛',
            r.distinct_corners(),
    {
        RectStyle {
            top: '━',
            bottom: '━',
            left: '┃',
            right: '┃',
            top_left: '┏',
            top_right: '┓',
            bottom_left: '┗',
            bottom_right: '┛',
        }
    }

    /// Double lines.
    pub fn double() -> (r: RectStyle)
        ensures
            r.top == '═' && r.bottom == '═' && r.left == '║' && r.right == '║',
            r.top_left == '╔' && r.top_right == '╗',
            r.bottom_left == '╚' && r.bottom_right == '╝',
            r.distinct_corners(),
    {
        RectStyle {
            top: '═',
            bottom: '═',
            left: '║',
            right: '║',
            top_left: '╔',
            top_right: '╗',
            bottom_left: '╚',
            bottom_right: '╝',
        }
    }
}

/// `n` writes of `c` stepping from `(x, y)` by `(dx, dy)`, the first one
/// step away from `(x, y)`.
pub open spec fn run(x: int, y: int, dx: int, dy: int, n: int, c: char) -> Seq<Write> {
    Seq::new(n as nat, |i: int| (x + (i + 1) * dx, y + (i + 1) * dy, c))
}

/// The writes of a border around `inner_width x inner_height` cells whose
/// top-left corner is at `(x0, y0)`: the top-left corner, the top edge rightwards,
/// the top-right corner, the right edge downwards, the bottom-right corner,
/// the bottom edge leftwards, the bottom-left corner and the left edge
/// upwards.
pub open spec fn rect_writes(x0: int, y0: int, inner_width: int, inner_height: int, st: RectStyle) -> Seq<
    Write,
> {
    let (x1, y1) = (x0 + inner_width + 1, y0 + inner_height + 1);
    seq![(x0, y0, st.top_left)] + run(x0, y0, 1, 0, inner_width, st.top) + seq![
        (x1, y0, st.top_right),
    ] + run(x1, y0, 0, 1, inner_height, st.right) + seq![(x1, y1, st.bottom_right)] + run(
        x1,
        y1,
        -1,
        0,
        inner_width,
        st.bottom,
    ) + seq![(x0, y1, st.bottom_left)] + run(x0, y1, 0, -1, inner_height, st.left)
}

/// Write `k` of `rect_writes(x0, y0, iw, ih, st)`, by the side it lies on.
pub open spec fn perimeter_write(x0: int, y0: int, iw: int, ih: int, st: RectStyle, k: int) -> Write {
    let (x1, y1) = (x0 + iw + 1, y0 + ih + 1);
    if k <= iw {
        (x0 + k, y0, if k == 0 { st.top_left } else { st.top })
    } else if k <= iw + ih + 1 {
        let j = k - (iw + 1);
        (x1, y0 + j, if j == 0 { st.top_right } else { st.right })
    } else if k <= 2 * iw + ih + 2 {
        let j = k - (iw + ih + 2);
        (x1 - j, y1, if j == 0 { st.bottom_right } else { st.bottom })
    } else {
        let j = k - (2 * iw + ih + 3);
        (x0, y1 - j, if j == 0 { st.bottom_left } else { st.left })
    }
}

/// The border's writes, one by one: `2 * (iw + 1) + 2 * (ih + 1)` of them,
/// going clockwise round the perimeter from the top-left corner.
pub proof fn lemma_rect_writes_closed_form(x0: int, y0: int, iw: int, ih: int, st: RectStyle)
    requires
        iw >= 0,
        ih >= 0,
    ensures
        rect_writes(x0, y0, iw, ih, st).len() == 2 * (iw + 1) + 2 * (ih + 1),
        forall|k: int|
            0 <= k < 2 * (iw + 1) + 2 * (ih + 1) ==> #[trigger] rect_writes(x0, y0, iw, ih, st)[k]
                == perimeter_write(x0, y0, iw, ih, st, k),
{
    let (x1, y1) = (x0 + iw + 1, y0 + ih + 1);
    let w0 = seq![(x0, y0, st.top_left)];
    let w1 = run(x0, y0, 1, 0, iw, st.top);
    let w2 = seq![(x1, y0, st.top_right)];
    let w3 = run(x1, y0, 0, 1, ih, st.right);
    let w4 = seq![(x1, y1, st.bottom_right)];
    let w5 = run(x1, y1, -1, 0, iw, st.bottom);
    let w6 = seq![(x0, y1, st.bottom_left)];
    let w7 = run(x0, y1, 0, -1, ih, st.left);
    let a = w0 + w1;
    let b = a + w2 + w3;
    let c = b + w4 + w5;
    let d = c + w6 + w7;
    assert(d == rect_writes(x0, y0, iw, ih, st));
    assert forall|k: int| 0 <= k < 2 * (iw + 1) + 2 * (ih + 1) implies #[trigger] d[k]
        == perimeter_write(x0, y0, iw, ih, st, k) by {
        if k <= iw {
            assert(d[k] == a[k]);
            if k > 0 {
                assert(a[k] == w1[k - 1]);
                assert(k * 1 == k && k * 0 == 0) by (nonlinear_arith);
            }
        } else if k <= iw + ih + 1 {
            let j = k - (iw + 1);
            assert(d[k] == (a + w2 + w3)[k]);
            if j > 0 {
                assert((a + w2 + w3)[k] == w3[j - 1]);
                assert(j * 1 == j && j * 0 == 0) by (nonlinear_arith);
            }
        } else if k <= 2 * iw + ih + 2 {
            let j = k - (iw + ih + 2);
            assert(d[k] == (b + w4 + w5)[k]);
            if j > 0 {
                assert((b + w4 + w5)[k] == w5[j - 1]);
                assert(j * -1 == -j && j * 0 == 0) by (nonlinear_arith);
            }
        } else {
            let j = k - (2 * iw + ih + 3);
            if j > 0 {
                assert(d[k] == w7[j - 1]);
                assert(j * -1 == -j && j * 0 == 0) by (nonlinear_arith);
            }
        }
    }
}

/// The border writes `2 * (inner_width + 1) + 2 * (inner_height + 1)`
/// writes to as many different cells, and each corner glyph goes to its
/// corner, in one write that comes at its place in the clockwise walk; with
/// a style whose corner glyphs are distinct, that write is the only one
/// that uses the glyph.
pub proof fn lemma_rect_perimeter(x0: int, y0: int, inner_width: int, inner_height: int, st: RectStyle)
    requires
        inner_width >= 0,
        inner_height >= 0,
    ensures
        ({
            let ws = rect_writes(x0, y0, inner_width, inner_height, st);
            let (iw, ih) = (inner_width, inner_height);
            let (x1, y1) = (x0 + iw + 1, y0 + ih + 1);
            &&& ws.len() == 2 * (iw + 1) + 2 * (ih + 1)
            &&& ws[0] == (x0, y0, st.top_left)
            &&& ws[iw + 1] == (x1, y0, st.top_right)
            &&& ws[iw + ih + 2] == (x1, y1, st.bottom_right)
            &&& ws[2 * iw + ih + 3] == (x0, y1, st.bottom_left)
            &&& forall|j: int, k: int|
                0 <= j < k < ws.len() ==> (#[trigger] ws[j]).0 != (#[trigger] ws[k]).0 || ws[j].1
                    != ws[k].1
            &&& st.distinct_corners() ==> forall|k: int|
                0 <= k < ws.len() ==> {
                    &&& (#[trigger] ws[k]).2 == st.top_left <==> k == 0
                    &&& ws[k].2 == st.top_right <==> k == iw + 1
                    &&& ws[k].2 == st.bottom_right <==> k == iw + ih + 2
                    &&& ws[k].2 == st.bottom_left <==> k == 2 * iw + ih + 3
                }
        }),
{
    lemma_rect_writes_closed_form(x0, y0, inner_width, inner_height, st);
}

/// Steps `count` times from `(x, y)` by `(dx, dy)`, writing `c` after each
/// step, and returns where it stopped.
fn walk<const WIDTH: usize, const HEIGHT: usize>(
    text: &mut TextBuffer<WIDTH, HEIGHT>,
    x: i128,
    y: i128,
    dx: i128,
    dy: i128,
    count: usize,
    c: char,
) -> (r: (i128, i128))
    requires
        -0x1_0000_0000_0000_0000_0000 <= x <= 0x1_0000_0000_0000_0000_0000,
        -0x1_0000_0000_0000_0000_0000 <= y <= 0x1_0000_0000_0000_0000_0000,
        -1 <= dx <= 1,
        -1 <= dy <= 1,
    ensures
        final(text)@ == paint(old(text)@, run(x as int, y as int, dx as int, dy as int, count as int, c)),
        r.0 == x + count * dx,
        r.1 == y + count * dy,
{
    let ghost writes = run(x as int, y as int, dx as int, dy as int, count as int, c);
    let mut cx: i128 = x;
    let mut cy: i128 = y;
    let mut i: usize = 0;
    while i < count
        invariant
            i <= count,
            -1 <= dx <= 1,
            -1 <= dy <= 1,
            -0x1_0000_0000_0000_0000_0000 <= x <= 0x1_0000_0000_0000_0000_0000,
            -0x1_0000_0000_0000_0000_0000 <= y <= 0x1_0000_0000_0000_0000_0000,
            cx == x + i * dx,
            cy == y + i * dy,
            writes == run(x as int, y as int, dx as int, dy as int, count as int, c),
            text@ == paint(old(text)@, writes.take(i as int)),
        decreases count - i,
    {
        assert(-(i as int) <= i * dx <= i && -(i as int) <= i * dy <= i) by (nonlinear_arith)
            requires
                -1 <= dx <= 1,
                -1 <= dy <= 1,
                i >= 0,
        ;
        assert((i + 1) * dx == i * dx + dx && (i + 1) * dy == i * dy + dy) by (nonlinear_arith);
        cx = cx + dx;
        cy = cy + dy;
        proof {
            lemma_paint_step(old(text)@, writes, i as int);
        }
        text.put_cell(cx, cy, c);
        i = i + 1;
    }
    assert(writes.take(count as int) =~= writes);
    (cx, cy)
}

/// Draws a border around `inner_width x inner_height` cells with its
/// top-left corner at `top_left`, tracing the perimeter clockwise from that
/// corner. Cells that fall outside the buffer are dropped.
pub fn rect<const WIDTH: usize, const HEIGHT: usize>(
    text: &mut TextBuffer<WIDTH, HEIGHT>,
    top_left: TextPoint,
    inner_width: usize,
    inner_height: usize,
    style: RectStyle,
)
    ensures
        final(text)@ == paint(
            old(text)@,
            rect_writes(top_left.x as int, top_left.y as int, inner_width as int, inner_height as int, style),
        ),
{
    border(text, top_left.x as i128, top_left.y as i128, inner_width, inner_height, style);
}

/// Draws the border of `rect_writes(x0, y0, inner_width, inner_height, style)`.
fn border<const WIDTH: usize, const HEIGHT: usize>(
    text: &mut TextBuffer<WIDTH, HEIGHT>,
    x0: i128,
    y0: i128,
    inner_width: usize,
    inner_height: usize,
    style: RectStyle,
)
    requires
        origin_range(x0 as int),
        origin_range(y0 as int),
    ensures
        final(text)@ == paint(
            old(text)@,
            rect_writes(x0 as int, y0 as int, inner_width as int, inner_height as int, style),
        ),
{
    let ghost g = old(text)@;
    let ghost (iw, ih) = (inner_width as int, inner_height as int);
    let ghost (x1, y1) = (x0 + iw + 1, y0 + ih + 1);
    let ghost w0 = seq![(x0 as int, y0 as int, style.top_left)];
    let ghost w1 = run(x0 as int, y0 as int, 1, 0, iw, style.top);
    let ghost w2 = seq![(x1, y0 as int, style.top_right)];
    let ghost w3 = run(x1, y0 as int, 0, 1, ih, style.right);
    let ghost w4 = seq![(x1, y1, style.bottom_right)];
    let ghost w5 = run(x1, y1, -1, 0, iw, style.bottom);
    let ghost w6 = seq![(x0 as int, y1, style.bottom_left)];
    let ghost w7 = run(x0 as int, y1, 0, -1, ih, style.left);

    text.put_cell(x0, y0, style.top_left);
    proof {
        lemma_paint_one(g, w0[0]);
    }
    let (x, y) = walk(text, x0, y0, 1, 0, inner_width, style.top);
    proof {
        lemma_paint_append(g, w0, w1);
    }
    let x: i128 = x + 1;
    text.put_cell(x, y, style.top_right);
    proof {
        lemma_paint_one(paint(g, w0 + w1), w2[0]);
        lemma_paint_append(g, w0 + w1, w2);
    }
    let (x, y) = walk(text, x, y, 0, 1, inner_height, style.right);
    proof {
        lemma_paint_append(g, w0 + w1 + w2, w3);
    }
    let y: i128 = y + 1;
    text.put_cell(x, y, style.bottom_right);
    proof {
        lemma_paint_one(paint(g, w0 + w1 + w2 + w3), w4[0]);
        lemma_paint_append(g, w0 + w1 + w2 + w3, w4);
    }
    let (x, y) = walk(text, x, y, -1, 0, inner_width, style.bottom);
    proof {
        lemma_paint_append(g, w0 + w1 + w2 + w3 + w4, w5);
    }
    let x: i128 = x - 1;
    text.put_cell(x, y, style.bottom_left);
    proof {
        lemma_paint_one(paint(g, w0 + w1 + w2 + w3 + w4 + w5), w6[0]);
        lemma_paint_append(g, w0 + w1 + w2 + w3 + w4 + w5, w6);
    }
    walk(text, x, y, 0, -1, inner_height, style.left);
    proof {
        lemma_paint_append(g, w0 + w1 + w2 + w3 + w4 + w5 + w6, w7);
        assert(rect_writes(x0 as int, y0 as int, iw, ih, style) == w0 + w1 + w2 + w3 + w4 + w5 + w6
            + w7);
    }
}

/// The hexadecimal digits, in order.
pub open spec fn hex_digits() -> Seq<char> {
    seq!['0', '1', '2', '3', '4', '5', '6', '7', '8', '9', 'A', 'B', 'C', 'D', 'E', 'F']
}

/// The octal digits, in order.
pub open spec fn octal_digits() -> Seq<char> {
    seq!['0', '1', '2', '3', '4', '5', '6', '7']
}

/// The filler column beside the row headers.
pub open spec fn filler() -> Seq<char> {
    seq!['_', '_', '_', '_', '_', '_', '_', '_']
}

/// The column of byte `b`'s cell, relative to the visualizer's origin: its
/// low nibble, after the left panel's origin for `b < 128` and after the
/// right panel's otherwise.
pub open spec fn byte_column(b: int) -> int {
    b % 16 + if b < 128 {
        3int
    } else {
        23int
    }
}

/// The row of byte `b`'s cell, relative to the visualizer's origin: bits 4
/// to 6 of `b`, below the header and the top border.
pub open spec fn byte_row(b: int) -> int {
    (b / 16) % 8 + 2
}

/// The headers and borders of the byte grid whose origin is `(x, y)`.
pub open spec fn bytemap_frame(x: int, y: int) -> Seq<Write> {
    label_writes(x + 3, y, 1, 0, hex_digits()) + label_writes(x, y + 2, 0, 1, octal_digits())
        + label_writes(x + 1, y + 2, 0, 1, filler()) + label_writes(x + 23, y, 1, 0, hex_digits())
        + label_writes(x + 20, y + 2, 0, 1, octal_digits()) + label_writes(
        x + 21,
        y + 2,
        0,
        1,
        filler(),
    ) + rect_writes(x + 2, y + 1, 16, 8, RectStyle::spec_thin()) + rect_writes(
        x + 22,
        y + 1,
        16,
        8,
        RectStyle::spec_thin(),
    )
}

/// One write per byte value `b`, in increasing order: `glyphs[b]` at byte
/// `b`'s cell.
pub open spec fn byte_writes(x: int, y: int, glyphs: Seq<char>) -> Seq<Write> {
    Seq::new(256, |b: int| (x + byte_column(b), y + byte_row(b), glyphs[b]))
}

/// All writes of the byte grid whose origin is `(x, y)`: the frame, then the
/// bytes.
pub open spec fn bytemap_writes(x: int, y: int, glyphs: Seq<char>) -> Seq<Write> {
    bytemap_frame(x, y) + byte_writes(x, y, glyphs)
}

/// The layout is the bit arithmetic of a byte: its low nibble, offset by
/// the panel, for the column, and bits 4 to 6, below the headers, for the
/// row.
pub proof fn lemma_byte_layout_bits(b: u8)
    ensures
        byte_column(b as int) == (b & 0xF) + if b < 128 {
            3int
        } else {
            23int
        },
        byte_row(b as int) == ((b >> 4) & 0x7) + 2,
{
    assert(b & 0xF == b % 16) by (bit_vector);
    assert((b >> 4) & 0x7 == (b / 16) % 8) by (bit_vector);
}

/// No two byte values share a cell of the layout.
pub proof fn lemma_byte_layout_injective(a: int, b: int)
    requires
        0 <= a < 256,
        0 <= b < 256,
        a != b,
    ensures
        byte_column(a) != byte_column(b) || byte_row(a) != byte_row(b),
{
}

/// The byte grid performs exactly one write per byte value, at that byte's
/// cell; afterwards every byte's cell that lies on the buffer shows that
/// byte's glyph.
pub proof fn lemma_bytemap_shows_bytes(
    g: Seq<Seq<Option<char>>>,
    w: int,
    h: int,
    x: int,
    y: int,
    glyphs: Seq<char>,
    b: int,
)
    requires
        is_grid(g, w, h),
        glyphs.len() == 256,
        0 <= b < 256,
    ensures
        byte_writes(x, y, glyphs).len() == 256,
        byte_writes(x, y, glyphs)[b] == (x + byte_column(b), y + byte_row(b), glyphs[b]),
        forall|c: int|
            0 <= c < 256 && c != b ==> (#[trigger] byte_writes(x, y, glyphs)[c]).0 != x
                + byte_column(b) || byte_writes(x, y, glyphs)[c].1 != y + byte_row(b),
        in_grid(w, h, x + byte_column(b), y + byte_row(b)) ==> text_cell(
            paint(g, bytemap_writes(x, y, glyphs)),
            x + byte_column(b),
            y + byte_row(b),
        ) == Some(glyphs[b]),
{
    let bytes = byte_writes(x, y, glyphs);
    let frame = bytemap_frame(x, y);
    let all = bytemap_writes(x, y, glyphs);
    assert forall|c: int| 0 <= c < 256 && c != b implies (#[trigger] bytes[c]).0 != x + byte_column(
        b,
    ) || bytes[c].1 != y + byte_row(b) by {
        lemma_byte_layout_injective(c, b);
    }
    if in_grid(w, h, x + byte_column(b), y + byte_row(b)) {
        let k = frame.len() + b;
        assert(all[k] == bytes[b]);
        assert forall|j: int| k < j < all.len() implies (#[trigger] all[j]).0 != all[k].0 || all[j].1
            != all[k].1 by {
            assert(all[j] == bytes[j - frame.len()]);
        }
        lemma_paint_last_write(g, w, h, all, k);
    }
}

/// Draws the byte grid with its origin at `top_left`: two panels of 16 x 8
/// cells side by side, for the bytes below 128 and from 128 up, each with
/// its column and row headers and a thin border, and each byte `b` shown as
/// `f(b)`.
pub fn bytemap<const WIDTH: usize, const HEIGHT: usize, F: Fn(u8) -> char>(
    text: &mut TextBuffer<WIDTH, HEIGHT>,
    top_left: TextPoint,
    f: F,
)
    requires
        forall|b: u8| f.requires((b,)),
    ensures
        exists|glyphs: Seq<char>|
            {
                &&& glyphs.len() == 256
                &&& forall|b: u8| f.ensures((b,), #[trigger] glyphs[b as int])
                &&& final(text)@ == paint(
                    old(text)@,
                    bytemap_writes(top_left.x as int, top_left.y as int, glyphs),
                )
            },
{
    let mut glyphs: Vec<char> = Vec::new();
    for b in 0..256u16
        invariant
            glyphs@.len() == b,
            forall|b: u8| f.requires((b,)),
            forall|i: u8| i < b ==> f.ensures((i,), #[trigger] glyphs@[i as int]),
    {
        let c = f(b as u8);
        glyphs.push(c);
        assert forall|i: u8| i < b + 1 implies f.ensures((i,), #[trigger] glyphs@[i as int]) by {
            if i as u16 == b {
                assert(i == b as u8);
            }
        }
    }
    bytemap_with_glyphs(text, top_left, &glyphs);
}

/// Draws the byte grid with its origin at `top_left`, each byte `b` shown as
/// `glyphs[b]`.
pub fn bytemap_with_glyphs<const WIDTH: usize, const HEIGHT: usize>(
    text: &mut TextBuffer<WIDTH, HEIGHT>,
    top_left: TextPoint,
    glyphs: &Vec<char>,
)
    requires
        glyphs@.len() == 256,
    ensures
        final(text)@ == paint(old(text)@, bytemap_writes(top_left.x as int, top_left.y as int, glyphs@)),
{
    let ghost g = old(text)@;
    let ghost (xs, ys) = (top_left.x as int, top_left.y as int);
    let x: i128 = top_left.x as i128;
    let y: i128 = top_left.y as i128;
    let ghost f0 = label_writes(xs + 3, ys, 1, 0, hex_digits());
    let ghost f1 = label_writes(xs, ys + 2, 0, 1, octal_digits());
    let ghost f2 = label_writes(xs + 1, ys + 2, 0, 1, filler());
    let ghost f3 = label_writes(xs + 23, ys, 1, 0, hex_digits());
    let ghost f4 = label_writes(xs + 20, ys + 2, 0, 1, octal_digits());
    let ghost f5 = label_writes(xs + 21, ys + 2, 0, 1, filler());
    let ghost f6 = rect_writes(xs + 2, ys + 1, 16, 8, RectStyle::spec_thin());
    let ghost f7 = rect_writes(xs + 22, ys + 1, 16, 8, RectStyle::spec_thin());
    proof {
        reveal_strlit("0123456789ABCDEF");
        reveal_strlit("01234567");
        reveal_strlit("________");
        assert("0123456789ABCDEF"@ =~= hex_digits());
        assert("01234567"@ =~= octal_digits());
        assert("________"@ =~= filler());
    }
    stamp(text, x + 3, y, 1, 0, "0123456789ABCDEF");
    stamp(text, x, y + 2, 0, 1, "01234567");
    proof {
        lemma_paint_append(g, f0, f1);
    }
    stamp(text, x + 1, y + 2, 0, 1, "________");
    proof {
        lemma_paint_append(g, f0 + f1, f2);
    }
    stamp(text, x + 23, y, 1, 0, "0123456789ABCDEF");
    proof {
        lemma_paint_append(g, f0 + f1 + f2, f3);
    }
    stamp(text, x + 20, y + 2, 0, 1, "01234567");
    proof {
        lemma_paint_append(g, f0 + f1 + f2 + f3, f4);
    }
    stamp(text, x + 21, y + 2, 0, 1, "________");
    proof {
        lemma_paint_append(g, f0 + f1 + f2 + f3 + f4, f5);
    }
    let thin = RectStyle::thin();
    border(text, x + 2, y + 1, 16, 8, thin);
    proof {
        lemma_paint_append(g, f0 + f1 + f2 + f3 + f4 + f5, f6);
    }
    border(text, x + 22, y + 1, 16, 8, thin);
    proof {
        lemma_paint_append(g, f0 + f1 + f2 + f3 + f4 + f5 + f6, f7);
        assert(bytemap_frame(xs, ys) == f0 + f1 + f2 + f3 + f4 + f5 + f6 + f7);
    }
    let ghost frame = bytemap_frame(xs, ys);
    let ghost bytes = byte_writes(xs, ys, glyphs@);
    let ghost g1 = paint(g, frame);
    for i in 0..256u16
        invariant
            glyphs@.len() == 256,
            x == xs == top_left.x,
            y == ys == top_left.y,
            bytes == byte_writes(xs, ys, glyphs@),
            text@ == paint(g1, bytes.take(i as int)),
    {
        let byte: u8 = i as u8;
        let col: i128 = if byte < 128 {
            (byte & 0b1111) as i128 + 3
        } else {
            (byte & 0b1111) as i128 + 23
        };
        let row: i128 = ((byte >> 4) & 0b111) as i128 + 2;
        assert(byte & 0b1111 == byte % 16) by (bit_vector);
        assert((byte >> 4) & 0b111 == (byte / 16) % 8) by (bit_vector);
        proof {
            lemma_paint_step(g1, bytes, i as int);
        }
        text.put_cell(x + col, y + row, glyphs[i as usize]);
    }
    proof {
        assert(bytes.take(256) =~= bytes);
        lemma_paint_append(g, frame, bytes);
    }
}

} // verus!
