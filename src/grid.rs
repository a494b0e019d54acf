//! Grid buffers addressed by integer cell coordinates.
//!
//! A buffer of `WIDTH x HEIGHT` cells is modelled as a sequence of `HEIGHT`
//! rows, each a sequence of `WIDTH` cells. Coordinates outside
//! `[0, WIDTH) x [0, HEIGHT)` read as absent and writes to them are dropped.
//! A text cell also reads as absent until something is written to it.
use vstd::prelude::*;

verus! {

broadcast use vstd::array::group_array_axioms;

/// A position in text space: one unit is one character cell.
#[derive(Clone, Copy, Debug, PartialEq, Eq, Structural)]
pub struct TextPoint {
    pub x: i32,
    pub y: i32,
}

/// A position in pixel space: one unit is one pixel.
#[derive(Clone, Copy, Debug, PartialEq, Eq, Structural)]
pub struct PixelPoint {
    pub x: i32,
    pub y: i32,
}

impl PixelPoint {
    pub fn new(x: i32, y: i32) -> (r: PixelPoint)
        ensures
            r.x == x,
            r.y == y,
    {
        PixelPoint { x, y }
    }
}

impl TextPoint {
    pub fn new(x: i32, y: i32) -> (r: TextPoint)
        ensures
            r.x == x,
            r.y == y,
    {
        TextPoint { x, y }
    }
}

/// Whether `(x, y)` addresses a cell of a `w x h` grid.
pub open spec fn in_grid(w: int, h: int, x: int, y: int) -> bool {
    0 <= x < w && 0 <= y < h
}

/// `g` has `h` rows of `w` cells each.
pub open spec fn is_grid<T>(g: Seq<Seq<T>>, w: int, h: int) -> bool {
    g.len() == h && forall|y: int| 0 <= y < h ==> (#[trigger] g[y]).len() == w
}

/// The grid of `h` rows of `w` cells, all holding `v`.
pub open spec fn filled<T>(w: int, h: int, v: T) -> Seq<Seq<T>> {
    Seq::new(h as nat, |y: int| Seq::new(w as nat, |x: int| v))
}

/// The cell at `(x, y)`, absent when `(x, y)` lies outside the grid.
pub open spec fn cell<T>(g: Seq<Seq<T>>, x: int, y: int) -> Option<T> {
    if 0 <= y < g.len() && 0 <= x < g[y].len() {
        Some(g[y][x])
    } else {
        None
    }
}

/// The grid with the cell at `(x, y)` replaced by `v`; unchanged when
/// `(x, y)` lies outside the grid.
pub open spec fn put<T>(g: Seq<Seq<T>>, x: int, y: int, v: T) -> Seq<Seq<T>> {
    if 0 <= y < g.len() && 0 <= x < g[y].len() {
        g.update(y, g[y].update(x, v))
    } else {
        g
    }
}

/// Writing `v` at a cell of the grid and then reading that cell gives `v`.
pub proof fn lemma_set_then_get<T>(g: Seq<Seq<T>>, w: int, h: int, x: int, y: int, v: T)
    requires
        is_grid(g, w, h),
        in_grid(w, h, x, y),
    ensures
        cell(put(g, x, y, v), x, y) == Some(v),
{
}

/// A point outside the grid reads as absent whatever the grid holds, and a
/// write there leaves the grid unchanged.
pub proof fn lemma_outside_grid<T>(g: Seq<Seq<T>>, w: int, h: int, x: int, y: int, v: T)
    requires
        is_grid(g, w, h),
        !in_grid(w, h, x, y),
    ensures
        cell(g, x, y) is None,
        put(g, x, y, v) == g,
{
}

/// After the whole grid is filled with `v`, every cell of it reads `v`.
pub proof fn lemma_clear_then_get<T>(w: int, h: int, x: int, y: int, v: T)
    requires
        in_grid(w, h, x, y),
    ensures
        is_grid(filled(w, h, v), w, h),
        cell(filled(w, h, v), x, y) == Some(v),
{
}

/// What a text cell at `(x, y)` reads as: its character, or absent when it
/// was never written or lies outside the grid.
pub open spec fn text_cell(g: Seq<Seq<Option<char>>>, x: int, y: int) -> Option<char> {
    match cell(g, x, y) {
        Some(c) => c,
        None => None,
    }
}

/// Writing `c` at a cell of a text grid and then reading that cell gives
/// `c`.
pub proof fn lemma_text_set_then_get(
    g: Seq<Seq<Option<char>>>,
    w: int,
    h: int,
    x: int,
    y: int,
    c: char,
)
    requires
        is_grid(g, w, h),
        in_grid(w, h, x, y),
    ensures
        text_cell(put(g, x, y, Some(c)), x, y) == Some(c),
{
}

/// A point outside a text grid reads as absent whatever the grid holds, and
/// a write there leaves the grid unchanged.
pub proof fn lemma_text_outside_grid(
    g: Seq<Seq<Option<char>>>,
    w: int,
    h: int,
    x: int,
    y: int,
    c: char,
)
    requires
        is_grid(g, w, h),
        !in_grid(w, h, x, y),
    ensures
        text_cell(g, x, y) is None,
        put(g, x, y, Some(c)) == g,
{
}

/// After a text grid is cleared to `c`, every cell of it reads `c`.
pub proof fn lemma_text_clear_then_get(w: int, h: int, x: int, y: int, c: char)
    requires
        in_grid(w, h, x, y),
    ensures
        is_grid(filled(w, h, Some(c)), w, h),
        text_cell(filled(w, h, Some(c)), x, y) == Some(c),
{
}

/// In a fresh text grid every cell reads as absent.
pub proof fn lemma_text_fresh_is_empty(w: int, h: int, x: int, y: int)
    ensures
        text_cell(filled(w, h, None::<char>), x, y) is None,
{
}

/// A `WIDTH x HEIGHT` grid of characters. A cell holds `None` until
/// something is written to it.
pub struct TextBuffer<const WIDTH: usize, const HEIGHT: usize> {
    rows: [[Option<char>; WIDTH]; HEIGHT],
}

impl<const WIDTH: usize, const HEIGHT: usize> View for TextBuffer<WIDTH, HEIGHT> {
    type V = Seq<Seq<Option<char>>>;

    closed spec fn view(&self) -> Seq<Seq<Option<char>>> {
        Seq::new(HEIGHT as nat, |y: int| self.rows@[y]@)
    }
}

impl<const WIDTH: usize, const HEIGHT: usize> Default for TextBuffer<WIDTH, HEIGHT> {
    fn default() -> (r: Self)
        ensures
            r@ == filled(WIDTH as int, HEIGHT as int, None::<char>),
    {
        Self::new()
    }
}

impl<const WIDTH: usize, const HEIGHT: usize> TextBuffer<WIDTH, HEIGHT> {
    /// A buffer in which nothing is written yet: every cell reads as absent.
    pub fn new() -> (r: Self)
        ensures
            r@ == filled(WIDTH as int, HEIGHT as int, None::<char>),
    {
        let row: [Option<char>; WIDTH] = [None; WIDTH];
        let r = TextBuffer { rows: [row; HEIGHT] };
        assert(row@ =~= Seq::new(WIDTH as nat, |x: int| None::<char>));
        assert(r@ =~= filled(WIDTH as int, HEIGHT as int, None::<char>));
        r
    }

    /// The character at `at`, or `None` when `at` lies outside the buffer or
    /// nothing has been written there.
    pub fn get(&self, at: TextPoint) -> (r: Option<char>)
        ensures
            r == text_cell(self@, at.x as int, at.y as int),
    {
        if 0 <= at.x && (at.x as i128) < (WIDTH as i128) && 0 <= at.y && (at.y as i128) < (HEIGHT as i128) {
            let row: &[Option<char>; WIDTH] = &self.rows[at.y as usize];
            row[at.x as usize]
        } else {
            None
        }
    }

    /// Writes `c` at `(x, y)`; a write outside the buffer is dropped.
    pub(crate) fn put_cell(&mut self, x: i128, y: i128, c: char)
        ensures
            final(self)@ == put(old(self)@, x as int, y as int, Some(c)),
    {
        if 0 <= x && x < (WIDTH as i128) && 0 <= y && y < (HEIGHT as i128) {
            self.rows[y as usize][x as usize] = Some(c);
        }
        assert(final(self)@ =~= put(old(self)@, x as int, y as int, Some(c)));
    }

    /// Writes `c` at `at`; a write outside the buffer is dropped. Returns the
    /// buffer itself so that writes can be chained.
    pub fn set(&mut self, at: TextPoint, c: char) -> (r: &mut Self)
        ensures
            (*r)@ == put(old(self)@, at.x as int, at.y as int, Some(c)),
            *final(self) == *final(r),
    {
        self.put_cell(at.x as i128, at.y as i128, c);
        self
    }

    /// Writes `c` to every cell. Returns the buffer itself so that writes
    /// can be chained.
    pub fn clear(&mut self, c: char) -> (r: &mut Self)
        ensures
            (*r)@ == filled(WIDTH as int, HEIGHT as int, Some(c)),
            *final(self) == *final(r),
    {
        let row: [Option<char>; WIDTH] = [Some(c); WIDTH];
        self.rows = [row; HEIGHT];
        assert(row@ =~= Seq::new(WIDTH as nat, |x: int| Some(c)));
        assert(self@ =~= filled(WIDTH as int, HEIGHT as int, Some(c)));
        self
    }

    /// The buffer has `HEIGHT` rows of `WIDTH` cells.
    pub proof fn lemma_shape(&self)
        ensures
            is_grid(self@, WIDTH as int, HEIGHT as int),
    {
    }
}

/// A `WIDTH x HEIGHT` grid of 8-bit intensities.
pub struct PixelBuffer<const WIDTH: usize, const HEIGHT: usize> {
    rows: [[u8; WIDTH]; HEIGHT],
}

impl<const WIDTH: usize, const HEIGHT: usize> View for PixelBuffer<WIDTH, HEIGHT> {
    type V = Seq<Seq<u8>>;

    closed spec fn view(&self) -> Seq<Seq<u8>> {
        Seq::new(HEIGHT as nat, |y: int| self.rows@[y]@)
    }
}

impl<const WIDTH: usize, const HEIGHT: usize> Default for PixelBuffer<WIDTH, HEIGHT> {
    fn default() -> (r: Self)
        ensures
            r@ == filled(WIDTH as int, HEIGHT as int, 0u8),
    {
        Self::new()
    }
}

impl<const WIDTH: usize, const HEIGHT: usize> PixelBuffer<WIDTH, HEIGHT> {
    /// A buffer whose cells all hold `0`.
    pub fn new() -> (r: Self)
        ensures
            r@ == filled(WIDTH as int, HEIGHT as int, 0u8),
    {
        let row: [u8; WIDTH] = [0u8; WIDTH];
        let r = PixelBuffer { rows: [row; HEIGHT] };
        assert(row@ =~= Seq::new(WIDTH as nat, |x: int| 0u8));
        assert(r@ =~= filled(WIDTH as int, HEIGHT as int, 0u8));
        r
    }

    /// The intensity at `at`, or `None` when `at` lies outside the buffer.
    pub fn get(&self, at: PixelPoint) -> (r: Option<u8>)
        ensures
            r == cell(self@, at.x as int, at.y as int),
    {
        if 0 <= at.x && (at.x as i128) < (WIDTH as i128) && 0 <= at.y && (at.y as i128) < (HEIGHT as i128) {
            let row: &[u8; WIDTH] = &self.rows[at.y as usize];
            Some(row[at.x as usize])
        } else {
            None
        }
    }

    /// Writes `v` at `(x, y)`; a write outside the buffer is dropped.
    pub(crate) fn put_cell(&mut self, x: i128, y: i128, v: u8)
        ensures
            final(self)@ == put(old(self)@, x as int, y as int, v),
    {
        if 0 <= x && x < (WIDTH as i128) && 0 <= y && y < (HEIGHT as i128) {
            self.rows[y as usize][x as usize] = v;
        }
        assert(final(self)@ =~= put(old(self)@, x as int, y as int, v));
    }

    /// Writes `v` at `at`; a write outside the buffer is dropped. Returns the
    /// buffer itself so that writes can be chained.
    pub fn set(&mut self, at: PixelPoint, v: u8) -> (r: &mut Self)
        ensures
            (*r)@ == put(old(self)@, at.x as int, at.y as int, v),
            *final(self) == *final(r),
    {
        self.put_cell(at.x as i128, at.y as i128, v);
        self
    }

    /// Overwrites every cell with `v`. Returns the buffer itself so that
    /// writes can be chained.
    pub fn clear(&mut self, v: u8) -> (r: &mut Self)
        ensures
            (*r)@ == filled(WIDTH as int, HEIGHT as int, v),
            *final(self) == *final(r),
    {
        let row: [u8; WIDTH] = [v; WIDTH];
        self.rows = [row; HEIGHT];
        assert(row@ =~= Seq::new(WIDTH as nat, |x: int| v));
        assert(self@ =~= filled(WIDTH as int, HEIGHT as int, v));
        self
    }

    /// The buffer has `HEIGHT` rows of `WIDTH` cells.
    pub proof fn lemma_shape(&self)
        ensures
            is_grid(self@, WIDTH as int, HEIGHT as int),
    {
    }
}

} // verus!
