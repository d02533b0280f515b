use vstd::prelude::*;

verus! {

/// A cell coordinate: column `x`, row `y`, rows growing downward.
#[derive(Clone, Copy, Debug, PartialEq, Eq, Structural)]
pub struct Pixel {
    pub x: usize,
    pub y: usize,
}

/// A rectangular grid with static landscape cells and one movable figure.
#[derive(Debug)]
pub struct Field {
    pub width: usize,
    pub height: usize,
    pub landscape: Vec<Pixel>,
    pub figure: Vec<Pixel>,
}

/// Whether some pixel of `pixels` sits at column `x`, row `y`.
pub open spec fn covers(pixels: Seq<Pixel>, x: int, y: int) -> bool {
    exists|i: int| 0 <= i < pixels.len() && pixels[i].x == x && pixels[i].y == y
}

/// Every pixel of `pixels` lies inside a `width` by `height` grid.
pub open spec fn inside(pixels: Seq<Pixel>, width: int, height: int) -> bool {
    forall|i: int| 0 <= i < pixels.len() ==> pixels[i].x < width && pixels[i].y < height
}

/// The symbol of a figure cell.
pub open spec fn figure_symbol() -> char {
    'p'
}

/// The symbol of a landscape cell.
pub open spec fn landscape_symbol() -> char {
    '#'
}

/// The symbol of an empty cell.
pub open spec fn empty_symbol() -> char {
    '.'
}

impl Field {
    /// All landscape and figure cells lie inside the grid.
    pub open spec fn wf(&self) -> bool {
        &&& inside(self.landscape@, self.width as int, self.height as int)
        &&& inside(self.figure@, self.width as int, self.height as int)
    }

    /// Classification of the cell at (x, y): figure first, then landscape, else empty.
    pub open spec fn symbol_at(&self, x: int, y: int) -> char {
        if covers(self.figure@, x, y) {
            figure_symbol()
        } else if covers(self.landscape@, x, y) {
            landscape_symbol()
        } else {
            empty_symbol()
        }
    }

    /// An empty grid of the given size.
    pub fn new(width: usize, height: usize) -> (r: Field)
        ensures
            r.width == width,
            r.height == height,
            r.landscape@ == Seq::<Pixel>::empty(),
            r.figure@ == Seq::<Pixel>::empty(),
            r.wf(),
    {
        Field { width, height, landscape: Vec::new(), figure: Vec::new() }
    }

    /// The classification symbol of the cell at (x, y); a cell outside the grid reads as empty.
    pub fn get(&self, x: usize, y: usize) -> (r: char)
        ensures
            r == self.symbol_at(x as int, y as int),
    {
        if contains_cell(&self.figure, x, y) {
            'p'
        } else if contains_cell(&self.landscape, x, y) {
            '#'
        } else {
            '.'
        }
    }
}

impl Field {
    /// Every figure cell can move one row down: the row below is inside the grid
    /// and holds no landscape.
    pub open spec fn can_fall(&self) -> bool {
        forall|i: int|
            0 <= i < self.figure@.len() ==> {
                let p = #[trigger] self.figure@[i];
                &&& p.y + 1 < self.height
                &&& !covers(self.landscape@, p.x as int, p.y + 1)
            }
    }

    /// One text line of the rendering: the symbols of row `y`, then a newline.
    pub open spec fn row_text(&self, y: int) -> Seq<char> {
        Seq::new(self.width as nat, |x: int| self.symbol_at(x, y)).push('\n')
    }

    /// The first `n` rows of the rendering, top row first.
    pub open spec fn rows_text(&self, n: nat) -> Seq<char>
        decreases n,
    {
        if n == 0 {
            Seq::empty()
        } else {
            self.rows_text((n - 1) as nat) + self.row_text(n - 1)
        }
    }

    /// The whole rendering: `height` lines of `width` symbols each.
    pub open spec fn rendered(&self) -> Seq<char> {
        self.rows_text(self.height as nat)
    }

    /// The symbol of the cell at (x, y) as text of one character.
    fn symbol_text(&self, x: usize, y: usize) -> (r: &'static str)
        ensures
            r@ == seq![self.symbol_at(x as int, y as int)],
    {
        proof {
            reveal_strlit("p");
            reveal_strlit("#");
            reveal_strlit(".");
        }
        if contains_cell(&self.figure, x, y) {
            "p"
        } else if contains_cell(&self.landscape, x, y) {
            "#"
        } else {
            "."
        }
    }

    /// Renders the grid row by row: `p` for figure, `#` for landscape, `.` for empty,
    /// each row ended by a newline.
    pub fn to_string(&self) -> (r: String)
        ensures
            r@ == self.rendered(),
    {
        proof {
            reveal_strlit("\n");
        }
        let mut out = String::new();
        let mut y: usize = 0;
        while y < self.height
            invariant
                y <= self.height,
                out@ == self.rows_text(y as nat),
            decreases self.height - y,
        {
            let mut x: usize = 0;
            while x < self.width
                invariant
                    x <= self.width,
                    y < self.height,
                    out@ == self.rows_text(y as nat) + Seq::new(
                        x as nat,
                        |i: int| self.symbol_at(i, y as int),
                    ),
                decreases self.width - x,
            {
                let cell = self.symbol_text(x, y);
                out.append(cell);
                x = x + 1;
            }
            let ghost line = out@;
            out.append("\n");
            proof {
                reveal_strlit("\n");
                assert(out@ == line + seq!['\n']);
                assert(line + seq!['\n'] =~= self.rows_text(y as nat) + self.row_text(y as int));
            }
            y = y + 1;
        }
        out
    }

    /// Moves the whole figure one row down if every cell of it can move; otherwise
    /// leaves it in place. Returns whether it moved.
    pub fn tick(&mut self) -> (moved: bool)
        requires
            old(self).wf(),
        ensures
            moved == old(self).can_fall(),
            final(self).wf(),
            final(self).width == old(self).width,
            final(self).height == old(self).height,
            final(self).landscape@ == old(self).landscape@,
            final(self).figure@.len() == old(self).figure@.len(),
            moved ==> forall|i: int|
                0 <= i < final(self).figure@.len() ==> {
                    let p = #[trigger] old(self).figure@[i];
                    &&& final(self).figure@[i].x == p.x
                    &&& final(self).figure@[i].y == p.y + 1
                    &&& final(self).figure@[i].y < final(self).height
                    &&& !covers(final(self).landscape@, p.x as int, p.y + 1)
                },
            !moved ==> final(self).figure@ == old(self).figure@,
    {
        let mut i: usize = 0;
        while i < self.figure.len()
            invariant
                *self == *old(self),
                self.wf(),
                i <= self.figure@.len(),
                forall|j: int|
                    0 <= j < i ==> {
                        let p = #[trigger] self.figure@[j];
                        &&& p.y + 1 < self.height
                        &&& !covers(self.landscape@, p.x as int, p.y + 1)
                    },
            decreases self.figure.len() - i,
        {
            let p = self.figure[i];
            let below = p.y + 1;
            if below == self.height || contains_cell(&self.landscape, p.x, below) {
                return false;
            }
            i = i + 1;
        }
        let ghost before = self.figure@;
        let mut k: usize = 0;
        while k < self.figure.len()
            invariant
                self.width == old(self).width,
                self.height == old(self).height,
                self.landscape@ == old(self).landscape@,
                before == old(self).figure@,
                self.figure@.len() == before.len(),
                k <= before.len(),
                inside(self.landscape@, self.width as int, self.height as int),
                forall|j: int|
                    0 <= j < before.len() ==> {
                        let p = #[trigger] before[j];
                        &&& p.x < self.width
                        &&& p.y + 1 < self.height
                        &&& !covers(self.landscape@, p.x as int, p.y + 1)
                    },
                forall|j: int|
                    0 <= j < k ==> self.figure@[j] == (Pixel { x: before[j].x, y: (before[j].y + 1) as usize }),
                forall|j: int| k <= j < before.len() ==> self.figure@[j] == before[j],
            decreases before.len() - k,
        {
            let p = self.figure[k];
            assert(p == before[k as int]);
            self.figure.set(k, Pixel { x: p.x, y: p.y + 1 });
            k = k + 1;
        }
        true
    }
}

/// A figure with a cell on the bottom row cannot fall: `tick` then returns `false`
/// and leaves the field as it was.
pub proof fn lemma_floor_blocks(f: Field, i: int)
    requires
        0 <= i < f.figure@.len(),
        f.figure@[i].y + 1 == f.height,
    ensures
        !f.can_fall(),
{
    assert(!(f.figure@[i].y + 1 < f.height));
}

/// A figure with a cell right above a landscape cell cannot fall: `tick` then
/// returns `false` and leaves the field as it was.
pub proof fn lemma_landscape_blocks(f: Field, i: int, j: int)
    requires
        0 <= i < f.figure@.len(),
        0 <= j < f.landscape@.len(),
        f.landscape@[j].x == f.figure@[i].x,
        f.landscape@[j].y == f.figure@[i].y + 1,
    ensures
        !f.can_fall(),
{
    let p = f.figure@[i];
    assert(covers(f.landscape@, p.x as int, p.y + 1));
}

/// The rendering depends on nothing but the size of the grid and the classification
/// of its cells; in particular, rendering a field twice with no tick in between
/// gives the same text both times.
pub proof fn lemma_render_by_cells(a: Field, b: Field)
    requires
        a.width == b.width,
        a.height == b.height,
        forall|x: int, y: int|
            0 <= x < a.width && 0 <= y < a.height ==> #[trigger] a.symbol_at(x, y) == b.symbol_at(
                x,
                y,
            ),
    ensures
        a.rendered() == b.rendered(),
{
    lemma_rows_by_cells(a, b, a.height as nat);
}

proof fn lemma_rows_by_cells(a: Field, b: Field, n: nat)
    requires
        n <= a.height,
        a.width == b.width,
        a.height == b.height,
        forall|x: int, y: int|
            0 <= x < a.width && 0 <= y < a.height ==> #[trigger] a.symbol_at(x, y) == b.symbol_at(
                x,
                y,
            ),
    ensures
        a.rows_text(n) == b.rows_text(n),
    decreases n,
{
    if n > 0 {
        lemma_rows_by_cells(a, b, (n - 1) as nat);
        assert(a.row_text(n - 1) =~= b.row_text(n - 1));
    }
}

/// Linear scan of `pixels` for the cell (x, y).
fn contains_cell(pixels: &Vec<Pixel>, x: usize, y: usize) -> (r: bool)
    ensures
        r == covers(pixels@, x as int, y as int),
{
    let mut i: usize = 0;
    while i < pixels.len()
        invariant
            i <= pixels.len(),
            forall|j: int| 0 <= j < i ==> !(pixels@[j].x == x && pixels@[j].y == y),
        decreases pixels.len() - i,
    {
        if pixels[i].x == x && pixels[i].y == y {
            return true;
        }
        i = i + 1;
    }
    false
}

} // verus!
