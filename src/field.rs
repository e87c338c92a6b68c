use vstd::prelude::*;

verus! {

/// The hottest heat level; levels run from 0 (dark) to this value.
pub const MAX_HEAT: usize = 35;

/// How many rows at the bottom of the field the cooling pass works on.
pub const COOL_ROWS: usize = 5;

/// `a - b`, or 0 where that would be negative.
pub open spec fn sat_sub(a: int, b: int) -> int {
    if a >= b {
        a - b
    } else {
        0
    }
}

/// Every cell holds at most `m`.
pub open spec fn bounded_by(cells: Seq<usize>, m: int) -> bool {
    forall|i: int| 0 <= i < cells.len() ==> cells[i] <= m
}

/// Every cell at index `b` or later is dark.
pub open spec fn dark_from(cells: Seq<usize>, b: int) -> bool {
    forall|i: int| b <= i < cells.len() ==> cells[i] == 0
}

/// Every cell is dark.
pub open spec fn all_dark(cells: Seq<usize>) -> bool {
    dark_from(cells, 0)
}

/// The index where the bottom row of a `width` by `height` field starts.
pub open spec fn bottom_start(width: nat, height: nat) -> int {
    width * (height - 1)
}

/// The index where the rows that the cooling pass works on start.
pub open spec fn cool_start(width: nat, height: nat) -> int {
    if height >= COOL_ROWS {
        width * (height - COOL_ROWS)
    } else {
        0
    }
}

/// The field at start-up: the bottom row at full heat, every other cell dark.
pub open spec fn seeded(width: nat, height: nat) -> Seq<usize> {
    Seq::new(width * height, |i: int| if i >= bottom_start(width, height) { MAX_HEAT } else { 0usize })
}

/// The bottom row set back to full heat, the rest unchanged.
pub open spec fn reseed(cells: Seq<usize>, width: nat, height: nat) -> Seq<usize> {
    Seq::new(cells.len(), |i: int| if i >= bottom_start(width, height) { MAX_HEAT } else { cells[i] })
}

/// The cooling pass: each lit cell of the bottom rows loses its draw.
pub open spec fn cool_cells(cells: Seq<usize>, width: nat, height: nat, draws: Seq<usize>) -> Seq<usize> {
    Seq::new(
        cells.len(),
        |i: int|
            if i >= cool_start(width, height) && cells[i] > 0 {
                (cells[i] - draws[i]) as usize
            } else {
                cells[i]
            },
    )
}

/// The index that heat from `from` lands on, for a jitter draw `jitter`.
pub open spec fn target_of(width: int, from: int, jitter: usize) -> int {
    sat_sub(from - width, jitter as int)
}

/// One propagation from cell `from` to the row above: a dark cell darkens
/// the cell right above it, a lit one copies its heat, less the low bit of
/// the draw, to a cell up to three places to the left of that one.
pub open spec fn spread_cell(cells: Seq<usize>, width: int, from: int, jitter: usize) -> Seq<usize> {
    if cells[from] == 0 {
        cells.update(from - width, 0)
    } else {
        cells.update(target_of(width, from, jitter), sat_sub(cells[from] as int, jitter as int % 2) as usize)
    }
}

/// The propagations of column `x` from rows `1 .. y`, in that order.
pub open spec fn spread_column(cells: Seq<usize>, width: int, x: int, y: int, jitters: Seq<usize>) -> Seq<usize>
    decreases y,
{
    if y <= 1 {
        cells
    } else {
        let from = (y - 1) * width + x;
        spread_cell(spread_column(cells, width, x, y - 1, jitters), width, from, jitters[from])
    }
}

/// The propagations of columns `0 .. x`, one whole column after the other.
pub open spec fn spread_columns(cells: Seq<usize>, width: int, height: int, x: int, jitters: Seq<usize>) -> Seq<usize>
    decreases x,
{
    if x <= 0 {
        cells
    } else {
        spread_column(spread_columns(cells, width, height, x - 1, jitters), width, x - 1, height, jitters)
    }
}

/// The cell of column `x` and row `y` lies inside the field, and past the
/// first row when `y` is not 0.
pub proof fn lemma_cell_index(width: int, height: int, x: int, y: int)
    requires
        0 <= x < width,
        0 <= y < height,
    ensures
        0 <= y * width + x < width * height,
        y >= 1 ==> y * width + x >= width,
{
    assert(0 <= y * width + x < width * height) by (nonlinear_arith)
        requires
            0 <= x < width,
            0 <= y < height,
    ;
    assert(y >= 1 ==> y * width + x >= width) by (nonlinear_arith)
        requires
            0 <= x < width,
            0 <= y,
    ;
}

/// One propagation keeps the length, and keeps every cell at most `m`.
pub proof fn lemma_spread_cell_bounded(cells: Seq<usize>, width: int, from: int, jitter: usize, m: int)
    requires
        0 < width <= from < cells.len(),
        bounded_by(cells, m),
        m >= 0,
    ensures
        spread_cell(cells, width, from, jitter).len() == cells.len(),
        bounded_by(spread_cell(cells, width, from, jitter), m),
{
    let to = target_of(width, from, jitter);
    assert(0 <= to <= from - width);
    assert(0 <= sat_sub(cells[from] as int, jitter as int % 2) <= cells[from]);
}

/// The propagations of a column keep the length and the bound `m`.
pub proof fn lemma_spread_column_bounded(
    cells: Seq<usize>,
    width: int,
    height: int,
    x: int,
    y: int,
    jitters: Seq<usize>,
    m: int,
)
    requires
        cells.len() == width * height,
        0 <= x < width,
        y <= height,
        height > 0,
        bounded_by(cells, m),
        m >= 0,
    ensures
        spread_column(cells, width, x, y, jitters).len() == cells.len(),
        bounded_by(spread_column(cells, width, x, y, jitters), m),
    decreases y,
{
    if y > 1 {
        lemma_spread_column_bounded(cells, width, height, x, y - 1, jitters, m);
        lemma_cell_index(width, height, x, y - 1);
        let prev = spread_column(cells, width, x, y - 1, jitters);
        let from = (y - 1) * width + x;
        lemma_spread_cell_bounded(prev, width, from, jitters[from], m);
    }
}

/// The propagations of whole columns keep the length and the bound `m`.
pub proof fn lemma_spread_columns_bounded(
    cells: Seq<usize>,
    width: int,
    height: int,
    x: int,
    jitters: Seq<usize>,
    m: int,
)
    requires
        cells.len() == width * height,
        x <= width,
        height > 0,
        bounded_by(cells, m),
        m >= 0,
    ensures
        spread_columns(cells, width, height, x, jitters).len() == cells.len(),
        bounded_by(spread_columns(cells, width, height, x, jitters), m),
    decreases x,
{
    if x > 0 {
        lemma_spread_columns_bounded(cells, width, height, x - 1, jitters, m);
        lemma_spread_column_bounded(
            spread_columns(cells, width, height, x - 1, jitters),
            width,
            height,
            x - 1,
            height,
            jitters,
            m,
        );
    }
}

/// Every reachable field keeps its heat within `0 ..= MAX_HEAT`: a step from a
/// well-formed field gives a well-formed field.
pub proof fn lemma_step_keeps_heat_bounded(v: FieldView, jitters: Seq<usize>, cools: Seq<usize>)
    requires
        v.inv(),
        v.draws_fit(jitters, cools),
    ensures
        v.step(jitters, cools).inv(),
        v.step(jitters, cools).width == v.width,
        v.step(jitters, cools).height == v.height,
        v.step(jitters, cools).stopped == v.stopped,
{
    let p = v.prepared(cools);
    assert(bounded_by(p, MAX_HEAT as int));
    lemma_spread_columns_bounded(p, v.width as int, v.height as int, v.width as int, jitters, MAX_HEAT as int);
}

/// What a heat field is, seen from outside.
pub struct FieldView {
    pub width: nat,
    pub height: nat,
    /// Heat levels, row-major: the cell of column `x` and row `y` is at `y * width + x`.
    pub cells: Seq<usize>,
    /// Ignition has been stopped.
    pub stopped: bool,
}

impl FieldView {
    pub open spec fn inv(self) -> bool {
        &&& self.width > 0
        &&& self.height > 0
        &&& self.width * self.height <= usize::MAX
        &&& self.cells.len() == self.width * self.height
        &&& bounded_by(self.cells, MAX_HEAT as int)
    }

    /// The draws of one step fit this field: one of each kind per cell, and
    /// the cooling draws are the rounded values of numbers in `[0, 1)`.
    pub open spec fn draws_fit(self, jitters: Seq<usize>, cools: Seq<usize>) -> bool {
        &&& jitters.len() == self.cells.len()
        &&& cools.len() == self.cells.len()
        &&& forall|i: int| 0 <= i < cools.len() ==> cools[i] <= 1
    }

    /// The cells just before propagation: reseeded while igniting, cooled after.
    pub open spec fn prepared(self, cools: Seq<usize>) -> Seq<usize> {
        if self.stopped {
            cool_cells(self.cells, self.width, self.height, cools)
        } else {
            reseed(self.cells, self.width, self.height)
        }
    }

    /// The field after one step with the given draws.
    pub open spec fn step(self, jitters: Seq<usize>, cools: Seq<usize>) -> FieldView {
        FieldView {
            cells: spread_columns(self.prepared(cools), self.width as int, self.height as int, self.width as int, jitters),
            ..self
        }
    }
}

/// A heat field and its simulation state.
pub struct BufferContainer {
    width: usize,
    height: usize,
    write_frame_buffer: Vec<usize>,
    stop: bool,
    done: bool,
}

impl View for BufferContainer {
    type V = FieldView;

    closed spec fn view(&self) -> FieldView {
        FieldView {
            width: self.width as nat,
            height: self.height as nat,
            cells: self.write_frame_buffer@,
            stopped: self.stop,
        }
    }
}

impl BufferContainer {
    pub closed spec fn wf(&self) -> bool {
        &&& self@.inv()
        &&& self.done == all_dark(self.write_frame_buffer@)
    }

    /// A field of `width` by `height` cells with the bottom row at full heat.
    pub fn new(width: usize, height: usize) -> (r: Self)
        requires
            width > 0,
            height > 0,
            width * height <= usize::MAX,
        ensures
            r.wf(),
            r@.width == width,
            r@.height == height,
            r@.cells == seeded(width as nat, height as nat),
            !r@.stopped,
    {
        let n: usize = width * height;
        assert(width * (height - 1) == width * height - width) by (nonlinear_arith);
        let bottom_row: usize = n - width;
        let mut frame_buffer: Vec<usize> = Vec::new();
        let mut i: usize = 0;
        while i < n
            invariant
                i <= n,
                frame_buffer@ =~= seeded(width as nat, height as nat).subrange(0, i as int),
                n == width * height,
                bottom_row == width * (height - 1),
            decreases n - i,
        {
            if i >= bottom_row {
                frame_buffer.push(MAX_HEAT);
            } else {
                frame_buffer.push(0);
            }
            i += 1;
        }
        assert(frame_buffer@ =~= seeded(width as nat, height as nat));
        assert(frame_buffer@[bottom_row as int] == MAX_HEAT);
        BufferContainer { width, height, write_frame_buffer: frame_buffer, stop: false, done: false }
    }

    /// Stops ignition for the rest of the field's life: from now on no heat
    /// is added and every step cools the bottom rows.
    pub fn stop_flames(&mut self)
        requires
            old(self).wf(),
        ensures
            final(self).wf(),
            final(self)@ == (FieldView { stopped: true, ..old(self)@ }),
    {
        self.stop = true;
    }

    /// One propagation from cell `from`; see `spread_cell`.
    fn spread_fire(&mut self, from: usize, rand_val: usize)
        requires
            old(self)@.inv(),
            old(self).width <= from < old(self).write_frame_buffer.len(),
        ensures
            final(self)@ == (FieldView {
                cells: spread_cell(old(self)@.cells, old(self).width as int, from as int, rand_val),
                ..old(self)@
            }),
            final(self).done == old(self).done,
    {
        if self.write_frame_buffer[from] == 0 {
            self.write_frame_buffer.set(from - self.width, 0);
        } else {
            let to: usize = (from - self.width).saturating_sub(rand_val);
            let heat: usize = self.write_frame_buffer[from].saturating_sub(rand_val & 1);
            assert(rand_val & 1 == rand_val % 2) by (bit_vector);
            self.write_frame_buffer.set(to, heat);
        }
    }

    /// Sets every cell of the bottom row back to full heat.
    fn ignite_row(&mut self)
        requires
            old(self)@.inv(),
        ensures
            final(self)@ == (FieldView {
                cells: reseed(old(self)@.cells, old(self)@.width, old(self)@.height),
                ..old(self)@
            }),
            final(self).done == old(self).done,
    {
        let n: usize = self.write_frame_buffer.len();
        proof {
            assert(self.width * (self.height - 1) == self.width * self.height - self.width)
                by (nonlinear_arith);
        }
        let mut i: usize = n - self.width;
        let ghost start = self.write_frame_buffer@;
        while i < n
            invariant
                n == self.write_frame_buffer.len(),
                n == start.len(),
                n == self.width * self.height,
                bottom_start(self.width as nat, self.height as nat) <= i <= n,
                self.width == old(self).width,
                self.height == old(self).height,
                self.stop == old(self).stop,
                self.done == old(self).done,
                start == old(self).write_frame_buffer@,
                forall|k: int|
                    0 <= k < n ==> self.write_frame_buffer@[k] == (if k >= bottom_start(
                        self.width as nat,
                        self.height as nat,
                    ) && k < i {
                        MAX_HEAT
                    } else {
                        start[k]
                    }),
            decreases n - i,
        {
            self.write_frame_buffer.set(i, MAX_HEAT);
            i += 1;
        }
        assert(self.write_frame_buffer@ =~= reseed(start, self.width as nat, self.height as nat));
    }

    /// The cooling pass over the bottom rows, from the bottom edge upward.
    fn cool_flames(&mut self, cools: &Vec<usize>)
        requires
            old(self)@.inv(),
            cools.len() == old(self)@.cells.len(),
            forall|i: int| 0 <= i < cools.len() ==> cools[i] <= 1,
        ensures
            final(self)@ == (FieldView {
                cells: cool_cells(old(self)@.cells, old(self)@.width, old(self)@.height, cools@),
                ..old(self)@
            }),
            final(self).done == old(self).done,
    {
        let n: usize = self.write_frame_buffer.len();
        let start: usize = if self.height >= COOL_ROWS {
            proof {
                assert(self.width * (self.height - COOL_ROWS) <= self.width * self.height)
                    by (nonlinear_arith)
                    requires
                        self.height >= COOL_ROWS,
                ;
            }
            self.width * (self.height - COOL_ROWS)
        } else {
            0
        };
        let ghost first = self.write_frame_buffer@;
        let mut pos: usize = n;
        while pos > start
            invariant
                n == self.write_frame_buffer.len(),
                n == first.len(),
                n == cools.len(),
                start == cool_start(self.width as nat, self.height as nat),
                start <= pos <= n,
                self.width == old(self).width,
                self.height == old(self).height,
                self.stop == old(self).stop,
                self.done == old(self).done,
                first == old(self).write_frame_buffer@,
                forall|i: int| 0 <= i < cools.len() ==> cools[i] <= 1,
                forall|k: int|
                    0 <= k < n ==> self.write_frame_buffer@[k] == (if k >= pos {
                        cool_cells(first, self.width as nat, self.height as nat, cools@)[k]
                    } else {
                        first[k]
                    }),
            decreases pos,
        {
            pos -= 1;
            if self.write_frame_buffer[pos] > 0 {
                let draw: usize = cools[pos];
                let loss: usize = draw & 3;
                assert(draw & 3 == draw) by (bit_vector)
                    requires
                        draw <= 1,
                ;
                let heat: usize = self.write_frame_buffer[pos] - loss;
                self.write_frame_buffer.set(pos, heat);
            }
        }
        assert(self.write_frame_buffer@ =~= cool_cells(first, self.width as nat, self.height as nat, cools@));
    }

    /// The propagation pass: column by column, each from its second row down
    /// to its bottom row.
    fn spread_all(&mut self, jitters: &Vec<usize>)
        requires
            old(self)@.inv(),
            jitters.len() == old(self)@.cells.len(),
        ensures
            final(self)@ == (FieldView {
                cells: spread_columns(
                    old(self)@.cells,
                    old(self).width as int,
                    old(self).height as int,
                    old(self).width as int,
                    jitters@,
                ),
                ..old(self)@
            }),
            final(self).done == old(self).done,
    {
        let w: usize = self.width;
        let h: usize = self.height;
        let ghost first = self.write_frame_buffer@;
        let mut x: usize = 0;
        while x < w
            invariant
                x <= w,
                w == self.width,
                h == self.height,
                w == old(self).width,
                h == old(self).height,
                self.stop == old(self).stop,
                self.done == old(self).done,
                first == old(self).write_frame_buffer@,
                old(self)@.inv(),
                jitters.len() == first.len(),
                self.write_frame_buffer@ == spread_columns(first, w as int, h as int, x as int, jitters@),
            decreases w - x,
        {
            let ghost col_start = self.write_frame_buffer@;
            proof {
                lemma_spread_columns_bounded(first, w as int, h as int, x as int, jitters@, MAX_HEAT as int);
            }
            let mut y: usize = 1;
            while y < h
                invariant
                    x < w,
                    1 <= y <= h,
                    w == self.width,
                    h == self.height,
                    w == old(self).width,
                    h == old(self).height,
                    self.stop == old(self).stop,
                    self.done == old(self).done,
                    old(self)@.inv(),
                    first == old(self).write_frame_buffer@,
                    jitters.len() == first.len(),
                    col_start == spread_columns(first, w as int, h as int, x as int, jitters@),
                    col_start.len() == first.len(),
                    bounded_by(col_start, MAX_HEAT as int),
                    self.write_frame_buffer@ == spread_column(col_start, w as int, x as int, y as int, jitters@),
                decreases h - y,
            {
                proof {
                    lemma_cell_index(w as int, h as int, x as int, y as int);
                    lemma_spread_column_bounded(col_start, w as int, h as int, x as int, y as int, jitters@, MAX_HEAT as int);
                }
                let from: usize = y * w + x;
                self.spread_fire(from, jitters[from]);
                y += 1;
            }
            x += 1;
        }
    }

    /// Every cell is dark.
    fn all_black(&self) -> (r: bool)
        ensures
            r == all_dark(self.write_frame_buffer@),
    {
        let mut i: usize = 0;
        let mut black: bool = true;
        while i < self.write_frame_buffer.len() && black
            invariant
                i <= self.write_frame_buffer.len(),
                black == dark_from(self.write_frame_buffer@.subrange(0, i as int), 0),
            decreases self.write_frame_buffer.len() - i,
        {
            if self.write_frame_buffer[i] != 0 {
                black = false;
            }
            i += 1;
            assert(self.write_frame_buffer@.subrange(0, i as int).last() == self.write_frame_buffer@[i - 1]);
        }
        if black {
            assert(self.write_frame_buffer@.subrange(0, i as int) =~= self.write_frame_buffer@);
        } else {
            let ghost sub = self.write_frame_buffer@.subrange(0, i as int);
            let ghost k = choose|k: int| 0 <= k < sub.len() && sub[k] != 0;
            assert(self.write_frame_buffer@[k] != 0);
        }
        black
    }

    /// One simulation step with the given draws: the bottom row is reseeded
    /// while igniting, or cooled once ignition has stopped, then every cell
    /// but those of the top row propagates to the row above.
    /// `jitters[i]` is the rounded value of three times a number in `[0, 1)`
    /// drawn for cell `i`; `cools[i]` the rounded value of a number in `[0, 1)`.
    pub fn next_frame(&mut self, jitters: &Vec<usize>, cools: &Vec<usize>)
        requires
            old(self).wf(),
            old(self)@.draws_fit(jitters@, cools@),
        ensures
            final(self).wf(),
            final(self)@ == old(self)@.step(jitters@, cools@),
    {
        proof {
            lemma_step_keeps_heat_bounded(self@, jitters@, cools@);
        }
        if self.stop {
            self.cool_flames(cools);
        } else {
            self.ignite_row();
        }
        self.spread_all(jitters);
        self.done = self.all_black();
    }

    /// A copy of the heat levels, to hand to a renderer.
    pub fn snapshot(&self) -> (r: Vec<usize>)
        ensures
            r@ == self@.cells,
    {
        let mut out: Vec<usize> = Vec::new();
        let mut i: usize = 0;
        while i < self.write_frame_buffer.len()
            invariant
                i <= self.write_frame_buffer.len(),
                out@ =~= self.write_frame_buffer@.subrange(0, i as int),
            decreases self.write_frame_buffer.len() - i,
        {
            out.push(self.write_frame_buffer[i]);
            i += 1;
        }
        assert(out@ =~= self.write_frame_buffer@);
        out
    }

    pub fn width(&self) -> (r: usize)
        ensures
            r == self@.width,
    {
        self.width
    }

    pub fn height(&self) -> (r: usize)
        ensures
            r == self@.height,
    {
        self.height
    }

    /// Ignition has been stopped.
    pub fn is_stopped(&self) -> (r: bool)
        ensures
            r == self@.stopped,
    {
        self.stop
    }

    /// Every cell is dark: the simulation is over.
    pub fn is_done(&self) -> (r: bool)
        requires
            self.wf(),
        ensures
            r == all_dark(self@.cells),
    {
        self.done
    }

    /// The heat levels, row-major.
    pub fn cells(&self) -> (r: &Vec<usize>)
        ensures
            r@ == self@.cells,
    {
        &self.write_frame_buffer
    }
}

} // verus!
