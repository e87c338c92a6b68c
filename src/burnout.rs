use vstd::prelude::*;
use crate::field::{
    all_dark, bottom_start, bounded_by, dark_from, lemma_cell_index, lemma_spread_columns_bounded,
    lemma_step_keeps_heat_bounded, sat_sub, spread_cell, spread_column, spread_columns, target_of,
    FieldView, MAX_HEAT,
};

verus! {

/// One propagation writes a single cell, at least a full row above its
/// source: every cell past `from - width` keeps its value, and the cell that
/// is written gets either darkness or the source's heat less at most one.
pub proof fn lemma_spread_moves_heat_upward(cells: Seq<usize>, width: int, from: int, jitter: usize)
    requires
        0 < width <= from < cells.len(),
    ensures
        ({
            let r = spread_cell(cells, width, from, jitter);
            let to = if cells[from] == 0 { from - width } else { target_of(width, from, jitter) };
            &&& r.len() == cells.len()
            &&& 0 <= to <= from - width
            &&& forall|i: int| 0 <= i < cells.len() && i != to ==> r[i] == cells[i]
            &&& r[to] == 0 || r[to] == cells[from] || r[to] + 1 == cells[from]
        }),
{
}

/// The propagations of a column never write the bottom row.
proof fn lemma_spread_column_keeps_bottom(cells: Seq<usize>, width: int, height: int, x: int, y: int, jitters: Seq<usize>)
    requires
        cells.len() == width * height,
        0 <= x < width,
        y <= height,
        height > 0,
    ensures
        spread_column(cells, width, x, y, jitters).len() == cells.len(),
        forall|i: int|
            width * (height - 1) <= i < cells.len() ==> #[trigger] spread_column(cells, width, x, y, jitters)[i]
                == cells[i],
    decreases y,
{
    if y > 1 {
        lemma_spread_column_keeps_bottom(cells, width, height, x, y - 1, jitters);
        lemma_cell_index(width, height, x, y - 1);
        assert(width * (height - 1) == width * height - width) by (nonlinear_arith);
    }
}

proof fn lemma_spread_columns_keep_bottom(cells: Seq<usize>, width: int, height: int, x: int, jitters: Seq<usize>)
    requires
        cells.len() == width * height,
        x <= width,
        height > 0,
    ensures
        spread_columns(cells, width, height, x, jitters).len() == cells.len(),
        forall|i: int|
            width * (height - 1) <= i < cells.len() ==> #[trigger] spread_columns(cells, width, height, x, jitters)[i]
                == cells[i],
    decreases x,
{
    if x > 0 {
        lemma_spread_columns_keep_bottom(cells, width, height, x - 1, jitters);
        lemma_spread_column_keeps_bottom(
            spread_columns(cells, width, height, x - 1, jitters),
            width,
            height,
            x - 1,
            height,
            jitters,
        );
    }
}

/// Propagation never writes the bottom row: after a step it holds exactly
/// what reseeding (while igniting) or cooling (after) made of it.
pub proof fn lemma_bottom_row_only_reseeded_or_cooled(v: FieldView, jitters: Seq<usize>, cools: Seq<usize>)
    requires
        v.inv(),
        v.draws_fit(jitters, cools),
    ensures
        forall|i: int|
            bottom_start(v.width, v.height) <= i < v.cells.len() ==> #[trigger] v.step(jitters, cools).cells[i]
                == v.prepared(cools)[i],
{
    lemma_spread_columns_keep_bottom(v.prepared(cools), v.width as int, v.height as int, v.width as int, jitters);
}

/// Once ignition has stopped, a step never makes any cell hotter than the
/// hottest cell before it; in particular a dark field stays dark.
pub proof fn lemma_stopped_step_never_hotter(v: FieldView, jitters: Seq<usize>, cools: Seq<usize>, m: int)
    requires
        v.inv(),
        v.stopped,
        v.draws_fit(jitters, cools),
        bounded_by(v.cells, m),
        m >= 0,
    ensures
        bounded_by(v.step(jitters, cools).cells, m),
        all_dark(v.cells) ==> all_dark(v.step(jitters, cools).cells),
{
    let p = v.prepared(cools);
    assert(bounded_by(p, m));
    lemma_spread_columns_bounded(p, v.width as int, v.height as int, v.width as int, jitters, m);
    if all_dark(v.cells) {
        assert(bounded_by(v.cells, 0));
        assert(bounded_by(p, 0));
        lemma_spread_columns_bounded(p, v.width as int, v.height as int, v.width as int, jitters, 0);
    }
}

/// Once ignition has stopped, each cell of the bottom row never gets hotter
/// from one step to the next, and once dark it stays dark.
pub proof fn lemma_stopped_bottom_row_decays(v: FieldView, jitters: Seq<usize>, cools: Seq<usize>)
    requires
        v.inv(),
        v.stopped,
        v.draws_fit(jitters, cools),
    ensures
        forall|i: int|
            bottom_start(v.width, v.height) <= i < v.cells.len() ==> {
                &&& #[trigger] v.step(jitters, cools).cells[i] <= v.cells[i]
                &&& v.cells[i] == 0 ==> v.step(jitters, cools).cells[i] == 0
            },
{
    lemma_bottom_row_only_reseeded_or_cooled(v, jitters, cools);
}

proof fn lemma_spread_cell_darkness(cells: Seq<usize>, width: int, from: int, jitter: usize, b: int)
    requires
        0 < width <= from < cells.len(),
        width <= b,
        dark_from(cells, b),
    ensures
        spread_cell(cells, width, from, jitter).len() == cells.len(),
        forall|i: int|
            b - width <= i < cells.len() && cells[i] == 0 ==> #[trigger] spread_cell(cells, width, from, jitter)[i]
                == 0,
        from >= b ==> spread_cell(cells, width, from, jitter)[from - width] == 0,
{
}

proof fn lemma_spread_column_darkness(
    cells: Seq<usize>,
    width: int,
    height: int,
    x: int,
    y: int,
    jitters: Seq<usize>,
    k: int,
)
    requires
        cells.len() == width * height,
        0 <= x < width,
        y <= height,
        1 <= k < height,
        dark_from(cells, k * width),
    ensures
        spread_column(cells, width, x, y, jitters).len() == cells.len(),
        forall|i: int|
            (k - 1) * width <= i < cells.len() && cells[i] == 0 ==> #[trigger] spread_column(
                cells,
                width,
                x,
                y,
                jitters,
            )[i] == 0,
        y > k ==> spread_column(cells, width, x, y, jitters)[(k - 1) * width + x] == 0,
    decreases y,
{
    assert((k - 1) * width == k * width - width) by (nonlinear_arith);
    if y > 1 {
        lemma_spread_column_darkness(cells, width, height, x, y - 1, jitters, k);
        lemma_cell_index(width, height, x, y - 1);
        let prev = spread_column(cells, width, x, y - 1, jitters);
        let from = (y - 1) * width + x;
        assert(k * width >= width) by (nonlinear_arith)
            requires
                k >= 1,
                width > 0,
        ;
        assert(dark_from(prev, k * width));
        lemma_spread_cell_darkness(prev, width, from, jitters[from], k * width);
        if y - 1 == k {
            assert(from == k * width + x);
        }
        if y - 1 > k {
            lemma_cell_index(width, height, x, k - 1);
            assert(prev[(k - 1) * width + x] == 0);
        }
    }
}

proof fn lemma_spread_columns_darkness(cells: Seq<usize>, width: int, height: int, x: int, jitters: Seq<usize>, k: int)
    requires
        cells.len() == width * height,
        x <= width,
        1 <= k < height,
        dark_from(cells, k * width),
    ensures
        spread_columns(cells, width, height, x, jitters).len() == cells.len(),
        forall|i: int|
            (k - 1) * width <= i < cells.len() && cells[i] == 0 ==> #[trigger] spread_columns(
                cells,
                width,
                height,
                x,
                jitters,
            )[i] == 0,
        forall|c: int| 0 <= c < x ==> #[trigger] spread_columns(cells, width, height, x, jitters)[(k - 1) * width + c] == 0,
    decreases x,
{
    assert((k - 1) * width == k * width - width) by (nonlinear_arith);
    if x > 0 {
        lemma_spread_columns_darkness(cells, width, height, x - 1, jitters, k);
        let prev = spread_columns(cells, width, height, x - 1, jitters);
        assert(dark_from(prev, k * width));
        lemma_spread_column_darkness(prev, width, height, x - 1, height, jitters, k);
        assert forall|c: int| 0 <= c < x implies #[trigger] spread_columns(cells, width, height, x, jitters)[(k - 1)
            * width + c] == 0 by {
            lemma_cell_index(width, height, c, k - 1);
        }
    }
}

/// Once ignition has stopped, darkness climbs: when every row from `k` down
/// is dark, after one more step every row from `k - 1` down is dark.
pub proof fn lemma_darkness_climbs(v: FieldView, jitters: Seq<usize>, cools: Seq<usize>, k: int)
    requires
        v.inv(),
        v.stopped,
        v.draws_fit(jitters, cools),
        1 <= k < v.height,
        dark_from(v.cells, k * v.width),
    ensures
        dark_from(v.step(jitters, cools).cells, (k - 1) * v.width),
{
    let w = v.width as int;
    let h = v.height as int;
    let p = v.prepared(cools);
    assert(dark_from(p, k * w));
    lemma_spread_columns_darkness(p, w, h, w, jitters, k);
    let r = v.step(jitters, cools).cells;
    assert((k - 1) * w == k * w - w) by (nonlinear_arith);
    assert forall|i: int| (k - 1) * w <= i < r.len() implies r[i] == 0 by {
        if i < k * w {
            let c = i - (k - 1) * w;
            assert(r[(k - 1) * w + c] == 0);
        }
    }
}

/// The field after the first `n` steps, the `s`-th with draws
/// `jitters[s]` and `cools[s]`.
pub open spec fn run(v: FieldView, jitters: Seq<Seq<usize>>, cools: Seq<Seq<usize>>, n: nat) -> FieldView
    decreases n,
{
    if n == 0 {
        v
    } else {
        run(v, jitters, cools, (n - 1) as nat).step(jitters[n - 1], cools[n - 1])
    }
}

/// The draws of the first `n` steps each fit a field of `len` cells.
pub open spec fn draws_fit_run(len: nat, jitters: Seq<Seq<usize>>, cools: Seq<Seq<usize>>, n: nat) -> bool {
    &&& jitters.len() >= n
    &&& cools.len() >= n
    &&& forall|s: int|
        0 <= s < n ==> {
            &&& #[trigger] jitters[s].len() == len
            &&& cools[s].len() == len
            &&& forall|i: int| 0 <= i < len ==> cools[s][i] <= 1
        }
}

/// The field stays well-formed, stopped and of the same size along a run.
proof fn lemma_run_keeps_shape(v: FieldView, jitters: Seq<Seq<usize>>, cools: Seq<Seq<usize>>, n: nat)
    requires
        v.inv(),
        draws_fit_run(v.cells.len(), jitters, cools, n),
    ensures
        run(v, jitters, cools, n).inv(),
        run(v, jitters, cools, n).stopped == v.stopped,
        run(v, jitters, cools, n).width == v.width,
        run(v, jitters, cools, n).height == v.height,
    decreases n,
{
    if n > 0 {
        let m = (n - 1) as nat;
        lemma_run_keeps_shape(v, jitters, cools, m);
        let prev = run(v, jitters, cools, m);
        assert(jitters[m as int].len() == v.cells.len());
        assert(prev.draws_fit(jitters[m as int], cools[m as int]));
        lemma_step_keeps_heat_bounded(prev, jitters[m as int], cools[m as int]);
    }
}

proof fn lemma_run_climbs(v: FieldView, jitters: Seq<Seq<usize>>, cools: Seq<Seq<usize>>, a: nat, n: nat)
    requires
        v.inv(),
        v.stopped,
        n < v.height,
        draws_fit_run(v.cells.len(), jitters, cools, a + n),
        dark_from(run(v, jitters, cools, a).cells, bottom_start(v.width, v.height)),
    ensures
        dark_from(run(v, jitters, cools, a + n).cells, (v.height - 1 - n) * v.width),
    decreases n,
{
    assert(bottom_start(v.width, v.height) == (v.height - 1) * v.width) by (nonlinear_arith);
    if n > 0 {
        let m = (a + n - 1) as nat;
        lemma_run_climbs(v, jitters, cools, a, (n - 1) as nat);
        lemma_run_keeps_shape(v, jitters, cools, m);
        let prev = run(v, jitters, cools, m);
        assert(jitters[m as int].len() == v.cells.len());
        assert(prev.draws_fit(jitters[m as int], cools[m as int]));
        lemma_darkness_climbs(prev, jitters[m as int], cools[m as int], v.height - n);
    }
}

/// Once ignition has stopped and the bottom row has burnt out, the whole
/// field is dark after `height - 1` further steps, whatever the draws.
pub proof fn lemma_dark_after_burnout(v: FieldView, jitters: Seq<Seq<usize>>, cools: Seq<Seq<usize>>)
    requires
        v.inv(),
        v.stopped,
        draws_fit_run(v.cells.len(), jitters, cools, (v.height - 1) as nat),
        dark_from(v.cells, bottom_start(v.width, v.height)),
    ensures
        all_dark(run(v, jitters, cools, (v.height - 1) as nat).cells),
{
    assert(run(v, jitters, cools, 0) == v);
    lemma_run_climbs(v, jitters, cools, 0, (v.height - 1) as nat);
}

/// With every cooling draw of the bottom row at 1, each bottom cell loses one
/// level per step once ignition has stopped.
proof fn lemma_bottom_row_counts_down(v: FieldView, jitters: Seq<Seq<usize>>, cools: Seq<Seq<usize>>, n: nat)
    requires
        v.inv(),
        v.stopped,
        draws_fit_run(v.cells.len(), jitters, cools, n),
        forall|s: int, i: int|
            0 <= s < n && bottom_start(v.width, v.height) <= i < v.cells.len() ==> #[trigger] cools[s][i] == 1,
    ensures
        forall|i: int|
            bottom_start(v.width, v.height) <= i < v.cells.len() ==> #[trigger] run(v, jitters, cools, n).cells[i]
                == sat_sub(v.cells[i] as int, n as int),
    decreases n,
{
    if n > 0 {
        let m = (n - 1) as nat;
        lemma_bottom_row_counts_down(v, jitters, cools, m);
        lemma_run_keeps_shape(v, jitters, cools, m);
        let prev = run(v, jitters, cools, m);
        assert(jitters[m as int].len() == v.cells.len());
        assert(prev.draws_fit(jitters[m as int], cools[m as int]));
        lemma_bottom_row_only_reseeded_or_cooled(prev, jitters[m as int], cools[m as int]);
        if v.height >= 5 {
            assert(v.width * (v.height - 5) <= v.width * (v.height - 1)) by (nonlinear_arith)
                requires
                    v.height >= 5,
            ;
        }
        assert forall|i: int| bottom_start(v.width, v.height) <= i < v.cells.len() implies #[trigger] run(
            v,
            jitters,
            cools,
            n,
        ).cells[i] == sat_sub(v.cells[i] as int, n as int) by {
            assert(cools[m as int][i] == 1);
        }
    }
}

/// A stopped field burns out: when the cooling draws of the bottom row are 1
/// for the first `MAX_HEAT` steps, the whole field is dark after
/// `MAX_HEAT + height - 1` steps.
pub proof fn lemma_burns_out(v: FieldView, jitters: Seq<Seq<usize>>, cools: Seq<Seq<usize>>)
    requires
        v.inv(),
        v.stopped,
        draws_fit_run(v.cells.len(), jitters, cools, (MAX_HEAT + v.height - 1) as nat),
        forall|s: int, i: int|
            0 <= s < MAX_HEAT && bottom_start(v.width, v.height) <= i < v.cells.len() ==> #[trigger] cools[s][i]
                == 1,
    ensures
        all_dark(run(v, jitters, cools, (MAX_HEAT + v.height - 1) as nat).cells),
{
    let a = MAX_HEAT as nat;
    assert(draws_fit_run(v.cells.len(), jitters, cools, a));
    lemma_bottom_row_counts_down(v, jitters, cools, a);
    lemma_run_keeps_shape(v, jitters, cools, a);
    assert forall|i: int| bottom_start(v.width, v.height) <= i < v.cells.len() implies run(
        v,
        jitters,
        cools,
        a,
    ).cells[i] == 0 by {
        assert(v.cells[i] <= MAX_HEAT);
    }
    assert(dark_from(run(v, jitters, cools, a).cells, bottom_start(v.width, v.height)));
    lemma_run_climbs(v, jitters, cools, a, (v.height - 1) as nat);
}

} // verus!
