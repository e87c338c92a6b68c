use vstd::prelude::*;
use crate::field::{all_dark, bounded_by, MAX_HEAT};
use crate::palette::{color_of, heat_color};
use vstd::arithmetic::div_mod::lemma_fundamental_div_mod_converse;

verus! {

/// One cell to repaint: where the cursor goes, 1-based, and the color of the
/// block drawn there.
#[derive(Clone, Copy, PartialEq, Eq, Debug)]
pub struct CellPaint {
    pub column: usize,
    pub row: usize,
    pub red: u8,
    pub green: u8,
    pub blue: u8,
}

/// The repaint of cell `i` of a field `width` cells wide, in the color of `heat`.
pub open spec fn paint_of(width: nat, i: int, heat: usize) -> CellPaint {
    let c = heat_color(heat);
    CellPaint { column: (i % width as int + 1) as usize, row: (i / width as int + 1) as usize, red: c.0, green: c.1, blue: c.2 }
}

/// Cell `i` shows another color in `next` than in `prev`.
pub open spec fn color_changed(prev: Seq<usize>, next: Seq<usize>, i: int) -> bool {
    heat_color(prev[i]) != heat_color(next[i])
}

/// The indices below `n` whose color changes, in increasing order.
pub open spec fn changed_indices(prev: Seq<usize>, next: Seq<usize>, n: int) -> Seq<int>
    decreases n,
{
    if n <= 0 {
        Seq::empty()
    } else if color_changed(prev, next, n - 1) {
        changed_indices(prev, next, n - 1).push(n - 1)
    } else {
        changed_indices(prev, next, n - 1)
    }
}

/// The repaints that take a screen showing `prev` to one showing `next`:
/// one per cell whose color changes, in row-major order.
pub open spec fn paints(prev: Seq<usize>, next: Seq<usize>, width: nat) -> Seq<CellPaint> {
    changed_indices(prev, next, next.len() as int).map_values(|i: int| paint_of(width, i, next[i]))
}

proof fn lemma_changed_indices_shape(prev: Seq<usize>, next: Seq<usize>, n: int)
    requires
        0 <= n,
    ensures
        forall|k: int|
            0 <= k < changed_indices(prev, next, n).len() ==> {
                &&& 0 <= #[trigger] changed_indices(prev, next, n)[k] < n
                &&& color_changed(prev, next, changed_indices(prev, next, n)[k])
            },
        forall|k: int, l: int|
            0 <= k < l < changed_indices(prev, next, n).len() ==> #[trigger] changed_indices(prev, next, n)[k]
                < #[trigger] changed_indices(prev, next, n)[l],
        changed_indices(prev, next, n).to_set() == Set::new(|i: int| 0 <= i < n && color_changed(prev, next, i)),
    decreases n,
{
    if n > 0 {
        lemma_changed_indices_shape(prev, next, n - 1);
        let s = changed_indices(prev, next, n);
        assert(s.to_set() =~= Set::new(|i: int| 0 <= i < n && color_changed(prev, next, i))) by {
            let rest = changed_indices(prev, next, n - 1);
            assert forall|i: int| s.to_set().contains(i) <==> (0 <= i < n && color_changed(prev, next, i)) by {
                if 0 <= i < n - 1 && color_changed(prev, next, i) {
                    assert(rest.to_set().contains(i));
                    let k = choose|k: int| 0 <= k < rest.len() && rest[k] == i;
                    assert(s[k] == i);
                }
                if i == n - 1 && color_changed(prev, next, i) {
                    assert(s[s.len() - 1] == i);
                }
                if s.to_set().contains(i) {
                    let k = choose|k: int| 0 <= k < s.len() && s[k] == i;
                    if k < rest.len() {
                        assert(rest.to_set().contains(rest[k]));
                    }
                }
            }
        }
    }
}

/// The cells whose heat differs between `prev` and `next`.
pub open spec fn differing(prev: Seq<usize>, next: Seq<usize>) -> Set<int> {
    Set::new(|i: int| 0 <= i < next.len() && prev[i] != next[i])
}

/// A repaint pass writes exactly one repaint for each cell whose color
/// changes and nothing for any other cell: the `k`-th repaint is that of
/// the `k`-th such cell, each of them a cell whose heat differs, and when
/// every cell whose heat differs also differs in color, the pass holds as
/// many repaints as cells differ.
pub proof fn lemma_paints_exactly_changed(prev: Seq<usize>, next: Seq<usize>, width: nat)
    requires
        prev.len() == next.len(),
    ensures
        differing(prev, next).finite(),
        paints(prev, next, width).len() == changed_indices(prev, next, next.len() as int).len(),
        forall|k: int|
            0 <= k < paints(prev, next, width).len() ==> {
                let i = #[trigger] changed_indices(prev, next, next.len() as int)[k];
                &&& differing(prev, next).contains(i)
                &&& paints(prev, next, width)[k] == paint_of(width, i, next[i])
            },
        (forall|i: int| differing(prev, next).contains(i) ==> color_changed(prev, next, i)) ==> paints(
            prev,
            next,
            width,
        ).len() == differing(prev, next).len(),
{
    let n = next.len() as int;
    let s = changed_indices(prev, next, n);
    lemma_changed_indices_shape(prev, next, n);
    let differ = differing(prev, next);
    let colored = Set::new(|i: int| 0 <= i < n && color_changed(prev, next, i));
    vstd::set_lib::lemma_int_range(0, n);
    assert(differ.subset_of(vstd::set_lib::set_int_range(0, n)));
    vstd::set_lib::lemma_len_subset(differ, vstd::set_lib::set_int_range(0, n));
    assert forall|k: int| 0 <= k < s.len() implies differ.contains(#[trigger] s[k]) by {}
    if forall|i: int| differ.contains(i) ==> color_changed(prev, next, i) {
        assert(differ =~= colored);
        assert(s.no_duplicates());
        s.unique_seq_to_set();
    }
}

/// What the renderer last drew: the heat levels on screen.
pub struct RenderState {
    width: usize,
    height: usize,
    frame_buffer: Vec<usize>,
}

/// The screen as a renderer sees it.
pub struct ScreenView {
    pub width: nat,
    pub height: nat,
    pub shown: Seq<usize>,
}

impl View for RenderState {
    type V = ScreenView;

    closed spec fn view(&self) -> ScreenView {
        ScreenView { width: self.width as nat, height: self.height as nat, shown: self.frame_buffer@ }
    }
}

impl ScreenView {
    pub open spec fn inv(self) -> bool {
        &&& self.width > 0
        &&& self.height > 0
        &&& self.width * self.height <= usize::MAX
        &&& self.shown.len() == self.width * self.height
        &&& bounded_by(self.shown, MAX_HEAT as int)
    }
}

impl RenderState {
    /// The screen of `width` by `height` cells as it stands before the first
    /// frame: the bottom row at full heat, every other cell dark.
    pub fn new(width: usize, height: usize) -> (r: Self)
        requires
            width > 0,
            height > 0,
            width * height <= usize::MAX,
        ensures
            r@.inv(),
            r@.width == width,
            r@.height == height,
            r@.shown == crate::field::seeded(width as nat, height as nat),
    {
        let field = crate::field::BufferContainer::new(width, height);
        RenderState { width, height, frame_buffer: field.snapshot() }
    }

    /// The repaints that bring the screen from what it shows to `next`, in
    /// row-major order: one for each cell whose color changes.
    pub fn changes(&self, next: &Vec<usize>) -> (r: Vec<CellPaint>)
        requires
            self@.inv(),
            next@.len() == self@.shown.len(),
            bounded_by(next@, MAX_HEAT as int),
        ensures
            r@ == paints(self@.shown, next@, self@.width),
    {
        let n: usize = next.len();
        let w: usize = self.width;
        let ghost f = |i: int| paint_of(w as nat, i, next@[i]);
        let mut out: Vec<CellPaint> = Vec::new();
        let mut i: usize = 0;
        let mut x: usize = 0;
        let mut y: usize = 0;
        while i < n
            invariant
                self@.inv(),
                w == self.width,
                n == next@.len(),
                n == self.frame_buffer@.len(),
                bounded_by(next@, MAX_HEAT as int),
                i <= n,
                x < w,
                i == y * w + x,
                f == (|i: int| paint_of(w as nat, i, next@[i])),
                out@ == changed_indices(self.frame_buffer@, next@, i as int).map_values(f),
            decreases n - i,
        {
            let old_color = color_of(self.frame_buffer[i]);
            let new_color = color_of(next[i]);
            proof {
                lemma_fundamental_div_mod_converse(i as int, w as int, y as int, x as int);
                assert(y * w <= i);
                assert(y <= i) by (nonlinear_arith)
                    requires
                        y * w <= i,
                        w >= 1,
                ;
            }
            if old_color.0 != new_color.0 || old_color.1 != new_color.1 || old_color.2 != new_color.2 {
                out.push(CellPaint { column: x + 1, row: y + 1, red: new_color.0, green: new_color.1, blue: new_color.2 });
                assert(out@ =~= changed_indices(self.frame_buffer@, next@, i + 1).map_values(f));
            } else {
                assert(out@ =~= changed_indices(self.frame_buffer@, next@, i + 1).map_values(f));
            }
            i += 1;
            if x + 1 < w {
                x += 1;
            } else {
                let ghost y0 = y;
                x = 0;
                y += 1;
                assert(i == y * w + x) by (nonlinear_arith)
                    requires
                        i == y0 * w + w,
                        y == y0 + 1,
                        x == 0,
                ;
            }
        }
        out
    }

    /// Takes `next` as what the screen shows, once its repaints are written.
    pub fn commit(&mut self, next: Vec<usize>)
        requires
            old(self)@.inv(),
            next@.len() == old(self)@.shown.len(),
            bounded_by(next@, MAX_HEAT as int),
        ensures
            final(self)@.inv(),
            final(self)@ == (ScreenView { shown: next@, ..old(self)@ }),
    {
        self.frame_buffer = next;
    }

    /// Some cell on screen is lit.
    pub fn has_any_color(&self) -> (r: bool)
        ensures
            r == !all_dark(self@.shown),
    {
        let mut i: usize = 0;
        while i < self.frame_buffer.len()
            invariant
                i <= self.frame_buffer.len(),
                forall|k: int| 0 <= k < i ==> self.frame_buffer@[k] == 0,
            decreases self.frame_buffer.len() - i,
        {
            if self.frame_buffer[i] != 0 {
                return true;
            }
            i += 1;
        }
        false
    }

    /// What the screen shows.
    pub fn shown(&self) -> (r: &Vec<usize>)
        ensures
            r@ == self@.shown,
    {
        &self.frame_buffer
    }
}

} // verus!
