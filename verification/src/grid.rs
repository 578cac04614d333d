use vstd::prelude::*;
use bumpalo::Bump;
use bumpalo::collections::Vec as BumpVec;
use crate::math::Axis;
use crate::params::{Direction, GridElement, GridFlow};

verus! {

#[verifier::external_type_specification]
#[verifier::external_body]
pub struct ExBump<const MIN_ALIGN: usize>(Bump<MIN_ALIGN>);

#[verifier::external_type_specification]
#[verifier::external_body]
#[verifier::reject_recursive_types(T)]
pub struct ExBumpVec<'bump, T>(BumpVec<'bump, T>);

/// The flags an arena vector of cells holds, in order.
pub uninterp spec fn bump_cells(v: BumpVec<'_, bool>) -> Seq<bool>;

/// `Bump::new`: a fresh arena.
#[verifier::external_body]
fn bump_new() -> (r: Bump) {
    Bump::new()
}

/// `bumpalo::collections::Vec::new_in`: an empty vector in the arena.
#[verifier::external_body]
fn cells_new_in<'a>(arena: &'a Bump) -> (r: BumpVec<'a, bool>)
    ensures
        bump_cells(r).len() == 0,
{
    BumpVec::new_in(arena)
}

/// `bumpalo::collections::Vec::len`.
#[verifier::external_body]
fn cells_len(v: &BumpVec<'_, bool>) -> (r: usize)
    ensures
        r == bump_cells(*v).len(),
{
    v.len()
}


/// `bumpalo::collections::Vec::resize`: grows the vector with copies of
/// `value`, or truncates it.
#[verifier::external_body]
fn cells_resize(v: &mut BumpVec<'_, bool>, new_len: usize, value: bool)
    ensures
        bump_cells(*final(v)).len() == new_len,
        forall|i: int| 0 <= i < new_len && i < bump_cells(*old(v)).len() ==> #[trigger] bump_cells(*final(v))[i] == bump_cells(*old(v))[i],
        forall|i: int| bump_cells(*old(v)).len() <= i < new_len ==> #[trigger] bump_cells(*final(v))[i] == value,
{
    v.resize(new_len, value)
}

/// Indexing an arena vector of cells (it panics out of bounds).
#[verifier::external_body]
fn cells_get(v: &BumpVec<'_, bool>, i: usize) -> (r: bool)
    requires
        i < bump_cells(*v).len(),
    ensures
        r == bump_cells(*v)[i as int],
{
    v[i]
}

/// Writing through the index of an arena vector of cells (it panics out of bounds).
#[verifier::external_body]
fn cells_set(v: &mut BumpVec<'_, bool>, i: usize, value: bool)
    requires
        i < bump_cells(*old(v)).len(),
    ensures
        bump_cells(*final(v)) == bump_cells(*old(v)).update(i as int, value),
{
    v[i] = value;
}

/// The abstract state of a grid occupancy: the occupied cells as
/// `(line, position)` pairs, the cells per line, the allocated lines, and the
/// line from which forward placement resumes.
pub struct OccModel {
    pub occupied: Set<(int, int)>,
    pub n_per_line: nat,
    pub n_lines: nat,
    pub cursor_line: nat,
}

/// No cell of the `span_line` by `span_pos` rectangle at `(line, pos)` is occupied.
pub open spec fn rect_free(m: OccModel, line: int, pos: int, span_line: int, span_pos: int) -> bool {
    forall|l: int, p: int| line <= l < line + span_line && pos <= p < pos + span_pos ==> !m.occupied.contains((l, p))
}

/// The cells of the rectangle at `(line, pos)`.
pub open spec fn rect_cells(line: int, pos: int, span_line: int, span_pos: int) -> Set<(int, int)> {
    Set::new(|lp: (int, int)| line <= lp.0 < line + span_line && pos <= lp.1 < pos + span_pos)
}

/// The model after occupying the rectangle at `(line, pos)`.
pub open spec fn occupy_model(m: OccModel, line: int, pos: int, span_line: int, span_pos: int) -> OccModel {
    OccModel {
        occupied: m.occupied.union(rect_cells(line, pos, span_line, span_pos)),
        n_per_line: m.n_per_line,
        n_lines: if m.n_lines < line + span_line { (line + span_line) as nat } else { m.n_lines },
        cursor_line: m.cursor_line,
    }
}

/// `(line, pos)` is the first place, scanning lines from `start` and
/// positions from 0, where the rectangle fits in a line and is free.
pub open spec fn first_fit(m: OccModel, start: int, line: int, pos: int, span_line: int, span_pos: int) -> bool {
    &&& start <= line
    &&& 0 <= pos <= m.n_per_line - span_pos
    &&& rect_free(m, line, pos, span_line, span_pos)
    &&& forall|l: int, p: int| start <= l <= line && 0 <= p <= m.n_per_line - span_pos && (l < line || p < pos)
            ==> !rect_free(m, l, p, span_line, span_pos)
}

/// The spans actually used for a placement: at least one line, and between
/// one position and a whole line.
pub open spec fn clamp_span_pos(span_pos: int, n_per_line: int) -> int {
    let s = if span_pos < n_per_line { span_pos } else { n_per_line };
    if s < 1 { 1 } else { s }
}

pub open spec fn clamp_span_line(span_line: int) -> int {
    if span_line < 1 { 1 } else { span_line }
}

/// Where `place_next` puts a rectangle, and the model afterwards.
pub open spec fn place_model(m: OccModel, span_line: int, span_pos: int, backfill: bool) -> (OccModel, (int, int)) {
    let sp = clamp_span_pos(span_pos, m.n_per_line as int);
    let sl = clamp_span_line(span_line);
    let start = if backfill { 0 } else { m.cursor_line as int };
    let lp = choose|lp: (int, int)| first_fit(m, start, lp.0, lp.1, sl, sp);
    let after = occupy_model(m, lp.0, lp.1, sl, sp);
    (OccModel { cursor_line: if backfill { m.cursor_line } else { lp.0 as nat }, ..after }, lp)
}

/// Two first fits are the same place.
proof fn lemma_first_fit_unique(m: OccModel, start: int, a: (int, int), b: (int, int), sl: int, sp: int)
    requires
        first_fit(m, start, a.0, a.1, sl, sp),
        first_fit(m, start, b.0, b.1, sl, sp),
    ensures
        a == b,
{
    if a.0 < b.0 || (a.0 == b.0 && a.1 < b.1) {
        assert(!rect_free(m, a.0, a.1, sl, sp));
    } else if b.0 < a.0 || (a.0 == b.0 && b.1 < a.1) {
        assert(!rect_free(m, b.0, b.1, sl, sp));
    }
}

proof fn lemma_index_bounds(l: int, p: int, n: int, lines: int)
    requires
        0 <= l < lines,
        0 <= p < n,
    ensures
        0 <= l * n + p < lines * n,
        l * n + p >= l * n,
        (l + 1) * n == l * n + n,
{
    assert(0 <= l * n + p < lines * n) by (nonlinear_arith)
        requires 0 <= l < lines, 0 <= p < n;
    assert((l + 1) * n == l * n + n) by (nonlinear_arith);
}

proof fn lemma_index_injective(l1: int, p1: int, l2: int, p2: int, n: int)
    requires
        0 <= p1 < n,
        0 <= p2 < n,
        0 <= l1,
        0 <= l2,
        l1 * n + p1 == l2 * n + p2,
    ensures
        l1 == l2,
        p1 == p2,
{
    if l1 < l2 {
        assert(l1 * n + n <= l2 * n) by (nonlinear_arith)
            requires l1 < l2, n > 0;
    } else if l2 < l1 {
        assert(l2 * n + n <= l1 * n) by (nonlinear_arith)
            requires l2 < l1, n > 0;
    }
}

/// The occupied cells of a line-by-line cell vector.
pub open spec fn occ_set(cells: Seq<bool>, n: int, lines: int) -> Set<(int, int)> {
    Set::new(|lp: (int, int)| 0 <= lp.0 < lines && 0 <= lp.1 < n && cells[lp.0 * n + lp.1])
}

/// Setting one cell of the vector occupies that cell.
proof fn lemma_set_cell(cells: Seq<bool>, n: int, lines: int, l: int, p: int)
    requires
        n >= 1,
        cells.len() == lines * n,
        0 <= l < lines,
        0 <= p < n,
    ensures
        occ_set(cells.update(l * n + p, true), n, lines) =~= occ_set(cells, n, lines).insert((l, p)),
{
    lemma_index_bounds(l, p, n, lines);
    let c2 = cells.update(l * n + p, true);
    assert forall|lp: (int, int)| #[trigger] occ_set(c2, n, lines).contains(lp) == occ_set(cells, n, lines).insert((l, p)).contains(lp) by {
        if 0 <= lp.0 < lines && 0 <= lp.1 < n {
            lemma_index_bounds(lp.0, lp.1, n, lines);
            if lp.0 * n + lp.1 == l * n + p {
                lemma_index_injective(lp.0, lp.1, l, p, n);
            } else if lp == (l, p) {
            }
        }
    }
}

/// Growing the vector with free cells allocates new, free lines.
proof fn lemma_grow_lines(cells: Seq<bool>, c2: Seq<bool>, n: int, lines: int, lines2: int)
    requires
        n >= 1,
        lines <= lines2,
        cells.len() == lines * n,
        c2.len() == lines2 * n,
        forall|i: int| 0 <= i < cells.len() ==> #[trigger] c2[i] == cells[i],
        forall|i: int| cells.len() <= i < c2.len() ==> !#[trigger] c2[i],
    ensures
        occ_set(c2, n, lines2) =~= occ_set(cells, n, lines),
{
    assert forall|lp: (int, int)| #[trigger] occ_set(c2, n, lines2).contains(lp) == occ_set(cells, n, lines).contains(lp) by {
        if 0 <= lp.0 < lines2 && 0 <= lp.1 < n {
            lemma_index_bounds(lp.0, lp.1, n, lines2);
            if lp.0 < lines {
                lemma_index_bounds(lp.0, lp.1, n, lines);
            } else {
                assert(lp.0 * n >= lines * n) by (nonlinear_arith)
                    requires lp.0 >= lines, n >= 1;
            }
        }
    }
}

/// Which cells of a grid are taken, line by line: a line holds `n_per_line`
/// cells, and lines are allocated as placements need them.
pub struct GridOccupancy<'a> {
    cells: BumpVec<'a, bool>,
    n_per_line: usize,
    n_lines: usize,
    cursor_line: usize,
}

impl<'a> GridOccupancy<'a> {
    pub closed spec fn wf(&self) -> bool {
        &&& self.n_per_line >= 1
        &&& bump_cells(self.cells).len() == self.n_lines * self.n_per_line
        &&& self.n_lines * self.n_per_line <= usize::MAX
        &&& self.cursor_line <= self.n_lines
    }

    pub closed spec fn model(&self) -> OccModel {
        OccModel {
            occupied: occ_set(bump_cells(self.cells), self.n_per_line as int, self.n_lines as int),
            n_per_line: self.n_per_line as nat,
            n_lines: self.n_lines as nat,
            cursor_line: self.cursor_line as nat,
        }
    }

    /// An empty grid with `n_per_line` cells per line, allocated in `arena`.
    pub fn new(n_per_line: usize, arena: &'a Bump) -> (r: Self)
        requires
            n_per_line >= 1,
        ensures
            r.wf(),
            r.model().occupied == Set::<(int, int)>::empty(),
            r.model().n_per_line == n_per_line,
            r.model().n_lines == 0,
            r.model().cursor_line == 0,
    {
        let r = GridOccupancy { cells: cells_new_in(arena), n_per_line, n_lines: 0, cursor_line: 0 };
        proof {
            assert(r.model().occupied =~= Set::<(int, int)>::empty());
        }
        r
    }

    /// The number of allocated lines.
    pub fn n_lines(&self) -> (r: usize)
        ensures
            r == self.model().n_lines,
    {
        self.n_lines
    }

    /// Whether the rectangle at `(line, pos)` is free (lines that are not
    /// allocated yet are free).
    pub fn is_free(&self, line: usize, pos: usize, span_line: usize, span_pos: usize) -> (r: bool)
        requires
            self.wf(),
            pos + span_pos <= self.model().n_per_line,
            line + span_line <= usize::MAX,
        ensures
            r == rect_free(self.model(), line as int, pos as int, span_line as int, span_pos as int),
    {
        let ghost m = self.model();
        let end_line = line + span_line;
        let mut l = line;
        while l < end_line
            invariant
                self.wf(),
                m == self.model(),
                line <= l <= end_line,
                end_line == line + span_line,
                pos + span_pos <= self.n_per_line,
                forall|l2: int, p2: int| line <= l2 < l && pos <= p2 < pos + span_pos ==> !m.occupied.contains((l2, p2)),
            decreases end_line - l,
        {
            if l < self.n_lines {
                let mut p = pos;
                while p < pos + span_pos
                    invariant
                        self.wf(),
                        m == self.model(),
                        line <= l < end_line,
                        end_line == line + span_line,
                        l < self.n_lines,
                        pos <= p <= pos + span_pos,
                        pos + span_pos <= self.n_per_line,
                        forall|p2: int| pos <= p2 < p ==> !m.occupied.contains((l as int, p2)),
                    decreases pos + span_pos - p,
                {
                    proof {
                        lemma_index_bounds(l as int, p as int, self.n_per_line as int, self.n_lines as int);
                    }
                    let idx = l * self.n_per_line + p;
                    if cells_get(&self.cells, idx) {
                        proof {
                            assert(m.occupied.contains((l as int, p as int)));
                            assert(!rect_free(m, line as int, pos as int, span_line as int, span_pos as int));
                        }
                        return false;
                    }
                    p = p + 1;
                }
            }
            l = l + 1;
        }
        true
    }

    /// Occupies the rectangle at `(line, pos)`, allocating lines as needed.
    pub fn occupy(&mut self, line: usize, pos: usize, span_line: usize, span_pos: usize)
        requires
            old(self).wf(),
            pos + span_pos <= old(self).model().n_per_line,
            (line + span_line) * old(self).model().n_per_line <= usize::MAX,
        ensures
            final(self).wf(),
            final(self).model() == occupy_model(old(self).model(), line as int, pos as int, span_line as int, span_pos as int),
    {
        let ghost m0 = self.model();
        let n = self.n_per_line;
        proof {
            assert((line + span_line) as int <= (line + span_line) * n) by (nonlinear_arith)
                requires n >= 1, line + span_line >= 0;
        }
        let needed = line + span_line;
        if self.n_lines < needed {
            proof {
                assert(needed * n <= usize::MAX);
                assert(self.n_lines * n <= needed * n) by (nonlinear_arith)
                    requires self.n_lines < needed, n >= 1;
            }
            let ghost before = bump_cells(self.cells);
            cells_resize(&mut self.cells, needed * n, false);
            proof {
                lemma_grow_lines(before, bump_cells(self.cells), n as int, self.n_lines as int, needed as int);
            }
            self.n_lines = needed;
        }
        proof {
            assert(self.model().occupied == m0.occupied);
        }
        let ghost m1 = self.model();
        let mut l = line;
        while l < needed
            invariant
                self.wf(),
                self.n_per_line == n,
                self.n_lines >= needed,
                needed == line + span_line,
                pos + span_pos <= n,
                line <= l <= needed,
                self.cursor_line == m0.cursor_line,
                self.n_lines == m1.n_lines,
                self.model().occupied =~= m0.occupied.union(rect_cells(line as int, pos as int, (l - line) as int, span_pos as int)),
            decreases needed - l,
        {
            let mut p = pos;
            while p < pos + span_pos
                invariant
                    self.wf(),
                    self.n_per_line == n,
                    self.n_lines >= needed,
                    needed == line + span_line,
                    pos + span_pos <= n,
                    line <= l < needed,
                    pos <= p <= pos + span_pos,
                    self.cursor_line == m0.cursor_line,
                    self.n_lines == m1.n_lines,
                    self.model().occupied =~= m0.occupied.union(rect_cells(line as int, pos as int, (l - line) as int, span_pos as int))
                        .union(rect_cells(l as int, pos as int, 1, (p - pos) as int)),
                decreases pos + span_pos - p,
            {
                proof {
                    lemma_index_bounds(l as int, p as int, n as int, self.n_lines as int);
                    lemma_set_cell(bump_cells(self.cells), n as int, self.n_lines as int, l as int, p as int);
                }
                cells_set(&mut self.cells, l * n + p, true);
                proof {
                    assert(rect_cells(l as int, pos as int, 1, (p + 1 - pos) as int) =~= rect_cells(l as int, pos as int, 1, (p - pos) as int).insert((l as int, p as int)));
                }
                p = p + 1;
            }
            proof {
                assert(m0.occupied.union(rect_cells(line as int, pos as int, (l - line) as int, span_pos as int))
                    .union(rect_cells(l as int, pos as int, 1, span_pos as int))
                    =~= m0.occupied.union(rect_cells(line as int, pos as int, (l + 1 - line) as int, span_pos as int)));
            }
            l = l + 1;
        }
        proof {
            assert(self.model().occupied =~= occupy_model(m0, line as int, pos as int, span_line as int, span_pos as int).occupied);
        }
    }

    /// Finds the first free rectangle of `span_line` lines by `span_pos`
    /// positions (clamped to at least one line and to between one position
    /// and a whole line), occupies it and returns its `(line, pos)`. With
    /// `backfill` the search starts from the first line, filling gaps;
    /// otherwise it starts from the line of the previous placement.
    pub fn place_next(&mut self, span_line: usize, span_pos: usize, backfill: bool) -> (r: (usize, usize))
        requires
            old(self).wf(),
            (old(self).model().n_lines + span_line + 1) * old(self).model().n_per_line <= usize::MAX,
        ensures
            final(self).wf(),
            (final(self).model(), (r.0 as int, r.1 as int)) == place_model(old(self).model(), span_line as int, span_pos as int, backfill),
            r.0 <= old(self).model().n_lines,
            final(self).model().n_lines <= old(self).model().n_lines + clamp_span_line(span_line as int),
            final(self).model().n_lines >= old(self).model().n_lines,
            final(self).model().n_per_line == old(self).model().n_per_line,
            r.1 + clamp_span_pos(span_pos as int, old(self).model().n_per_line as int) <= old(self).model().n_per_line,
            r.0 + clamp_span_line(span_line as int) <= final(self).model().n_lines,
            rect_free(old(self).model(), r.0 as int, r.1 as int, clamp_span_line(span_line as int),
                clamp_span_pos(span_pos as int, old(self).model().n_per_line as int)),
            final(self).model().occupied == old(self).model().occupied.union(rect_cells(r.0 as int, r.1 as int,
                clamp_span_line(span_line as int), clamp_span_pos(span_pos as int, old(self).model().n_per_line as int))),
    {
        let ghost m0 = self.model();
        let n = self.n_per_line;
        let sp = if span_pos < n { span_pos } else { n };
        let sp = if sp < 1 { 1 } else { sp };
        let sl = if span_line < 1 { 1 } else { span_line };
        let ghost start: int = if backfill { 0 } else { m0.cursor_line as int };
        let mut line: usize = if backfill { 0 } else { self.cursor_line };
        proof {
            assert((self.n_lines + sl) * n <= (self.n_lines + sl + 1) * n) by (nonlinear_arith)
                requires n >= 1;
            assert((self.n_lines + sl) as int <= (self.n_lines + sl) * n) by (nonlinear_arith)
                requires n >= 1, self.n_lines + sl >= 0;
        }
        loop
            invariant
                self.wf(),
                self.model() == m0,
                m0 == old(self).model(),
                self.n_per_line == n,
                n >= 1,
                1 <= sp <= n,
                sl >= 1,
                sp as int == clamp_span_pos(span_pos as int, n as int),
                sl as int == clamp_span_line(span_line as int),
                (self.n_lines + sl) * n <= usize::MAX,
                self.n_lines + sl <= usize::MAX,
                start <= line <= self.n_lines,
                start == (if backfill { 0 } else { m0.cursor_line as int }),
                forall|l: int, p: int| start <= l < line && 0 <= p <= n - sp ==> !rect_free(m0, l, p, sl as int, sp as int),
            decreases self.n_lines - line,
        {
            let mut pos: usize = 0;
            while pos <= n - sp
                invariant
                    self.wf(),
                    self.model() == m0,
                    m0 == old(self).model(),
                    self.n_per_line == n,
                    1 <= sp <= n,
                    sl >= 1,
                    sp as int == clamp_span_pos(span_pos as int, n as int),
                    sl as int == clamp_span_line(span_line as int),
                    (self.n_lines + sl) * n <= usize::MAX,
                    self.n_lines + sl <= usize::MAX,
                    start <= line <= self.n_lines,
                    start == (if backfill { 0 } else { m0.cursor_line as int }),
                    forall|l: int, p: int| start <= l < line && 0 <= p <= n - sp ==> !rect_free(m0, l, p, sl as int, sp as int),
                    pos <= n - sp + 1,
                    forall|p: int| 0 <= p < pos ==> !rect_free(m0, line as int, p, sl as int, sp as int),
                decreases n - sp + 1 - pos,
            {
                if self.is_free(line, pos, sl, sp) {
                    proof {
                        assert((line + sl) * n <= (self.n_lines + sl) * n) by (nonlinear_arith)
                            requires line <= self.n_lines, n >= 1;
                    }
                    self.occupy(line, pos, sl, sp);
                    if !backfill {
                        self.cursor_line = line;
                    }
                    proof {
                        assert forall|l: int, p: int| start <= l <= line && 0 <= p <= m0.n_per_line - sp && (l < line || p < pos)
                            implies !rect_free(m0, l, p, sl as int, sp as int) by {
                            if l < line {
                            } else {
                                assert(p < pos);
                            }
                        }
                        let pm = place_model(m0, span_line as int, span_pos as int, backfill);
                        let w: (int, int) = (line as int, pos as int);
                        assert(first_fit(m0, start, w.0, w.1, sl as int, sp as int));
                        lemma_first_fit_unique(m0, start, pm.1, w, sl as int, sp as int);
                        assert(self.model().occupied =~= pm.0.occupied);
                    }
                    return (line, pos);
                }
                pos = pos + 1;
            }
            proof {
                if line >= self.n_lines {
                    assert(rect_free(m0, line as int, 0, sl as int, sp as int));
                    assert(false);
                }
            }
            line = line + 1;
        }
    }
}

/// A grid element's span, at least one cell.
pub open spec fn span_of(s: u16) -> int {
    if s < 1 { 1 } else { s as int }
}

/// `(col_span, row_span)` as `(span_line, span_pos)` of the occupancy: with
/// rows first a line is a row, with columns first a line is a column.
pub open spec fn occ_spans_spec(col_span: int, row_span: int, main_axis: Axis) -> (int, int) {
    match main_axis {
        Axis::X => (row_span, col_span),
        Axis::Y => (col_span, row_span),
    }
}

/// An occupancy place `(line, pos)` as a logical `(column, row)`.
pub open spec fn from_occ_spec(line: int, pos: int, main_axis: Axis) -> (int, int) {
    match main_axis {
        Axis::X => (pos, line),
        Axis::Y => (line, pos),
    }
}

/// A logical `(column, row)` mirrored on each axis that fills right to left.
pub open spec fn reversal_spec(col: int, row: int, col_span: int, row_span: int, n_cols: int, n_rows: int, flow: GridFlow) -> (int, int) {
    (
        if flow.x_fill_direction == Direction::RightToLeft { n_cols - col_span - col } else { col },
        if flow.y_fill_direction == Direction::RightToLeft { n_rows - row_span - row } else { row },
    )
}

/// Converts `(col_span, row_span)` to the `(span_line, span_pos)` of the occupancy.
pub fn to_occ_spans(col_span: usize, row_span: usize, flow: GridFlow) -> (r: (usize, usize))
    ensures
        (r.0 as int, r.1 as int) == occ_spans_spec(col_span as int, row_span as int, flow.main_axis),
{
    match flow.main_axis {
        Axis::X => (row_span, col_span),
        Axis::Y => (col_span, row_span),
    }
}

/// Converts an occupancy place `(line, pos)` to a logical `(column, row)`.
pub fn from_occ(line: usize, pos: usize, flow: GridFlow) -> (r: (usize, usize))
    ensures
        (r.0 as int, r.1 as int) == from_occ_spec(line as int, pos as int, flow.main_axis),
{
    match flow.main_axis {
        Axis::X => (pos, line),
        Axis::Y => (line, pos),
    }
}

/// Mirrors a logical `(column, row)` on each axis that fills right to left,
/// so that the element still covers cells inside the grid.
pub fn apply_reversal(logical_col: usize, logical_row: usize, col_span: usize, row_span: usize, n_cols: usize, n_rows: usize, flow: GridFlow) -> (r: (usize, usize))
    requires
        flow.x_fill_direction == Direction::RightToLeft ==> logical_col + col_span <= n_cols,
        flow.y_fill_direction == Direction::RightToLeft ==> logical_row + row_span <= n_rows,
    ensures
        (r.0 as int, r.1 as int) == reversal_spec(logical_col as int, logical_row as int, col_span as int, row_span as int, n_cols as int, n_rows as int, flow),
{
    let col = if flow.x_fill_direction == Direction::RightToLeft { n_cols - col_span - logical_col } else { logical_col };
    let row = if flow.y_fill_direction == Direction::RightToLeft { n_rows - row_span - logical_row } else { logical_row };
    (col, row)
}

/// The empty occupancy of a grid with `n_main` cells per line.
pub open spec fn empty_occ(n_main: nat) -> OccModel {
    OccModel { occupied: Set::empty(), n_per_line: n_main, n_lines: 0, cursor_line: 0 }
}

/// The occupancy after placing `elems` in order, and the logical
/// `(column, row)` given to each.
pub open spec fn assign_spec(elems: Seq<GridElement>, n_main: nat, flow: GridFlow) -> (OccModel, Seq<(int, int)>)
    decreases elems.len(),
{
    if elems.len() == 0 {
        (empty_occ(n_main), Seq::empty())
    } else {
        let prev = assign_spec(elems.drop_last(), n_main, flow);
        let e = elems.last();
        let spans = occ_spans_spec(span_of(e.column_span), span_of(e.row_span), flow.main_axis);
        let placed = place_model(prev.0, spans.0, spans.1, flow.backfill);
        (placed.0, prev.1.push(from_occ_spec(placed.1.0, placed.1.1, flow.main_axis)))
    }
}

/// The number of `(columns, rows)` of a grid whose occupancy has `n_lines` lines.
pub open spec fn grid_dims_spec(n_main: int, n_lines: int, main_axis: Axis) -> (int, int) {
    match main_axis {
        Axis::X => (n_main, n_lines),
        Axis::Y => (n_lines, n_main),
    }
}

/// Whether a flow fills some axis right to left.
pub open spec fn is_reversed(flow: GridFlow) -> bool {
    flow.x_fill_direction == Direction::RightToLeft || flow.y_fill_direction == Direction::RightToLeft
}

/// The final `(column, row)` of the element at index `k`.
pub open spec fn final_cell(elems: Seq<GridElement>, n_main: nat, flow: GridFlow, k: int) -> (int, int) {
    let a = assign_spec(elems, n_main, flow);
    let dims = grid_dims_spec(n_main as int, a.0.n_lines as int, flow.main_axis);
    let logical = a.1[k];
    if is_reversed(flow) {
        reversal_spec(logical.0, logical.1, span_of(elems[k].column_span), span_of(elems[k].row_span), dims.0, dims.1, flow)
    } else {
        logical
    }
}

/// The cell of an element lies inside the grid: at `(col, row)` with its
/// spans (the main-axis span cut to a whole line) it stays within
/// `n_main` cells on the main axis and `n_lines` lines on the other.
pub open spec fn fits_grid(cell: (int, int), e: GridElement, n_main: int, n_lines: int, main_axis: Axis) -> bool {
    match main_axis {
        Axis::X => cell.0 + clamp_span_pos(span_of(e.column_span), n_main) <= n_main && cell.1 + span_of(e.row_span) <= n_lines,
        Axis::Y => cell.0 + span_of(e.column_span) <= n_lines && cell.1 + clamp_span_pos(span_of(e.row_span), n_main) <= n_main,
    }
}

/// No span on the main axis of a right-to-left direction exceeds the line.
pub open spec fn reversal_spans_fit(elems: Seq<GridElement>, n_main: int, flow: GridFlow) -> bool {
    &&& (flow.main_axis == Axis::X && flow.x_fill_direction == Direction::RightToLeft)
            ==> forall|k: int| 0 <= k < elems.len() ==> span_of(#[trigger] elems[k].column_span) <= n_main
    &&& (flow.main_axis == Axis::Y && flow.y_fill_direction == Direction::RightToLeft)
            ==> forall|k: int| 0 <= k < elems.len() ==> span_of(#[trigger] elems[k].row_span) <= n_main
}

proof fn lemma_assign_len(elems: Seq<GridElement>, n_main: nat, flow: GridFlow)
    ensures
        assign_spec(elems, n_main, flow).1.len() == elems.len(),
    decreases elems.len(),
{
    if elems.len() > 0 {
        lemma_assign_len(elems.drop_last(), n_main, flow);
    }
}

/// Placing more elements never takes lines away: the occupancy of a prefix
/// has at most the lines of the whole.
proof fn lemma_assign_lines_monotone(elems: Seq<GridElement>, i: int, n_main: nat, flow: GridFlow)
    requires
        0 <= i <= elems.len(),
    ensures
        assign_spec(elems.take(i), n_main, flow).0.n_lines <= assign_spec(elems, n_main, flow).0.n_lines,
    decreases elems.len(),
{
    if i < elems.len() {
        lemma_assign_lines_monotone(elems.drop_last(), i, n_main, flow);
        assert(elems.drop_last().take(i) =~= elems.take(i));
    } else {
        assert(elems.take(i) =~= elems);
    }
}

/// The `(columns, rows)` an element covers: its spans, the main-axis one cut
/// to a whole line.
pub open spec fn covered_spans(e: GridElement, n_main: int, main_axis: Axis) -> (int, int) {
    match main_axis {
        Axis::X => (clamp_span_pos(span_of(e.column_span), n_main), span_of(e.row_span)),
        Axis::Y => (span_of(e.column_span), clamp_span_pos(span_of(e.row_span), n_main)),
    }
}

/// Whether the element `e` at `cell` covers the cell at column `c`, row `row`.
pub open spec fn covers(cell: (usize, usize), e: GridElement, n_main: int, main_axis: Axis, c: int, row: int) -> bool {
    let s = covered_spans(e, n_main, main_axis);
    cell.0 <= c < cell.0 + s.0 && cell.1 <= row < cell.1 + s.1
}

/// A `(column, row)` as a `(line, position)` of the occupancy.
pub open spec fn to_occ_spec(c: int, row: int, main_axis: Axis) -> (int, int) {
    match main_axis {
        Axis::X => (row, c),
        Axis::Y => (c, row),
    }
}

/// No two of the cells cover a common cell.
pub open spec fn pairwise_disjoint(cells: Seq<(usize, usize)>, elems: Seq<GridElement>, n_main: int, main_axis: Axis, upto: int) -> bool {
    forall|k1: int, k2: int, c: int, row: int| 0 <= k1 < k2 < upto
        ==> !(#[trigger] covers(cells[k1], elems[k1], n_main, main_axis, c, row) && #[trigger] covers(cells[k2], elems[k2], n_main, main_axis, c, row))
}

/// Every cell the elements cover lies within `n_cols` columns and `n_rows` rows.
pub open spec fn inside_grid(cells: Seq<(usize, usize)>, elems: Seq<GridElement>, n_main: int, main_axis: Axis, n_cols: int, n_rows: int) -> bool {
    forall|k: int, c: int, row: int| 0 <= k < cells.len() && #[trigger] covers(cells[k], elems[k], n_main, main_axis, c, row)
        ==> c < n_cols && row < n_rows
}

fn span_usize(s: u16) -> (r: usize)
    ensures
        r as int == span_of(s),
{
    if s < 1 { 1 } else { s as usize }
}

/// Gives each element of a grid its `(column, row)`, in order, and returns
/// them with the grid's number of columns and rows. Elements are placed one
/// after the other at the first free place along the flow's main axis
/// (`n_main` cells per line); with `backfill` every search starts from the
/// first line, filling gaps. On an axis that fills right to left the cells
/// are then mirrored.
pub fn grid_assign_cells(elements: &Vec<GridElement>, n_main: usize, flow: GridFlow) -> (r: (Vec<(usize, usize)>, usize, usize))
    requires
        n_main >= 1,
        (assign_spec(elements@, n_main as nat, flow).0.n_lines + 65536) * n_main <= usize::MAX,
        reversal_spans_fit(elements@, n_main as int, flow),
    ensures
        r.0.len() == elements.len(),
        (r.1 as int, r.2 as int) == grid_dims_spec(n_main as int, assign_spec(elements@, n_main as nat, flow).0.n_lines as int, flow.main_axis),
        forall|k: int| 0 <= k < elements.len() ==> (#[trigger] r.0@[k].0 as int, r.0@[k].1 as int) == final_cell(elements@, n_main as nat, flow, k),
        pairwise_disjoint(r.0@, elements@, n_main as int, flow.main_axis, elements.len() as int),
        inside_grid(r.0@, elements@, n_main as int, flow.main_axis, r.1 as int, r.2 as int),
{
    let arena = bump_new();
    let mut occ = GridOccupancy::new(n_main, &arena);
    let mut cells: Vec<(usize, usize)> = Vec::new();
    let mut i: usize = 0;
    proof {
        assert(elements@.take(0) =~= Seq::<GridElement>::empty());
        assert(occ.model() == empty_occ(n_main as nat));
    }
    while i < elements.len()
        invariant
            i <= elements.len(),
            n_main >= 1,
            (assign_spec(elements@, n_main as nat, flow).0.n_lines + 65536) * n_main <= usize::MAX,
            occ.wf(),
            occ.model() == assign_spec(elements@.take(i as int), n_main as nat, flow).0,
            occ.model().n_per_line == n_main,
            cells.len() == i,
            forall|j: int| 0 <= j < i ==> (#[trigger] cells@[j].0 as int, cells@[j].1 as int) == assign_spec(elements@.take(i as int), n_main as nat, flow).1[j],
            forall|j: int| 0 <= j < i ==> fits_grid((#[trigger] cells@[j].0 as int, cells@[j].1 as int), elements@[j], n_main as int, occ.model().n_lines as int, flow.main_axis),
            forall|j: int, c: int, row: int| 0 <= j < i && #[trigger] covers(cells@[j], elements@[j], n_main as int, flow.main_axis, c, row)
                ==> occ.model().occupied.contains(to_occ_spec(c, row, flow.main_axis)),
            pairwise_disjoint(cells@, elements@, n_main as int, flow.main_axis, i as int),
        decreases elements.len() - i,
    {
        let e = elements[i];
        let col_span = span_usize(e.column_span);
        let row_span = span_usize(e.row_span);
        let (span_line, span_pos) = to_occ_spans(col_span, row_span, flow);
        let ghost m_before = occ.model();
        proof {
            let total = assign_spec(elements@, n_main as nat, flow).0.n_lines;
            lemma_assign_lines_monotone(elements@, i as int, n_main as nat, flow);
            assert((occ.model().n_lines + span_line + 1) * n_main <= (total + 65536) * n_main) by (nonlinear_arith)
                requires occ.model().n_lines + span_line + 1 <= total + 65536, n_main >= 1;
        }
        let (occ_line, occ_pos) = occ.place_next(span_line, span_pos, flow.backfill);
        let (col, row) = from_occ(occ_line, occ_pos, flow);
        let ghost old_cells = cells@;
        cells.push((col, row));
        proof {
            let s1 = elements@.take(i as int + 1);
            assert(s1.drop_last() =~= elements@.take(i as int));
            assert(s1.last() == e);
            lemma_assign_len(elements@.take(i as int), n_main as nat, flow);
            let prev = assign_spec(elements@.take(i as int), n_main as nat, flow);
            let cur = assign_spec(s1, n_main as nat, flow);
            assert(cur.1 == prev.1.push((col as int, row as int)));
            assert forall|j: int| 0 <= j < i + 1 implies (#[trigger] cells@[j].0 as int, cells@[j].1 as int) == cur.1[j] by {
                if j < i {
                    assert(cells@[j] == old_cells[j]);
                }
            }
            let sl = clamp_span_line(span_line as int);
            let sp = clamp_span_pos(span_pos as int, n_main as int);
            let rect = rect_cells(occ_line as int, occ_pos as int, sl, sp);
            assert forall|c: int, row: int| #[trigger] covers(cells@[i as int], elements@[i as int], n_main as int, flow.main_axis, c, row)
                implies rect.contains(to_occ_spec(c, row, flow.main_axis)) by {
            }
            assert forall|j: int, c: int, row: int| 0 <= j < i + 1 && #[trigger] covers(cells@[j], elements@[j], n_main as int, flow.main_axis, c, row)
                implies occ.model().occupied.contains(to_occ_spec(c, row, flow.main_axis)) by {
                if j < i {
                    assert(cells@[j] == old_cells[j]);
                    assert(m_before.occupied.contains(to_occ_spec(c, row, flow.main_axis)));
                } else {
                    assert(rect.contains(to_occ_spec(c, row, flow.main_axis)));
                }
            }
            assert forall|k1: int, k2: int, c: int, row: int| 0 <= k1 < k2 < i + 1
                implies !(#[trigger] covers(cells@[k1], elements@[k1], n_main as int, flow.main_axis, c, row)
                    && #[trigger] covers(cells@[k2], elements@[k2], n_main as int, flow.main_axis, c, row)) by {
                assert(cells@[k1] == old_cells[k1]);
                if k2 < i {
                    assert(cells@[k2] == old_cells[k2]);
                } else if covers(cells@[k1], elements@[k1], n_main as int, flow.main_axis, c, row)
                    && covers(cells@[k2], elements@[k2], n_main as int, flow.main_axis, c, row) {
                    assert(m_before.occupied.contains(to_occ_spec(c, row, flow.main_axis)));
                    assert(rect.contains(to_occ_spec(c, row, flow.main_axis)));
                    let lp = to_occ_spec(c, row, flow.main_axis);
                    assert(!m_before.occupied.contains((lp.0, lp.1)));
                }
            }
            assert forall|j: int| 0 <= j < i + 1 implies fits_grid((#[trigger] cells@[j].0 as int, cells@[j].1 as int), elements@[j], n_main as int, occ.model().n_lines as int, flow.main_axis) by {
                if j < i {
                    assert(fits_grid((cells@[j].0 as int, cells@[j].1 as int), elements@[j], n_main as int, m_before.n_lines as int, flow.main_axis));
                }
            }
        }
        i = i + 1;
    }
    proof {
        assert(elements@.take(elements.len() as int) =~= elements@);
    }
    let n_lines = occ.n_lines();
    let (n_cols, n_rows) = match flow.main_axis {
        Axis::X => (n_main, n_lines),
        Axis::Y => (n_lines, n_main),
    };
    let reversed = flow.x_fill_direction == Direction::RightToLeft || flow.y_fill_direction == Direction::RightToLeft;
    proof {
        assert forall|k: int, c: int, row: int| 0 <= k < cells@.len() && #[trigger] covers(cells@[k], elements@[k], n_main as int, flow.main_axis, c, row)
            implies c < n_cols && row < n_rows by {
            assert(fits_grid((cells@[k].0 as int, cells@[k].1 as int), elements@[k], n_main as int, n_lines as int, flow.main_axis));
        }
    }
    if !reversed {
        return (cells, n_cols, n_rows);
    }
    let ghost logical = cells@;
    let mut k: usize = 0;
    while k < cells.len()
        invariant
            k <= cells.len(),
            cells.len() == elements.len(),
            reversed,
            reversal_spans_fit(elements@, n_main as int, flow),
            (n_cols as int, n_rows as int) == grid_dims_spec(n_main as int, n_lines as int, flow.main_axis),
            n_lines == assign_spec(elements@, n_main as nat, flow).0.n_lines,
            logical.len() == cells.len(),
            forall|j: int| 0 <= j < cells.len() ==> (#[trigger] logical[j].0 as int, logical[j].1 as int) == assign_spec(elements@, n_main as nat, flow).1[j],
            forall|j: int| 0 <= j < cells.len() ==> fits_grid((#[trigger] logical[j].0 as int, logical[j].1 as int), elements@[j], n_main as int, n_lines as int, flow.main_axis),
            forall|j: int| k <= j < cells.len() ==> #[trigger] cells@[j] == logical[j],
            forall|j: int| 0 <= j < k ==> (#[trigger] cells@[j].0 as int, cells@[j].1 as int) == final_cell(elements@, n_main as nat, flow, j),
            forall|j: int| 0 <= j < k ==> (#[trigger] cells@[j].0 as int, cells@[j].1 as int) == reversal_spec(logical[j].0 as int, logical[j].1 as int,
                span_of(elements@[j].column_span), span_of(elements@[j].row_span), n_cols as int, n_rows as int, flow),
            pairwise_disjoint(logical, elements@, n_main as int, flow.main_axis, elements.len() as int),
        decreases cells.len() - k,
    {
        let e = elements[k];
        let col_span = span_usize(e.column_span);
        let row_span = span_usize(e.row_span);
        let (lc, lr) = cells[k];
        proof {
            assert(fits_grid((logical[k as int].0 as int, logical[k as int].1 as int), elements@[k as int], n_main as int, n_lines as int, flow.main_axis));
            if flow.main_axis == Axis::X && flow.x_fill_direction == Direction::RightToLeft {
                assert(span_of(elements@[k as int].column_span) <= n_main);
            }
            if flow.main_axis == Axis::Y && flow.y_fill_direction == Direction::RightToLeft {
                assert(span_of(elements@[k as int].row_span) <= n_main);
            }
        }
        let (c, r) = apply_reversal(lc, lr, col_span, row_span, n_cols, n_rows, flow);
        cells.set(k, (c, r));
        k = k + 1;
    }
    proof {
        assert forall|k1: int, k2: int, c: int, row: int| 0 <= k1 < k2 < elements.len()
            implies !(#[trigger] covers(cells@[k1], elements@[k1], n_main as int, flow.main_axis, c, row)
                && #[trigger] covers(cells@[k2], elements@[k2], n_main as int, flow.main_axis, c, row)) by {
            let mc = if flow.x_fill_direction == Direction::RightToLeft { n_cols - 1 - c } else { c };
            let mr = if flow.y_fill_direction == Direction::RightToLeft { n_rows - 1 - row } else { row };
            lemma_mirror_covers(logical[k1], cells@[k1], elements@[k1], n_main as int, flow, n_cols as int, n_rows as int, c, row);
            lemma_mirror_covers(logical[k2], cells@[k2], elements@[k2], n_main as int, flow, n_cols as int, n_rows as int, c, row);
            assert(!(covers(logical[k1], elements@[k1], n_main as int, flow.main_axis, mc, mr)
                && covers(logical[k2], elements@[k2], n_main as int, flow.main_axis, mc, mr)));
        }
        assert forall|k: int, c: int, row: int| 0 <= k < cells@.len() && #[trigger] covers(cells@[k], elements@[k], n_main as int, flow.main_axis, c, row)
            implies c < n_cols && row < n_rows by {
            let mc = if flow.x_fill_direction == Direction::RightToLeft { n_cols - 1 - c } else { c };
            let mr = if flow.y_fill_direction == Direction::RightToLeft { n_rows - 1 - row } else { row };
            lemma_mirror_covers(logical[k], cells@[k], elements@[k], n_main as int, flow, n_cols as int, n_rows as int, c, row);
            assert(covers(logical[k], elements@[k], n_main as int, flow.main_axis, mc, mr));
            assert(fits_grid((logical[k].0 as int, logical[k].1 as int), elements@[k], n_main as int, n_lines as int, flow.main_axis));
        }
    }
    (cells, n_cols, n_rows)
}

/// A mirrored element covers the mirror of what it covered.
proof fn lemma_mirror_covers(logical: (usize, usize), placed: (usize, usize), e: GridElement, n_main: int, flow: GridFlow,
    n_cols: int, n_rows: int, c: int, row: int)
    requires
        (placed.0 as int, placed.1 as int) == reversal_spec(logical.0 as int, logical.1 as int, span_of(e.column_span),
            span_of(e.row_span), n_cols, n_rows, flow),
        (flow.main_axis == Axis::X && flow.x_fill_direction == Direction::RightToLeft) ==> span_of(e.column_span) <= n_main,
        (flow.main_axis == Axis::Y && flow.y_fill_direction == Direction::RightToLeft) ==> span_of(e.row_span) <= n_main,
    ensures
        covers(placed, e, n_main, flow.main_axis, c, row) ==> covers(logical, e, n_main, flow.main_axis,
            if flow.x_fill_direction == Direction::RightToLeft { n_cols - 1 - c } else { c },
            if flow.y_fill_direction == Direction::RightToLeft { n_rows - 1 - row } else { row }),
{
}

} // verus!
