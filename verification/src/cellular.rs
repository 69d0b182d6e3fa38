//! Generic totalistic 2D cellular automaton on a toroidal board: a birth /
//! survive rule over the eight-cell neighbourhood, one generation at a time,
//! and a bounded search for the board dying out or repeating.

use vstd::prelude::*;
use std::collections::VecDeque;
use vstd::arithmetic::div_mod::lemma_fundamental_div_mod;
use vstd::arithmetic::div_mod::lemma_fundamental_div_mod_converse;

verus! {

/// A totalistic birth / survive rule: `birth[n]` says whether a dead cell
/// with exactly `n` live neighbours comes alive, `survive[n]` whether a
/// live one with `n` live neighbours stays alive.
#[derive(Debug, Clone, Copy, PartialEq, Eq)]
pub struct Rule {
    pub birth: [bool; 9],
    pub survive: [bool; 9],
}

/// `true` exactly at the positions `< 9` named in `counts`.
pub open spec fn mask_of(counts: Seq<u8>) -> Seq<bool> {
    Seq::new(9, |n: int| exists|j: int| 0 <= j < counts.len() && counts[j] == n)
}

/// Conway's Game of Life, B3/S23.
pub open spec fn life_rule() -> Rule {
    Rule {
        birth: [false, false, false, true, false, false, false, false, false],
        survive: [false, false, true, true, false, false, false, false, false],
    }
}

impl Rule {
    /// Conway's Game of Life, B3/S23: born with exactly 3 live
    /// neighbours, survives with 2 or 3.
    pub fn life() -> (rule: Rule)
        ensures
            rule == life_rule(),
    {
        Rule {
            birth: [false, false, false, true, false, false, false, false, false],
            survive: [false, false, true, true, false, false, false, false, false],
        }
    }

    /// The mask that is set at every count listed in `counts`; counts of 9
    /// or more have no slot and are ignored.
    pub fn from_counts(counts: &[u8]) -> (mask: [bool; 9])
        ensures
            mask@ == mask_of(counts@),
    {
        let mut mask = [false; 9];
        let mut j: usize = 0;
        while j < counts.len()
            invariant
                j <= counts.len(),
                mask@.len() == 9,
                forall|n: int|
                    0 <= n < 9 ==> (#[trigger] mask@[n] <==> exists|k: int|
                        0 <= k < j && counts@[k] == n),
            decreases counts.len() - j,
        {
            let c = counts[j];
            if (c as usize) < 9 {
                mask[c as usize] = true;
            }
            proof {
                assert forall|n: int| 0 <= n < 9 implies (#[trigger] mask@[n] <==> exists|k: int|
                    0 <= k < j + 1 && counts@[k] == n) by {
                    if mask@[n] && !(exists|k: int| 0 <= k < j && counts@[k] == n) {
                        assert(counts@[j as int] == n);
                    }
                    if exists|k: int| 0 <= k < j + 1 && counts@[k] == n {
                        let k = choose|k: int| 0 <= k < j + 1 && counts@[k] == n;
                        if k < j {
                            assert(exists|k: int| 0 <= k < j && counts@[k] == n);
                        }
                    }
                }
            }
            j = j + 1;
        }
        assert(mask@ =~= mask_of(counts@));
        mask
    }
}

/// A `width` x `height` board of cells stored row by row; `cells[y *
/// width + x]` is cell `(x, y)`.
#[derive(Debug, PartialEq, Eq)]
pub struct Board {
    pub width: usize,
    pub height: usize,
    pub cells: Vec<bool>,
}

/// Row-major index of cell `(x, y)` on a board `w` cells wide.
pub open spec fn cell_index(x: int, y: int, w: int) -> int {
    y * w + x
}

/// Number of `true` entries of `s`.
pub open spec fn count_true(s: Seq<bool>) -> nat
    decreases s.len(),
{
    if s.len() == 0 {
        0
    } else {
        count_true(s.drop_last()) + if s.last() { 1nat } else { 0nat }
    }
}

/// `c + d` wrapped into `[0, s)`.
pub open spec fn wrap_spec(c: int, d: int, s: int) -> int {
    (c + d) % s
}

/// Whether cell `(x, y)` of the row-major `cells` of a board `w` wide is
/// alive.
pub open spec fn alive_at(cells: Seq<bool>, w: int, x: int, y: int) -> bool {
    cells[cell_index(x, y, w)]
}

/// 1 for a live neighbour at offset `(dx, dy)` of `(x, y)` on the torus.
pub open spec fn neighbour(cells: Seq<bool>, w: int, h: int, x: int, y: int, dx: int, dy: int) -> nat {
    if alive_at(cells, w, wrap_spec(x, dx, w), wrap_spec(y, dy, h)) {
        1
    } else {
        0
    }
}

/// Live cells among the eight toroidal neighbours of `(x, y)`.
pub open spec fn neighbour_count(cells: Seq<bool>, w: int, h: int, x: int, y: int) -> nat {
    neighbour(cells, w, h, x, y, -1, -1) + neighbour(cells, w, h, x, y, 0, -1) + neighbour(
        cells,
        w,
        h,
        x,
        y,
        1,
        -1,
    ) + neighbour(cells, w, h, x, y, -1, 0) + neighbour(cells, w, h, x, y, 1, 0) + neighbour(
        cells,
        w,
        h,
        x,
        y,
        -1,
        1,
    ) + neighbour(cells, w, h, x, y, 0, 1) + neighbour(cells, w, h, x, y, 1, 1)
}

/// The state of cell `(x, y)` one generation on under `rule`.
pub open spec fn next_alive(cells: Seq<bool>, w: int, h: int, rule: Rule, x: int, y: int) -> bool {
    let n = neighbour_count(cells, w, h, x, y) as int;
    if alive_at(cells, w, x, y) {
        rule.survive@[n]
    } else {
        rule.birth@[n]
    }
}

/// The whole board one generation on under `rule`.
pub open spec fn step_cells(cells: Seq<bool>, w: int, h: int, rule: Rule) -> Seq<bool> {
    Seq::new((w * h) as nat, |i: int| next_alive(cells, w, h, rule, i % w, i / w))
}

/// The board `g` generations on from `cells` under `rule`.
pub open spec fn evolve(cells: Seq<bool>, w: int, h: int, rule: Rule, g: nat) -> Seq<bool>
    decreases g,
{
    if g == 0 {
        cells
    } else {
        step_cells(evolve(cells, w, h, rule, (g - 1) as nat), w, h, rule)
    }
}

/// The cells of a `w` x `h` board whose live cells are those in `live`.
pub open spec fn cells_from_live(w: usize, h: usize, live: Seq<(usize, usize)>) -> Seq<bool> {
    Seq::new(
        (w * h) as nat,
        |i: int| exists|j: int| 0 <= j < live.len() && cell_index(live[j].0 as int, live[j].1 as int, w as int) == i,
    )
}

/// Row-major order of two cell positions.
pub open spec fn row_major_before(p: (usize, usize), q: (usize, usize)) -> bool {
    p.1 < q.1 || (p.1 == q.1 && p.0 < q.0)
}

/// `(x, y)` lies on a `w` x `h` board, both as coordinates and as index.
pub proof fn lemma_index_in_board(x: int, y: int, w: int, h: int)
    requires
        0 <= x < w,
        0 <= y < h,
    ensures
        0 <= cell_index(x, y, w) < w * h,
        cell_index(x, y, w) % w == x,
        cell_index(x, y, w) / w == y,
        w <= w * h,
{
    assert(0 <= y * w) by (nonlinear_arith)
        requires
            0 <= y,
            0 < w,
    ;
    assert(y * w + x < w * h) by (nonlinear_arith)
        requires
            0 <= x < w,
            0 <= y < h,
    ;
    assert(w <= w * h) by (nonlinear_arith)
        requires
            0 < w,
            1 <= h,
    ;
    lemma_fundamental_div_mod_converse(y * w + x, w, y, x);
}

/// Every index of a `w` x `h` board names one of its cells.
pub proof fn lemma_board_index_decompose(i: int, w: int, h: int)
    requires
        0 <= i < w * h,
        0 < w,
    ensures
        0 <= i % w < w,
        0 <= i / w < h,
        cell_index(i % w, i / w, w) == i,
{
    lemma_fundamental_div_mod(i, w);
    assert((i / w) * w == w * (i / w)) by (nonlinear_arith);
    assert(i / w < h) by (nonlinear_arith)
        requires
            0 <= i < w * h,
            0 < w,
            i == w * (i / w) + i % w,
            0 <= i % w < w,
    ;
    assert(0 <= i / w) by (nonlinear_arith)
        requires
            0 <= i,
            0 < w,
            i == w * (i / w) + i % w,
            0 <= i % w < w,
    ;
}

impl Board {
    /// The cells, row by row.
    pub open spec fn cells(&self) -> Seq<bool> {
        self.cells@
    }

    /// The board holds exactly `width * height` cells, a number an
    /// allocation can hold.
    pub open spec fn wf(&self) -> bool {
        &&& self.cells().len() == self.width * self.height
        &&& self.width * self.height <= isize::MAX
    }

    /// Whether cell `(x, y)` is alive.
    pub open spec fn alive(&self, x: int, y: int) -> bool {
        alive_at(self.cells(), self.width as int, x, y)
    }

    /// An all-dead `width` x `height` board.
    pub fn new(width: usize, height: usize) -> (board: Self)
        requires
            width * height <= isize::MAX,
        ensures
            board.wf(),
            board.width == width,
            board.height == height,
            board.cells() == Seq::new((width * height) as nat, |i: int| false),
    {
        let n = width * height;
        let cells = vec![false; n];
        let board = Board { width, height, cells };
        assert(board.cells() =~= Seq::new((width * height) as nat, |i: int| false));
        board
    }

    /// A board whose live cells are exactly those listed in `live`.
    pub fn from_live_cells(width: usize, height: usize, live: &[(usize, usize)]) -> (board: Self)
        requires
            width * height <= isize::MAX,
            forall|j: int|
                0 <= j < live@.len() ==> cell_index(
                    #[trigger] live@[j].0 as int,
                    live@[j].1 as int,
                    width as int,
                ) < width * height,
        ensures
            board.wf(),
            board.width == width,
            board.height == height,
            board.cells() == cells_from_live(width, height, live@),
    {
        let mut board = Self::new(width, height);
        let mut j: usize = 0;
        while j < live.len()
            invariant
                j <= live.len(),
                board.wf(),
                board.width == width,
                board.height == height,
                forall|k: int|
                    0 <= k < live@.len() ==> cell_index(
                        #[trigger] live@[k].0 as int,
                        live@[k].1 as int,
                        width as int,
                    ) < width * height,
                forall|i: int|
                    0 <= i < width * height ==> (#[trigger] board.cells()[i] <==> exists|k: int|
                        0 <= k < j && cell_index(live@[k].0 as int, live@[k].1 as int, width as int)
                            == i),
            decreases live.len() - j,
        {
            let (x, y) = live[j];
            assert(cell_index(live@[j as int].0 as int, live@[j as int].1 as int, width as int) < width
                * height);
            board.set(x, y, true);
            proof {
                assert forall|i: int| 0 <= i < width * height implies (#[trigger] board.cells()[i]
                    <==> exists|k: int|
                    0 <= k < j + 1 && cell_index(live@[k].0 as int, live@[k].1 as int, width as int)
                        == i) by {
                    if exists|k: int|
                        0 <= k < j + 1 && cell_index(live@[k].0 as int, live@[k].1 as int, width as int)
                            == i {
                        let k = choose|k: int|
                            0 <= k < j + 1 && cell_index(
                                live@[k].0 as int,
                                live@[k].1 as int,
                                width as int,
                            ) == i;
                        if k < j {
                            assert(exists|k: int|
                                0 <= k < j && cell_index(
                                    live@[k].0 as int,
                                    live@[k].1 as int,
                                    width as int,
                                ) == i);
                        }
                    }
                }
            }
            j = j + 1;
        }
        assert(board.cells() =~= cells_from_live(width, height, live@));
        board
    }

    /// Whether cell `(x, y)` is alive; the row-major index must fall
    /// inside the board.
    pub fn get(&self, x: usize, y: usize) -> (alive: bool)
        requires
            self.wf(),
            cell_index(x as int, y as int, self.width as int) < self.width * self.height,
        ensures
            alive == self.cells()[cell_index(x as int, y as int, self.width as int)],
    {
        assert(0 <= y * self.width) by (nonlinear_arith);
        self.cells[y * self.width + x]
    }

    /// Sets cell `(x, y)`; the row-major index must fall inside the board.
    pub fn set(&mut self, x: usize, y: usize, alive: bool)
        requires
            old(self).wf(),
            cell_index(x as int, y as int, old(self).width as int) < old(self).width * old(
                self,
            ).height,
        ensures
            final(self).wf(),
            final(self).width == old(self).width,
            final(self).height == old(self).height,
            final(self).cells() == old(self).cells().update(
                cell_index(x as int, y as int, old(self).width as int),
                alive,
            ),
    {
        assert(0 <= y * self.width) by (nonlinear_arith);
        let i = y * self.width + x;
        self.cells.set(i, alive);
    }

    /// Number of live cells.
    pub fn live_count(&self) -> (n: usize)
        ensures
            n == count_true(self.cells()),
    {
        let mut n: usize = 0;
        let mut i: usize = 0;
        while i < self.cells.len()
            invariant
                i <= self.cells@.len(),
                n == count_true(self.cells@.take(i as int)),
                n <= i,
            decreases self.cells.len() - i,
        {
            assert(self.cells@.take(i + 1).drop_last() =~= self.cells@.take(i as int));
            if self.cells[i] {
                n = n + 1;
            }
            i = i + 1;
        }
        assert(self.cells@.take(self.cells@.len() as int) =~= self.cells@);
        n
    }

    /// The live cells as `(x, y)` pairs in row-major order.
    pub fn live_cells(&self) -> (cells: Vec<(usize, usize)>)
        requires
            self.wf(),
        ensures
            forall|k: int|
                #![trigger cells@[k]] 0 <= k < cells@.len() ==> cells@[k].0 < self.width && cells@[k].1
                    < self.height && self.alive(cells@[k].0 as int, cells@[k].1 as int),
            forall|k1: int, k2: int|
                0 <= k1 < k2 < cells@.len() ==> row_major_before(
                    #[trigger] cells@[k1],
                    #[trigger] cells@[k2],
                ),
            forall|x: int, y: int|
                0 <= x < self.width && 0 <= y < self.height && #[trigger] self.alive(x, y)
                    ==> exists|k: int|
                    0 <= k < cells@.len() && cells@[k] == (x as usize, y as usize),
    {
        let mut cells: Vec<(usize, usize)> = Vec::new();
        let mut y: usize = 0;
        while y < self.height
            invariant
                self.wf(),
                y <= self.height,
                forall|k: int|
                    #![trigger cells@[k]] 0 <= k < cells@.len() ==> cells@[k].0 < self.width && cells@[k].1
                        < y && self.alive(cells@[k].0 as int, cells@[k].1 as int),
                forall|k1: int, k2: int|
                    0 <= k1 < k2 < cells@.len() ==> row_major_before(
                        #[trigger] cells@[k1],
                        #[trigger] cells@[k2],
                    ),
                forall|xx: int, yy: int|
                    0 <= xx < self.width && 0 <= yy < y && #[trigger] self.alive(xx, yy)
                        ==> exists|k: int|
                        0 <= k < cells@.len() && cells@[k] == (xx as usize, yy as usize),
            decreases self.height - y,
        {
            let mut x: usize = 0;
            assert forall|k: int| #![trigger cells@[k]] 0 <= k < cells@.len() implies cells@[k].0 < self.width
                && (cells@[k].1 < y || (cells@[k].1 == y && cells@[k].0 < x)) && self.alive(
                cells@[k].0 as int,
                cells@[k].1 as int,
            ) by {}
            while x < self.width
                invariant
                    self.wf(),
                    y < self.height,
                    x <= self.width,
                    forall|k: int|
                        #![trigger cells@[k]] 0 <= k < cells@.len() ==> cells@[k].0 < self.width && (
                        cells@[k].1 < y || (cells@[k].1 == y && cells@[k].0 < x)) && self.alive(
                            cells@[k].0 as int,
                            cells@[k].1 as int,
                        ),
                    forall|k1: int, k2: int|
                        0 <= k1 < k2 < cells@.len() ==> row_major_before(
                            #[trigger] cells@[k1],
                            #[trigger] cells@[k2],
                        ),
                    forall|xx: int, yy: int|
                        0 <= xx < self.width && 0 <= yy <= y && (yy < y || xx < x)
                            && #[trigger] self.alive(xx, yy) ==> exists|k: int|
                            0 <= k < cells@.len() && cells@[k] == (xx as usize, yy as usize),
                decreases self.width - x,
            {
                proof {
                    lemma_index_in_board(x as int, y as int, self.width as int, self.height as int);
                }
                if self.get(x, y) {
                    let ghost before = cells@;
                    assert forall|k: int| 0 <= k < before.len() implies row_major_before(
                        #[trigger] before[k],
                        (x, y),
                    ) by {
                        assert(before[k].1 < y || (before[k].1 == y && before[k].0 < x));
                    }
                    cells.push((x, y));
                    proof {
                        assert forall|k1: int, k2: int|
                            0 <= k1 < k2 < cells@.len() implies row_major_before(
                            #[trigger] cells@[k1],
                            #[trigger] cells@[k2],
                        ) by {
                            if k2 < before.len() {
                                assert(cells@[k1] == before[k1] && cells@[k2] == before[k2]);
                            } else {
                                assert(cells@[k1] == before[k1]);
                            }
                        }
                        assert forall|xx: int, yy: int|
                            0 <= xx < self.width && 0 <= yy <= y && (yy < y || xx < x + 1)
                                && #[trigger] self.alive(xx, yy) implies exists|k: int|
                            0 <= k < cells@.len() && cells@[k] == (xx as usize, yy as usize) by {
                            if yy == y && xx == x {
                                assert(cells@[before.len() as int] == (xx as usize, yy as usize));
                            } else {
                                let k = choose|k: int|
                                    0 <= k < before.len() && before[k] == (xx as usize, yy as usize);
                                assert(cells@[k] == before[k]);
                            }
                        }
                    }
                } else {
                    proof {
                        assert forall|xx: int, yy: int|
                            0 <= xx < self.width && 0 <= yy <= y && (yy < y || xx < x + 1)
                                && #[trigger] self.alive(xx, yy) implies exists|k: int|
                            0 <= k < cells@.len() && cells@[k] == (xx as usize, yy as usize) by {
                            if yy == y && xx == x {
                                assert(!self.alive(xx, yy));
                            }
                        }
                    }
                }
                x = x + 1;
            }
            y = y + 1;
        }
        cells
    }

    /// Live cells among the eight neighbours of `(x, y)`, wrapping around
    /// each edge to the opposite one.
    fn live_neighbor_count(&self, x: usize, y: usize) -> (count: u8)
        requires
            self.wf(),
            x < self.width,
            y < self.height,
        ensures
            count == neighbour_count(self.cells(), self.width as int, self.height as int, x as int, y as int),
    {
        let w = self.width;
        let h = self.height;
        proof {
            lemma_index_in_board(x as int, y as int, w as int, h as int);
            assert(h <= w * h) by (nonlinear_arith)
                requires
                    1 <= w,
            ;
        }
        let mut count: u8 = 0;
        if self.neighbour_alive(x, y, -1, -1) {
            count = count + 1;
        }
        if self.neighbour_alive(x, y, 0, -1) {
            count = count + 1;
        }
        if self.neighbour_alive(x, y, 1, -1) {
            count = count + 1;
        }
        if self.neighbour_alive(x, y, -1, 0) {
            count = count + 1;
        }
        if self.neighbour_alive(x, y, 1, 0) {
            count = count + 1;
        }
        if self.neighbour_alive(x, y, -1, 1) {
            count = count + 1;
        }
        if self.neighbour_alive(x, y, 0, 1) {
            count = count + 1;
        }
        if self.neighbour_alive(x, y, 1, 1) {
            count = count + 1;
        }
        count
    }

    /// Whether the neighbour at offset `(dx, dy)` of `(x, y)` is alive.
    fn neighbour_alive(&self, x: usize, y: usize, dx: isize, dy: isize) -> (alive: bool)
        requires
            self.wf(),
            x < self.width,
            y < self.height,
            self.width <= isize::MAX,
            self.height <= isize::MAX,
            -1 <= dx <= 1,
            -1 <= dy <= 1,
        ensures
            alive == (neighbour(
                self.cells(),
                self.width as int,
                self.height as int,
                x as int,
                y as int,
                dx as int,
                dy as int,
            ) == 1),
    {
        let nx = wrap(x, dx, self.width);
        let ny = wrap(y, dy, self.height);
        proof {
            lemma_index_in_board(nx as int, ny as int, self.width as int, self.height as int);
        }
        self.get(nx, ny)
    }

    /// The board one generation on under `rule`, computed from an
    /// unchanged snapshot of this one.
    pub fn step(&self, rule: &Rule) -> (next: Board)
        requires
            self.wf(),
        ensures
            next.wf(),
            next.width == self.width,
            next.height == self.height,
            next.cells() == step_cells(self.cells(), self.width as int, self.height as int, *rule),
    {
        let w = self.width;
        let h = self.height;
        let mut next = Board::new(w, h);
        let mut y: usize = 0;
        while y < h
            invariant
                self.wf(),
                next.wf(),
                next.width == w,
                next.height == h,
                w == self.width,
                h == self.height,
                y <= h,
                forall|xx: int, yy: int|
                    0 <= xx < w && 0 <= yy < y ==> #[trigger] next.alive(xx, yy) == next_alive(
                        self.cells(),
                        w as int,
                        h as int,
                        *rule,
                        xx,
                        yy,
                    ),
            decreases h - y,
        {
            let mut x: usize = 0;
            while x < w
                invariant
                    self.wf(),
                    next.wf(),
                    next.width == w,
                    next.height == h,
                    w == self.width,
                    h == self.height,
                    y < h,
                    x <= w,
                    forall|xx: int, yy: int|
                        0 <= xx < w && 0 <= yy <= y && (yy < y || xx < x) ==> #[trigger] next.alive(
                            xx,
                            yy,
                        ) == next_alive(self.cells(), w as int, h as int, *rule, xx, yy),
                decreases w - x,
            {
                proof {
                    lemma_index_in_board(x as int, y as int, w as int, h as int);
                }
                let n = self.live_neighbor_count(x, y) as usize;
                let next_alive_here = if self.get(x, y) {
                    rule.survive[n]
                } else {
                    rule.birth[n]
                };
                let ghost before = next.cells();
                assert forall|xx: int, yy: int|
                    0 <= xx < w && 0 <= yy <= y && (yy < y || xx < x) implies #[trigger] alive_at(
                        before,
                        w as int,
                        xx,
                        yy,
                    ) == next_alive(self.cells(), w as int, h as int, *rule, xx, yy) by {
                    assert(next.alive(xx, yy) == next_alive(self.cells(), w as int, h as int, *rule, xx, yy));
                }
                assert(next_alive_here == next_alive(self.cells(), w as int, h as int, *rule, x as int, y as int));
                next.set(x, y, next_alive_here);
                proof {
                    assert forall|xx: int, yy: int|
                        0 <= xx < w && 0 <= yy <= y && (yy < y || xx < x + 1) implies #[trigger] next.alive(
                            xx,
                            yy,
                        ) == next_alive(self.cells(), w as int, h as int, *rule, xx, yy) by {
                        lemma_index_in_board(xx, yy, w as int, h as int);
                        lemma_index_in_board(x as int, y as int, w as int, h as int);
                        if yy == y && xx == x {
                            assert(next.cells()[cell_index(xx, yy, w as int)] == next_alive_here);
                        } else {
                            assert(alive_at(before, w as int, xx, yy) == next_alive(self.cells(), w as int, h as int, *rule, xx, yy));
                            assert(cell_index(xx, yy, w as int) != cell_index(x as int, y as int, w as int)) by {
                            }
                        }
                    }
                }
                x = x + 1;
            }
            y = y + 1;
        }
        proof {
            let target = step_cells(self.cells(), w as int, h as int, *rule);
            assert forall|i: int| 0 <= i < next.cells().len() implies next.cells()[i] == target[i] by {
                lemma_board_index_decompose(i, w as int, h as int);
                assert(next.alive(i % (w as int), i / (w as int)) == next_alive(
                    self.cells(),
                    w as int,
                    h as int,
                    *rule,
                    i % (w as int),
                    i / (w as int),
                ));
            }
            assert(next.cells() =~= target);
        }
        next
    }
}

impl Clone for Board {
    fn clone(&self) -> (copy: Self)
        ensures
            copy.width == self.width,
            copy.height == self.height,
            copy.cells() == self.cells(),
    {
        let mut cells: Vec<bool> = Vec::new();
        let mut i: usize = 0;
        while i < self.cells.len()
            invariant
                i <= self.cells@.len(),
                cells@ == self.cells@.take(i as int),
            decreases self.cells.len() - i,
        {
            cells.push(self.cells[i]);
            i = i + 1;
            assert(cells@ =~= self.cells@.take(i as int));
        }
        assert(self.cells@.take(i as int) =~= self.cells@);
        Board { width: self.width, height: self.height, cells }
    }
}

/// Whether two boards have the same dimensions and the same cells.
pub fn same_board(a: &Board, b: &Board) -> (same: bool)
    ensures
        same == (a.width == b.width && a.height == b.height && a.cells() == b.cells()),
{
    if a.width != b.width || a.height != b.height || a.cells.len() != b.cells.len() {
        return false;
    }
    let mut i: usize = 0;
    while i < a.cells.len()
        invariant
            a.cells@.len() == b.cells@.len(),
            i <= a.cells@.len(),
            forall|j: int| 0 <= j < i ==> a.cells@[j] == b.cells@[j],
        decreases a.cells.len() - i,
    {
        if a.cells[i] != b.cells[i] {
            return false;
        }
        i = i + 1;
    }
    assert(a.cells@ =~= b.cells@);
    true
}

/// What a bounded forward simulation found.
#[derive(Debug, Clone, Copy, PartialEq, Eq)]
pub enum Outcome {
    /// Every cell died; `generation` is when the board first went empty.
    DiedOut { generation: usize },
    /// The board exactly repeated the one `period` generations earlier.
    Stabilized { generation: usize, period: usize },
    /// Neither happened within the generation budget or the history
    /// window.
    StillEvolving,
}

/// The oldest generation still held when generation `g` is checked: the
/// last `window` generations before `g` (none for a window of 0).
pub open spec fn history_start(g: nat, window: nat) -> nat {
    if g >= window { (g - window) as nat } else { 0 }
}

/// The oldest generation `k'` with `k <= k' < g` whose board equals the
/// board of generation `g`.
pub open spec fn first_repeat(cells: Seq<bool>, w: int, h: int, rule: Rule, g: nat, k: nat) -> Option<nat>
    decreases g - k,
{
    if k >= g {
        None
    } else if evolve(cells, w, h, rule, k) == evolve(cells, w, h, rule, g) {
        Some(k)
    } else {
        first_repeat(cells, w, h, rule, g, k + 1)
    }
}

/// Outcome of the search from generation `g` on, up to generation `max`.
pub open spec fn outcome_from(
    cells: Seq<bool>,
    w: int,
    h: int,
    rule: Rule,
    max: nat,
    window: nat,
    g: nat,
) -> Outcome
    decreases max + 1 - g,
{
    if g > max || g == 0 {
        Outcome::StillEvolving
    } else if count_true(evolve(cells, w, h, rule, g)) == 0 {
        Outcome::DiedOut { generation: g as usize }
    } else {
        match first_repeat(cells, w, h, rule, g, history_start(g, window)) {
            Some(k) => Outcome::Stabilized { generation: g as usize, period: (g - k) as usize },
            None => outcome_from(cells, w, h, rule, max, window, g + 1),
        }
    }
}

/// Runs `board` forward under `rule` for at most `max_generations`
/// generations. Each new generation is first checked for being empty
/// (`DiedOut`), then compared with the last `history_window` generations
/// before it; the oldest equal one gives `Stabilized` with
/// its distance as the period. A cycle longer than the window, or none
/// within the budget, reads as `StillEvolving`.
pub fn simulate_until_stable(
    board: &Board,
    rule: &Rule,
    max_generations: usize,
    history_window: usize,
) -> (outcome: Outcome)
    requires
        board.wf(),
    ensures
        outcome == outcome_from(
            board.cells(),
            board.width as int,
            board.height as int,
            *rule,
            max_generations as nat,
            history_window as nat,
            1,
        ),
{
    let ghost start = board.cells();
    let ghost w = board.width as int;
    let ghost h = board.height as int;
    let ghost max = max_generations as nat;
    let ghost window = history_window as nat;
    if max_generations == 0 {
        return Outcome::StillEvolving;
    }
    let mut history: VecDeque<(usize, Board)> = VecDeque::new();
    if history_window > 0 {
        history.push_back((0, board.clone()));
    }
    let mut current = board.clone();
    let mut generation: usize = 1;
    loop
        invariant
            1 <= generation <= max_generations,
            max == max_generations,
            window == history_window,
            start == board.cells(),
            w == board.width,
            h == board.height,
            current.wf(),
            current.width == w,
            current.height == h,
            current.cells() == evolve(start, w, h, *rule, (generation - 1) as nat),
            history@.len() == generation - history_start(generation as nat, window),
            history_start(generation as nat, window) <= generation,
            forall|j: int|
                #![trigger history@[j]]
                0 <= j < history@.len() ==> history@[j].0 == history_start(generation as nat, window)
                    + j && history@[j].1.width == w && history@[j].1.height == h
                    && history@[j].1.cells() == evolve(
                    start,
                    w,
                    h,
                    *rule,
                    (history_start(generation as nat, window) + j) as nat,
                ),
            outcome_from(start, w, h, *rule, max, window, 1) == outcome_from(
                start,
                w,
                h,
                *rule,
                max,
                window,
                generation as nat,
            ),
        decreases max_generations - generation,
    {
        current = current.step(rule);
        let ghost g = generation as nat;
        let ghost lo = history_start(g, window);
        assert(current.cells() == evolve(start, w, h, *rule, g));
        if current.live_count() == 0 {
            assert(outcome_from(start, w, h, *rule, max, window, g) == Outcome::DiedOut {
                generation,
            });
            return Outcome::DiedOut { generation };
        }
        assert(count_true(evolve(start, w, h, *rule, g)) != 0);
        let mut j: usize = 0;
        while j < history.len()
            invariant
                j <= history@.len(),
                history@.len() == g - lo,
                g == generation,
                lo <= g,
                lo == history_start(g, window),
                1 <= generation <= max_generations,
                max == max_generations,
                window == history_window,
                count_true(evolve(start, w, h, *rule, g)) != 0,
                start == board.cells(),
                w == board.width,
                h == board.height,
                outcome_from(start, w, h, *rule, max, window, 1) == outcome_from(
                    start,
                    w,
                    h,
                    *rule,
                    max,
                    window,
                    g,
                ),
                current.width == w,
                current.height == h,
                current.cells() == evolve(start, w, h, *rule, g),
                forall|jj: int|
                    #![trigger history@[jj]]
                    0 <= jj < history@.len() ==> history@[jj].0 == lo + jj && history@[jj].1.width
                        == w && history@[jj].1.height == h && history@[jj].1.cells() == evolve(
                        start,
                        w,
                        h,
                        *rule,
                        (lo + jj) as nat,
                    ),
                first_repeat(start, w, h, *rule, g, lo) == first_repeat(
                    start,
                    w,
                    h,
                    *rule,
                    g,
                    (lo + j) as nat,
                ),
            decreases history.len() - j,
        {
            assert(history@[j as int].0 == lo + j);
            if same_board(&history[j].1, &current) {
                assert(first_repeat(start, w, h, *rule, g, (lo + j) as nat) == Some((lo + j) as nat));
                assert(outcome_from(start, w, h, *rule, max, window, g) == Outcome::Stabilized {
                    generation,
                    period: (g - (lo + j)) as usize,
                });
                return Outcome::Stabilized { generation, period: generation - history[j].0 };
            }
            j = j + 1;
        }
        assert(first_repeat(start, w, h, *rule, g, (lo + j) as nat) == None::<nat>);
        assert(outcome_from(start, w, h, *rule, max, window, g) == outcome_from(
            start,
            w,
            h,
            *rule,
            max,
            window,
            g + 1,
        ));
        let ghost before = history@;
        history.push_back((generation, current.clone()));
        let ghost pushed = history@;
        let popped = history.len() > history_window;
        if popped {
            history.pop_front();
        }
        proof {
            let lo2 = history_start(g + 1, window);
            if window == 0 {
                assert(lo == g);
                assert(lo2 == g + 1);
            } else if g >= window {
                assert(lo == g - window);
                assert(lo2 == g + 1 - window);
            } else {
                assert(lo == 0);
                assert(lo2 == 0);
            }
            assert(pushed.len() == g - lo + 1);
            assert(popped == (lo2 == lo + 1));
            assert(history@.len() == g + 1 - lo2);
            assert forall|jj: int|
                #![trigger history@[jj]]
                0 <= jj < history@.len() implies history@[jj].0 == lo2 + jj && history@[jj].1.width
                    == w && history@[jj].1.height == h && history@[jj].1.cells() == evolve(
                    start,
                    w,
                    h,
                    *rule,
                    (lo2 + jj) as nat,
                ) by {}
        }
        if generation == max_generations {
            assert(outcome_from(start, w, h, *rule, max, window, g + 1) == Outcome::StillEvolving);
            return Outcome::StillEvolving;
        }
        generation = generation + 1;
    }
}

/// `cells` lists exactly the live cells of `b`, each on the board, in
/// strict row-major order: what [`Board::live_cells`] returns.
pub open spec fn lists_live_cells(b: Board, cells: Seq<(usize, usize)>) -> bool {
    &&& forall|k: int|
        #![trigger cells[k]]
        0 <= k < cells.len() ==> cells[k].0 < b.width && cells[k].1 < b.height && b.alive(
            cells[k].0 as int,
            cells[k].1 as int,
        )
    &&& forall|k1: int, k2: int|
        0 <= k1 < k2 < cells.len() ==> row_major_before(#[trigger] cells[k1], #[trigger] cells[k2])
    &&& forall|x: int, y: int|
        0 <= x < b.width && 0 <= y < b.height && #[trigger] b.alive(x, y) ==> exists|k: int|
            0 <= k < cells.len() && cells[k] == (x as usize, y as usize)
}

/// Building a board of the same size from the list of a board's live
/// cells gives that board back.
pub proof fn live_cells_rebuild_the_board(b: Board, cells: Seq<(usize, usize)>)
    requires
        b.wf(),
        lists_live_cells(b, cells),
    ensures
        cells_from_live(b.width, b.height, cells) == b.cells(),
{
    let w = b.width as int;
    let h = b.height as int;
    let rebuilt = cells_from_live(b.width, b.height, cells);
    assert forall|i: int| 0 <= i < w * h implies rebuilt[i] == b.cells()[i] by {
        lemma_board_index_decompose(i, w, h);
        let x = i % w;
        let y = i / w;
        if b.cells()[i] {
            assert(b.alive(x, y));
            let k = choose|k: int| 0 <= k < cells.len() && cells[k] == (x as usize, y as usize);
            assert(cell_index(cells[k].0 as int, cells[k].1 as int, w) == i);
        }
        if rebuilt[i] {
            let j = choose|j: int|
                0 <= j < cells.len() && cell_index(cells[j].0 as int, cells[j].1 as int, w) == i;
            assert(b.alive(cells[j].0 as int, cells[j].1 as int));
        }
    }
    assert(rebuilt =~= b.cells());
}

/// A strictly increasing list of indices that names exactly the `true`
/// entries of `s` has as many entries as `s` has `true` entries.
proof fn lemma_count_listed(s: Seq<bool>, idx: Seq<int>)
    requires
        forall|a: int, b: int| 0 <= a < b < idx.len() ==> #[trigger] idx[a] < #[trigger] idx[b],
        forall|k: int| #![trigger idx[k]] 0 <= k < idx.len() ==> 0 <= idx[k] < s.len() && s[idx[k]],
        forall|i: int| 0 <= i < s.len() && #[trigger] s[i] ==> exists|k: int| 0 <= k < idx.len() && idx[k] == i,
    ensures
        idx.len() == count_true(s),
    decreases s.len(),
{
    if s.len() == 0 {
        if idx.len() > 0 {
            assert(0 <= idx[0] < s.len());
        }
    } else {
        let n = s.len() - 1;
        let t = s.drop_last();
        if s[n] {
            let k = choose|k: int| 0 <= k < idx.len() && idx[k] == n;
            let last = idx.len() - 1;
            if k < last {
                assert(idx[k] < idx[last]);
                assert(idx[last] < s.len());
            }
            let rest = idx.drop_last();
            assert forall|i: int| 0 <= i < t.len() && #[trigger] t[i] implies exists|j: int|
                0 <= j < rest.len() && rest[j] == i by {
                assert(s[i]);
                let j = choose|j: int| 0 <= j < idx.len() && idx[j] == i;
                assert(j != last);
                assert(rest[j] == i);
            }
            assert forall|j: int| #![trigger rest[j]] 0 <= j < rest.len() implies 0 <= rest[j] < t.len()
                && t[rest[j]] by {
                assert(idx[j] < idx[last]);
            }
            lemma_count_listed(t, rest);
        } else {
            assert forall|j: int| #![trigger idx[j]] 0 <= j < idx.len() implies 0 <= idx[j] < t.len()
                && t[idx[j]] by {
                assert(idx[j] != n);
            }
            lemma_count_listed(t, idx);
        }
    }
}

/// A board's live-cell count is the length of its list of live cells.
pub proof fn live_count_is_live_cells_len(b: Board, cells: Seq<(usize, usize)>)
    requires
        b.wf(),
        lists_live_cells(b, cells),
    ensures
        cells.len() == count_true(b.cells()),
{
    let w = b.width as int;
    let h = b.height as int;
    let idx = Seq::new(cells.len(), |k: int| cell_index(cells[k].0 as int, cells[k].1 as int, w));
    assert forall|a: int, c: int| 0 <= a < c < idx.len() implies #[trigger] idx[a] < #[trigger] idx[c] by {
        assert(row_major_before(cells[a], cells[c]));
        let (xa, ya) = (cells[a].0 as int, cells[a].1 as int);
        let (xc, yc) = (cells[c].0 as int, cells[c].1 as int);
        if ya < yc {
            assert(ya * w + w <= yc * w) by (nonlinear_arith)
                requires
                    ya < yc,
                    0 < w,
            ;
        }
    }
    assert forall|k: int| #![trigger idx[k]] 0 <= k < idx.len() implies 0 <= idx[k] < b.cells().len()
        && b.cells()[idx[k]] by {
        lemma_index_in_board(cells[k].0 as int, cells[k].1 as int, w, h);
        assert(b.alive(cells[k].0 as int, cells[k].1 as int));
    }
    assert forall|i: int| 0 <= i < b.cells().len() && #[trigger] b.cells()[i] implies exists|k: int|
        0 <= k < idx.len() && idx[k] == i by {
        lemma_board_index_decompose(i, w, h);
        let x = i % w;
        let y = i / w;
        assert(b.alive(x, y));
        let k = choose|k: int| 0 <= k < cells.len() && cells[k] == (x as usize, y as usize);
        assert(idx[k] == i);
    }
    lemma_count_listed(b.cells(), idx);
}

/// Where the oldest equal generation found from `k` on lies.
proof fn lemma_first_repeat(cells: Seq<bool>, w: int, h: int, rule: Rule, g: nat, k: nat)
    ensures
        first_repeat(cells, w, h, rule, g, k) matches Some(j) ==> k <= j < g && evolve(cells, w, h, rule, j)
            == evolve(cells, w, h, rule, g),
        first_repeat(cells, w, h, rule, g, k) is None ==> forall|j: nat|
            k <= j < g ==> #[trigger] evolve(cells, w, h, rule, j) != evolve(cells, w, h, rule, g),
    decreases g - k,
{
    if k < g && evolve(cells, w, h, rule, k) != evolve(cells, w, h, rule, g) {
        lemma_first_repeat(cells, w, h, rule, g, k + 1);
    }
}

/// Generation `k` is neither empty nor equal to any of the `window`
/// generations before it.
pub open spec fn quiet(cells: Seq<bool>, w: int, h: int, rule: Rule, window: nat, k: nat) -> bool {
    &&& count_true(evolve(cells, w, h, rule, k)) > 0
    &&& forall|j: nat|
        history_start(k, window) <= j < k ==> #[trigger] evolve(cells, w, h, rule, j) != evolve(
            cells,
            w,
            h,
            rule,
            k,
        )
}

/// What an outcome found from generation `g0` on claims: the generation
/// it names is the first one at or after `g0` that is empty or repeats
/// one of the `window` generations before it, and `StillEvolving` means
/// no generation up to `max` does.
pub open spec fn outcome_sound(
    cells: Seq<bool>,
    w: int,
    h: int,
    rule: Rule,
    max: nat,
    window: nat,
    g0: nat,
    o: Outcome,
) -> bool {
    match o {
        Outcome::DiedOut { generation } => {
            &&& g0 <= generation <= max
            &&& count_true(evolve(cells, w, h, rule, generation as nat)) == 0
            &&& forall|k: nat| g0 <= k < generation ==> #[trigger] quiet(cells, w, h, rule, window, k)
        },
        Outcome::Stabilized { generation, period } => {
            &&& g0 <= generation <= max
            &&& 1 <= period <= generation
            &&& period <= window
            &&& count_true(evolve(cells, w, h, rule, generation as nat)) > 0
            &&& forall|k: nat| g0 <= k < generation ==> #[trigger] quiet(cells, w, h, rule, window, k)
            &&& evolve(cells, w, h, rule, generation as nat) == evolve(
                cells,
                w,
                h,
                rule,
                (generation - period) as nat,
            )
        },
        Outcome::StillEvolving => forall|k: nat| g0 <= k <= max ==> #[trigger] quiet(cells, w, h, rule, window, k),
    }
}

proof fn lemma_outcome_from(cells: Seq<bool>, w: int, h: int, rule: Rule, max: nat, window: nat, g: nat)
    requires
        g >= 1,
        max <= usize::MAX,
    ensures
        outcome_sound(cells, w, h, rule, max, window, g, outcome_from(cells, w, h, rule, max, window, g)),
    decreases max + 1 - g,
{
    if g <= max {
        if count_true(evolve(cells, w, h, rule, g)) != 0 {
            lemma_first_repeat(cells, w, h, rule, g, history_start(g, window));
            if first_repeat(cells, w, h, rule, g, history_start(g, window)) is None {
                lemma_outcome_from(cells, w, h, rule, max, window, g + 1);
                assert(quiet(cells, w, h, rule, window, g));
                let o = outcome_from(cells, w, h, rule, max, window, g + 1);
                let last: nat = match o {
                    Outcome::DiedOut { generation } => (generation - 1) as nat,
                    Outcome::Stabilized { generation, .. } => (generation - 1) as nat,
                    Outcome::StillEvolving => max,
                };
                assert forall|k: nat| g <= k <= last implies #[trigger] quiet(cells, w, h, rule, window, k) by {
                    if k > g {
                        assert(g + 1 <= k);
                    }
                }
            }
        }
    }
}

/// What a bounded simulation reports is so, and is the earliest such
/// event: `DiedOut` names a generation within the budget whose board is
/// empty, `Stabilized` one whose non-empty board equals the one `period`
/// generations earlier with `period` at most the history window, every
/// generation before the one named is neither empty nor a repeat within
/// the window, and `StillEvolving` means no generation within the budget
/// is.
pub proof fn simulation_outcome_is_sound(
    cells: Seq<bool>,
    w: int,
    h: int,
    rule: Rule,
    max: nat,
    window: nat,
)
    requires
        max <= usize::MAX,
    ensures
        outcome_sound(cells, w, h, rule, max, window, 1, outcome_from(cells, w, h, rule, max, window, 1)),
{
    lemma_outcome_from(cells, w, h, rule, max, window, 1);
}

/// `(coord + delta)` wrapped into `[0, size)`, the Euclidean remainder.
fn wrap(coord: usize, delta: isize, size: usize) -> (r: usize)
    requires
        0 < size <= isize::MAX,
        coord <= isize::MAX,
        isize::MIN <= coord + delta <= isize::MAX,
    ensures
        r == wrap_spec(coord as int, delta as int, size as int),
        r < size,
{
    let v = coord as isize + delta;
    match v.checked_rem_euclid(size as isize) {
        Some(r) => r as usize,
        None => 0,
    }
}

} // verus!
