//! A fixed-size two-dimensional container in which each cell holds zero or
//! one item, stored row by row in one flat vector.
use vstd::prelude::*;

verus! {

/// Why a write into a grid was refused.
#[derive(Debug, Clone, Copy, PartialEq, Eq, Structural)]
pub enum IndexError {
    OutOfBounds,
}

/// Number of occupied cells in a sequence of cells.
pub open spec fn count_some<T>(s: Seq<Option<T>>) -> nat
    decreases s.len(),
{
    if s.len() == 0 {
        0
    } else {
        count_some(s.drop_last()) + if s.last() is Some {
            1nat
        } else {
            0nat
        }
    }
}

/// Overwriting one cell changes the number of occupied cells only by what
/// that cell held before and holds after.
pub proof fn lemma_count_some_update<T>(s: Seq<Option<T>>, i: int, v: Option<T>)
    requires
        0 <= i < s.len(),
    ensures
        count_some(s.update(i, v)) + (if s[i] is Some {
            1int
        } else {
            0int
        }) == count_some(s) + (if v is Some {
            1int
        } else {
            0int
        }),
    decreases s.len(),
{
    let u = s.update(i, v);
    if i == s.len() - 1 {
        assert(u.drop_last() =~= s.drop_last());
    } else {
        assert(u.drop_last() =~= s.drop_last().update(i, v));
        lemma_count_some_update(s.drop_last(), i, v);
    }
}

/// A sequence of empty cells has no occupied cell.
pub proof fn lemma_count_some_none<T>(s: Seq<Option<T>>)
    requires
        forall|i: int| 0 <= i < s.len() ==> s[i] is None,
    ensures
        count_some(s) == 0,
    decreases s.len(),
{
    if s.len() > 0 {
        lemma_count_some_none(s.drop_last());
    }
}

/// Position of cell `(x, y)` in the row-major storage of a grid `width` wide.
pub open spec fn cell_index(width: int, x: int, y: int) -> int {
    y * width + x
}

pub proof fn lemma_cell_index_bounds(width: int, height: int, x: int, y: int)
    requires
        0 <= x < width,
        0 <= y < height,
    ensures
        0 <= cell_index(width, x, y) < width * height,
{
    assert(0 <= y * width) by (nonlinear_arith)
        requires
            0 <= y,
            0 <= width,
    ;
    assert(y * width + x < width * height) by (nonlinear_arith)
        requires
            0 <= x < width,
            0 <= y < height,
    ;
}

/// Cell `(x, y)` of a grid `width` wide and `height` high, empty when the
/// coordinates lie outside it.
pub open spec fn cell_at<T>(cells: Seq<Option<T>>, width: int, height: int, x: int, y: int) -> Option<T> {
    if 0 <= x < width && 0 <= y < height {
        cells[cell_index(width, x, y)]
    } else {
        None
    }
}

/// What a grid holds after `item` is written at `(x, y)`.
pub open spec fn cells_after_set<T>(cells: Seq<Option<T>>, width: int, x: int, y: int, item: T) -> Seq<Option<T>> {
    cells.update(cell_index(width, x, y), Some(item))
}

/// What a grid holds after cell `(x, y)` is cleared.
pub open spec fn cells_after_delete<T>(cells: Seq<Option<T>>, width: int, x: int, y: int) -> Seq<Option<T>> {
    cells.update(cell_index(width, x, y), None)
}

/// Reading a cell after writing it gives the written item, reading it after
/// clearing it gives nothing, other cells are left as they were, and the
/// number of occupied cells grows by one exactly when a write lands on an
/// empty cell and shrinks by one exactly when a clear hits an occupied one.
pub proof fn lemma_grid_set_get_delete<T>(
    cells: Seq<Option<T>>,
    width: int,
    height: int,
    x: int,
    y: int,
    item: T,
    ox: int,
    oy: int,
)
    requires
        cells.len() == width * height,
        0 <= x < width,
        0 <= y < height,
    ensures
        cell_at(cells_after_set(cells, width, x, y, item), width, height, x, y) == Some(item),
        cell_at(cells_after_delete(cells, width, x, y), width, height, x, y) is None,
        (ox != x || oy != y) ==> cell_at(cells_after_set(cells, width, x, y, item), width, height, ox, oy)
            == cell_at(cells, width, height, ox, oy),
        (ox != x || oy != y) ==> cell_at(cells_after_delete(cells, width, x, y), width, height, ox, oy)
            == cell_at(cells, width, height, ox, oy),
        count_some(cells_after_set(cells, width, x, y, item)) == count_some(cells) + if cell_at(
            cells,
            width,
            height,
            x,
            y,
        ) is None {
            1int
        } else {
            0int
        },
        count_some(cells_after_delete(cells, width, x, y)) + if cell_at(cells, width, height, x, y) is Some {
            1int
        } else {
            0int
        } == count_some(cells),
{
    lemma_cell_index_bounds(width, height, x, y);
    let i = cell_index(width, x, y);
    lemma_count_some_update(cells, i, Some(item));
    lemma_count_some_update(cells, i, None);
    if (ox != x || oy != y) && 0 <= ox < width && 0 <= oy < height {
        lemma_cell_index_bounds(width, height, ox, oy);
        lemma_cell_index_distinct(width, x, y, ox, oy);
    }
}

proof fn lemma_cell_index_distinct(width: int, x: int, y: int, ox: int, oy: int)
    requires
        0 <= x < width,
        0 <= ox < width,
        0 <= y,
        0 <= oy,
        x != ox || y != oy,
    ensures
        cell_index(width, x, y) != cell_index(width, ox, oy),
{
    if y == oy {
    } else if y < oy {
        assert(y * width + width <= oy * width) by (nonlinear_arith)
            requires
                y < oy,
                0 <= width,
        ;
    } else {
        assert(oy * width + width <= y * width) by (nonlinear_arith)
            requires
                oy < y,
                0 <= width,
        ;
    }
}

/// A grid of `width * height` cells, each empty or holding one item.
#[derive(Debug)]
pub struct VecGrid<T> {
    width: usize,
    height: usize,
    data: Vec<Option<T>>,
}

impl<T> VecGrid<T> {
    pub closed spec fn spec_width(&self) -> nat {
        self.width as nat
    }

    pub closed spec fn spec_height(&self) -> nat {
        self.height as nat
    }

    /// All cells in row-major order: row `y` outer, column `x` inner.
    pub closed spec fn cells(&self) -> Seq<Option<T>> {
        self.data@
    }

    pub open spec fn wf(&self) -> bool {
        &&& self.cells().len() == self.spec_width() * self.spec_height()
        &&& self.spec_width() * self.spec_height() <= usize::MAX
        &&& self.spec_width() <= usize::MAX
        &&& self.spec_height() <= usize::MAX
    }

    /// The occupant of `(x, y)`, or nothing outside the grid.
    pub open spec fn spec_get(&self, x: int, y: int) -> Option<T> {
        cell_at(self.cells(), self.spec_width() as int, self.spec_height() as int, x, y)
    }

    /// Number of occupied cells.
    pub open spec fn occupied(&self) -> nat {
        count_some(self.cells())
    }

    /// An empty grid.
    pub fn new(width: usize, height: usize) -> (r: VecGrid<T>)
        requires
            width * height <= usize::MAX,
        ensures
            r.wf(),
            r.spec_width() == width,
            r.spec_height() == height,
            forall|i: int| 0 <= i < r.cells().len() ==> r.cells()[i] is None,
            r.occupied() == 0,
    {
        let n: usize = width * height;
        let mut data: Vec<Option<T>> = Vec::with_capacity(n);
        let mut i: usize = 0;
        while i < n
            invariant
                i <= n,
                data@.len() == i,
                forall|k: int| 0 <= k < i ==> data@[k] is None,
            decreases n - i,
        {
            data.push(None);
            i = i + 1;
        }
        let r = VecGrid { width, height, data };
        proof {
            lemma_count_some_none(r.cells());
        }
        r
    }

    pub fn width(&self) -> (r: usize)
        ensures
            r == self.spec_width(),
    {
        self.width
    }

    pub fn height(&self) -> (r: usize)
        ensures
            r == self.spec_height(),
    {
        self.height
    }

    /// The occupant of `(x, y)`; nothing when the cell is empty or the
    /// coordinates lie outside the grid.
    pub fn get(&self, x: usize, y: usize) -> (r: Option<&T>)
        requires
            self.wf(),
        ensures
            r is Some == self.spec_get(x as int, y as int) is Some,
            r is Some ==> *r.unwrap() == self.spec_get(x as int, y as int).unwrap(),
    {
        if x < self.width && y < self.height {
            proof {
                lemma_cell_index_bounds(self.width as int, self.height as int, x as int, y as int);
            }
            let i: usize = y * self.width + x;
            match &self.data[i] {
                Some(t) => Some(t),
                None => None,
            }
        } else {
            None
        }
    }

    /// The occupant of `(x, y)`, lent for changing it in place; nothing when
    /// the cell is empty or the coordinates lie outside the grid.
    pub fn get_mut(&mut self, x: usize, y: usize) -> (r: Option<&mut T>)
        requires
            old(self).wf(),
        ensures
            r is Some == old(self).spec_get(x as int, y as int) is Some,
            r is Some ==> *r.unwrap() == old(self).spec_get(x as int, y as int).unwrap(),
            r is Some ==> final(self).cells() == cells_after_set(
                old(self).cells(),
                old(self).spec_width() as int,
                x as int,
                y as int,
                *final(r.unwrap()),
            ),
            r is None ==> final(self).cells() == old(self).cells(),
            final(self).wf(),
            final(self).spec_width() == old(self).spec_width(),
            final(self).spec_height() == old(self).spec_height(),
    {
        if x < self.width && y < self.height {
            proof {
                lemma_cell_index_bounds(self.width as int, self.height as int, x as int, y as int);
            }
            let i: usize = y * self.width + x;
            match &mut self.data[i] {
                Some(t) => Some(t),
                None => None,
            }
        } else {
            None
        }
    }

    /// Stores `item` at `(x, y)`, replacing any occupant.
    pub fn set(&mut self, item: T, x: usize, y: usize) -> (r: Result<(), IndexError>)
        requires
            old(self).wf(),
        ensures
            final(self).wf(),
            final(self).spec_width() == old(self).spec_width(),
            final(self).spec_height() == old(self).spec_height(),
            r is Ok == (x < old(self).spec_width() && y < old(self).spec_height()),
            r is Ok ==> final(self).cells() == cells_after_set(
                old(self).cells(),
                old(self).spec_width() as int,
                x as int,
                y as int,
                item,
            ),
            r is Err ==> final(self).cells() == old(self).cells(),
    {
        if x < self.width && y < self.height {
            proof {
                lemma_cell_index_bounds(self.width as int, self.height as int, x as int, y as int);
            }
            let i: usize = y * self.width + x;
            self.data.set(i, Some(item));
            Ok(())
        } else {
            Err(IndexError::OutOfBounds)
        }
    }

    /// Clears `(x, y)`; the storage keeps its size. Coordinates outside the
    /// grid change nothing.
    pub fn delete(&mut self, x: usize, y: usize)
        requires
            old(self).wf(),
        ensures
            final(self).wf(),
            final(self).spec_width() == old(self).spec_width(),
            final(self).spec_height() == old(self).spec_height(),
            x < old(self).spec_width() && y < old(self).spec_height() ==> final(self).cells()
                == cells_after_delete(old(self).cells(), old(self).spec_width() as int, x as int, y as int),
            !(x < old(self).spec_width() && y < old(self).spec_height()) ==> final(self).cells()
                == old(self).cells(),
    {
        if x < self.width && y < self.height {
            proof {
                lemma_cell_index_bounds(self.width as int, self.height as int, x as int, y as int);
            }
            let i: usize = y * self.width + x;
            self.data.set(i, None);
        }
    }

    /// All cells in row-major order, for drawing and scanning.
    pub fn get_data(&self) -> (r: &Vec<Option<T>>)
        ensures
            r@ == self.cells(),
    {
        &self.data
    }
}

} // verus!
