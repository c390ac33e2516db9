//! The spectrogram: a dense grid of `height` rows of `width` values each,
//! kept row by row in one vector, and the row that is shown at a given
//! moment of playback.

use vstd::prelude::*;

verus! {

/// A row that lies inside the grid ends inside it.
pub proof fn lemma_row_bounds(row: int, width: int, height: int)
    requires
        0 <= row < height,
        0 <= width,
    ensures
        0 <= row * width,
        row * width + width <= width * height,
{
    assert(0 <= row * width) by (nonlinear_arith)
        requires
            0 <= row,
            0 <= width,
    ;
    assert(row * width + width <= width * height) by (nonlinear_arith)
        requires
            row + 1 <= height,
            0 <= width,
    ;
}

/// A grid of values, `height` rows of `width` columns.
pub struct Spectrogram<T> {
    width: usize,
    height: usize,
    cells: Vec<T>,
}

impl<T: Copy> Spectrogram<T> {
    pub closed spec fn spec_width(&self) -> usize {
        self.width
    }

    pub closed spec fn spec_height(&self) -> usize {
        self.height
    }

    /// The values of the grid, row after row.
    pub closed spec fn values(&self) -> Seq<T> {
        self.cells@
    }

    /// The grid is fully populated: it holds `width * height` values, and
    /// neither side is zero.
    pub open spec fn wf(&self) -> bool {
        &&& self.spec_width() > 0
        &&& self.spec_height() > 0
        &&& self.values().len() == self.spec_width() * self.spec_height()
    }

    /// The values of one row, left to right.
    pub open spec fn spec_row(&self, row: int) -> Seq<T> {
        self.values().subrange(row * self.spec_width(), row * self.spec_width() + self.spec_width())
    }

    /// A grid whose every value is `fill`.
    pub fn new(width: usize, height: usize, fill: T) -> (g: Spectrogram<T>)
        requires
            width > 0,
            height > 0,
            width * height <= usize::MAX,
        ensures
            g.wf(),
            g.spec_width() == width,
            g.spec_height() == height,
            forall|k: int| 0 <= k < g.values().len() ==> g.values()[k] == fill,
    {
        let total = width * height;
        let mut cells: Vec<T> = Vec::with_capacity(total);
        let mut k: usize = 0;
        while k < total
            invariant
                k <= total,
                cells@.len() == k,
                forall|j: int| 0 <= j < k ==> cells@[j] == fill,
            decreases total - k,
        {
            cells.push(fill);
            k += 1;
        }
        Spectrogram { width, height, cells }
    }

    /// The grid that holds `cells` as its rows, one after the other.
    /// `None` where a side is zero or the number of values is not
    /// `width * height`.
    pub fn from_cells(width: usize, height: usize, cells: Vec<T>) -> (r: Option<Spectrogram<T>>)
        ensures
            match r {
                Some(g) => {
                    &&& g.wf()
                    &&& g.spec_width() == width
                    &&& g.spec_height() == height
                    &&& g.values() == cells@
                },
                None => width == 0 || height == 0 || cells@.len() != width * height,
            },
    {
        let given = cells.len();
        if width == 0 || height == 0 {
            return None;
        }
        match width.checked_mul(height) {
            Some(total) => {
                if given == total {
                    Some(Spectrogram { width, height, cells })
                } else {
                    None
                }
            },
            None => None,
        }
    }

    #[verifier::when_used_as_spec(spec_width)]
    pub fn width(&self) -> (w: usize)
        ensures
            w == self.spec_width(),
    {
        self.width
    }

    #[verifier::when_used_as_spec(spec_height)]
    pub fn height(&self) -> (h: usize)
        ensures
            h == self.spec_height(),
    {
        self.height
    }

    /// The values of the grid, row after row.
    pub fn cells(&self) -> (c: &Vec<T>)
        ensures
            c@ == self.values(),
    {
        &self.cells
    }

    /// Gives the grid up for its values, row after row.
    pub fn into_cells(self) -> (c: Vec<T>)
        ensures
            c@ == self.values(),
    {
        self.cells
    }

    /// Writes `values` into row `row`. The other rows stay as they are.
    pub fn set_row(&mut self, row: usize, values: &Vec<T>)
        requires
            old(self).wf(),
            row < old(self).spec_height(),
            values@.len() == old(self).spec_width(),
        ensures
            final(self).wf(),
            final(self).spec_width() == old(self).spec_width(),
            final(self).spec_height() == old(self).spec_height(),
            final(self).spec_row(row as int) == values@,
            forall|other: int|
                0 <= other < old(self).spec_height() && other != row ==> final(self).spec_row(
                    other,
                ) == old(self).spec_row(other),
    {
        let width = self.width;
        let total = self.cells.len();
        proof {
            lemma_row_bounds(row as int, width as int, self.height as int);
        }
        let start = row * width;
        let mut k: usize = 0;
        while k < width
            invariant
                k <= width,
                width == self.width,
                total == self.cells@.len(),
                self.width == old(self).width,
                self.height == old(self).height,
                self.cells@.len() == old(self).cells@.len(),
                start == row * width,
                start + width <= self.cells@.len(),
                values@.len() == width,
                forall|j: int| 0 <= j < k ==> self.cells@[start + j] == values@[j],
                forall|j: int|
                    0 <= j < self.cells@.len() && !(start <= j < start + width)
                        ==> self.cells@[j] == old(self).cells@[j],
            decreases width - k,
        {
            self.cells.set(start + k, values[k]);
            k += 1;
        }
        proof {
            assert(self.spec_row(row as int) =~= values@);
            assert forall|other: int|
                0 <= other < self.height && other != row implies self.spec_row(other) == old(
                self,
            ).spec_row(other) by {
                lemma_row_bounds(other, width as int, self.height as int);
                assert(other * width + width <= start || start + width <= other * width)
                    by (nonlinear_arith)
                    requires
                        other != row,
                        start == row * width,
                        0 <= width,
                ;
                assert(self.spec_row(other) =~= old(self).spec_row(other));
            }
        }
    }

    /// The values of row `row`, left to right.
    pub fn row(&self, row: usize) -> (r: Vec<T>)
        requires
            self.wf(),
            row < self.spec_height(),
        ensures
            r@ == self.spec_row(row as int),
            r@.len() == self.spec_width(),
    {
        let width = self.width;
        let total = self.cells.len();
        proof {
            lemma_row_bounds(row as int, width as int, self.height as int);
        }
        let start = row * width;
        let mut out: Vec<T> = Vec::with_capacity(width);
        let mut k: usize = 0;
        while k < width
            invariant
                k <= width,
                width == self.width,
                total == self.cells@.len(),
                start == row * width,
                start + width <= self.cells@.len(),
                out@.len() == k,
                forall|j: int| 0 <= j < k ==> out@[j] == self.cells@[start + j],
            decreases width - k,
        {
            out.push(self.cells[start + k]);
            k += 1;
        }
        assert(out@ =~= self.spec_row(row as int));
        out
    }
}

/// A thousandth of a second, in nanoseconds: playback positions under it
/// count as this.
pub const EARLIEST_NANOS: u64 = 1_000_000;

/// A second, in nanoseconds.
pub const SECOND_NANOS: u64 = 1_000_000_000;

/// The row that is shown when playback has gone on for `elapsed_nanos`
/// nanoseconds: the whole part of the seconds elapsed times `height`, taken
/// modulo `height`, with the elapsed time counted as a thousandth of a
/// second where it is less.
pub open spec fn spec_frame_row(elapsed_nanos: nat, height: nat) -> nat {
    let elapsed = if elapsed_nanos < EARLIEST_NANOS {
        EARLIEST_NANOS as nat
    } else {
        elapsed_nanos
    };
    ((elapsed * height) / (SECOND_NANOS as nat)) % height
}

/// The row of a spectrogram of `height` rows that goes with a playback
/// position.
pub fn frame_row(elapsed_nanos: u64, height: usize) -> (row: usize)
    requires
        height > 0,
    ensures
        row == spec_frame_row(elapsed_nanos as nat, height as nat),
        row < height,
{
    let elapsed: u128 = if elapsed_nanos < EARLIEST_NANOS {
        EARLIEST_NANOS as u128
    } else {
        elapsed_nanos as u128
    };
    let rows: u128 = height as u128;
    assert(elapsed * rows <= 0xffff_ffff_ffff_ffff * 0xffff_ffff_ffff_ffff) by (nonlinear_arith)
        requires
            0 <= elapsed <= 0xffff_ffff_ffff_ffff,
            0 <= rows <= 0xffff_ffff_ffff_ffff,
    ;
    let turns: u128 = (elapsed * rows) / (SECOND_NANOS as u128);
    (turns % rows) as usize
}

} // verus!
