use vstd::prelude::*;

use crate::formatting::WaveFormat;
use crate::value::SampleValue;

verus! {

/// A declared signal: an identifier in some identifier domain, a display
/// name, and a display-format tag.
///
/// The identifier type is generic: a source's native id, a pipeline-level
/// id, or a dense id above the contiguous-id adapter. Identity across
/// those domains is established only by explicit lookup, never by
/// comparing different id types.
#[derive(Debug)]
pub struct Signal<I> {
    pub id: I,
    pub name: String,
    pub format: WaveFormat,
}

/// External steering state threaded into filter stages: an ordered list of
/// signal names and a switch for the list filter.
#[derive(Debug)]
pub struct PipelineConfig {
    pub name_list: Vec<String>,
    pub enable_filter_list: bool,
}

impl Default for PipelineConfig {
    fn default() -> (r: Self)
        ensures
            r.name_list@ == Seq::<String>::empty(),
            !r.enable_filter_list,
    {
        PipelineConfig { name_list: Vec::new(), enable_filter_list: false }
    }
}

/// A dense 2-D matrix of sample values: rows are cycles (time-major),
/// columns are signals in the order the caller requested them.
///
/// Stored row-major in one vector; the shape always equals exactly what
/// the query asked for.
#[derive(Debug)]
pub struct CycleValues {
    rows: usize,
    cols: usize,
    data: Vec<SampleValue>,
}

/// Row-major position of a cell is inside the backing vector.
pub proof fn lemma_cell_index(r: int, c: int, rows: int, cols: int)
    requires
        0 <= r < rows,
        0 <= c < cols,
    ensures
        0 <= r * cols + c < rows * cols,
{
    assert(r * cols + c < rows * cols) by (nonlinear_arith)
        requires
            0 <= r < rows,
            0 <= c < cols,
    ;
    assert(0 <= r * cols) by (nonlinear_arith)
        requires
            0 <= r,
            0 <= c < cols,
    ;
}

/// Distinct cells occupy distinct row-major positions.
pub proof fn lemma_cell_index_injective(r1: int, c1: int, r2: int, c2: int, cols: int)
    requires
        0 <= c1 < cols,
        0 <= c2 < cols,
        0 <= r1,
        0 <= r2,
        r1 * cols + c1 == r2 * cols + c2,
    ensures
        r1 == r2 && c1 == c2,
{
    assert(r1 == r2 && c1 == c2) by (nonlinear_arith)
        requires
            0 <= c1 < cols,
            0 <= c2 < cols,
            0 <= r1,
            0 <= r2,
            r1 * cols + c1 == r2 * cols + c2,
    ;
}

impl CycleValues {
    pub closed spec fn spec_rows(&self) -> int {
        self.rows as int
    }

    pub closed spec fn spec_cols(&self) -> int {
        self.cols as int
    }

    /// The backing vector holds exactly one well-formed value per cell.
    pub closed spec fn wf(&self) -> bool {
        &&& self.data@.len() == self.rows * self.cols
        &&& forall|i: int| 0 <= i < self.data@.len() ==> (#[trigger] self.data@[i]).wf()
    }

    /// Numeric value stored at row `r`, column `c`.
    pub closed spec fn entry(&self, r: int, c: int) -> nat {
        self.data@[r * self.spec_cols() + c]@
    }

    /// A matrix of the given shape with every cell zero.
    pub fn new_zero(rows: usize, cols: usize) -> (m: CycleValues)
        requires
            rows * cols <= usize::MAX,
        ensures
            m.wf(),
            m.spec_rows() == rows,
            m.spec_cols() == cols,
            forall|r: int, c: int|
                0 <= r < rows && 0 <= c < cols ==> #[trigger] m.entry(r, c) == 0,
    {
        let total: usize = rows * cols;
        let mut data: Vec<SampleValue> = Vec::new();
        let mut i: usize = 0;
        while i < total
            invariant
                i <= total,
                data@.len() == i,
                forall|j: int| 0 <= j < i ==> (#[trigger] data@[j]).wf() && data@[j]@ == 0,
            decreases total - i,
        {
            data.push(SampleValue::zero());
            i = i + 1;
        }
        let m = CycleValues { rows, cols, data };
        proof {
            assert forall|r: int, c: int|
                0 <= r < rows && 0 <= c < cols implies #[trigger] m.entry(r, c) == 0 by {
                lemma_cell_index(r, c, rows as int, cols as int);
            }
        }
        m
    }

    pub fn nrows(&self) -> (r: usize)
        ensures
            r == self.spec_rows(),
    {
        self.rows
    }

    pub fn ncols(&self) -> (r: usize)
        ensures
            r == self.spec_cols(),
    {
        self.cols
    }

    /// Borrows the value in one cell.
    pub fn get(&self, r: usize, c: usize) -> (v: &SampleValue)
        requires
            self.wf(),
            r < self.spec_rows(),
            c < self.spec_cols(),
        ensures
            v@ == self.entry(r as int, c as int),
            v.wf(),
    {
        let len = self.data.len();
        proof {
            lemma_cell_index(r as int, c as int, self.spec_rows(), self.spec_cols());
        }
        &self.data[r * self.cols + c]
    }

    /// Replaces the value in one cell, leaving every other cell and the
    /// shape unchanged.
    pub fn set(&mut self, r: usize, c: usize, v: SampleValue)
        requires
            old(self).wf(),
            r < old(self).spec_rows(),
            c < old(self).spec_cols(),
            v.wf(),
        ensures
            final(self).wf(),
            final(self).spec_rows() == old(self).spec_rows(),
            final(self).spec_cols() == old(self).spec_cols(),
            final(self).entry(r as int, c as int) == v@,
            forall|r2: int, c2: int|
                0 <= r2 < old(self).spec_rows() && 0 <= c2 < old(self).spec_cols() && !(r2 == r
                    && c2 == c) ==> #[trigger] final(self).entry(r2, c2) == old(self).entry(r2, c2),
    {
        let len = self.data.len();
        proof {
            lemma_cell_index(r as int, c as int, self.spec_rows(), self.spec_cols());
        }
        let idx: usize = r * self.cols + c;
        self.data.set(idx, v);
        proof {
            assert forall|r2: int, c2: int|
                0 <= r2 < self.spec_rows() && 0 <= c2 < self.spec_cols() && !(r2 == r && c2
                    == c) implies #[trigger] self.entry(r2, c2) == old(self).entry(r2, c2) by {
                lemma_cell_index(r2, c2, self.spec_rows(), self.spec_cols());
                if r2 * self.spec_cols() + c2 == r * self.spec_cols() + c {
                    lemma_cell_index_injective(r2, c2, r as int, c as int, self.spec_cols());
                }
            }
        }
    }
}


/// The mathematical reading of a pipeline signal: the dense id, the name
/// as a character sequence, and the format tag. Contracts about signal
/// lists are stated over these readings.
pub struct SpecSignal {
    pub id: int,
    pub name: Seq<char>,
    pub format: WaveFormat,
}

/// The readings of a signal vector.
pub open spec fn sig_views(s: Seq<Signal<usize>>) -> Seq<SpecSignal> {
    s.map_values(|x: Signal<usize>| SpecSignal { id: x.id as int, name: x.name@, format: x.format })
}

} // verus!
