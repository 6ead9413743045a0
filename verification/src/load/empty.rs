use vstd::prelude::*;

use crate::data::{CycleValues, Signal};
use crate::error::Error;
use crate::simtime::{SimTime, SimTimeRange};

verus! {

/// A null source: no signals, no cycles, an empty time range.
#[derive(Debug)]
pub struct EmptyLoader {}

impl EmptyLoader {
    pub fn new() -> (r: Self)
        ensures
            true,
    {
        EmptyLoader {  }
    }

    pub fn query_signals(&self) -> (r: Vec<Signal<String>>)
        ensures
            r@.len() == 0,
    {
        Vec::new()
    }

    pub fn query_time_range(&self) -> (r: SimTimeRange)
        ensures
            r.0.fs() == 0,
            r.1 == (SimTime { value: 0, unit: crate::simtime::SimTimeUnit::S }),
    {
        SimTimeRange(SimTime::zero(), SimTime::zero())
    }

    pub fn query_time(&self, _cycle: usize) -> (r: SimTime)
        ensures
            r == (SimTime { value: 0, unit: crate::simtime::SimTimeUnit::S }),
    {
        SimTime::zero()
    }

    pub fn query_cycle_count(&self) -> (r: usize)
        ensures
            r == 0,
    {
        0
    }

    /// No name is ever found here.
    pub fn lookup_id(&self, id: &String) -> (r: Result<usize, Error>)
        ensures
            (r matches Err(e) && e matches Error::NotFound(nm) && nm@ == id@),
    {
        Err(Error::NotFound(id.clone()))
    }

    /// No id is ever in range here.
    pub fn rev_lookup_id(&self, id: usize) -> (r: Result<String, Error>)
        ensures
            (r matches Err(e) && e matches Error::IdOutOfRange(b, lo, hi) && b == id && lo == 0
                && hi == 0),
    {
        Err(Error::IdOutOfRange(id, 0, 0))
    }

    /// An empty matrix, whatever is asked.
    pub fn sample(&self, _ids: &Vec<String>, _times: &SimTimeRange) -> (r: Result<
        CycleValues,
        Error,
    >)
        ensures
            (r matches Ok(m) && m.wf() && m.spec_rows() == 0 && m.spec_cols() == 0),
    {
        Ok(CycleValues::new_zero(0, 0))
    }
}

} // verus!
