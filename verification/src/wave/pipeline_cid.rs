use vstd::prelude::*;

use crate::data::{sig_views, CycleValues, PipelineConfig, Signal};
use crate::error::Error;
use crate::pipeline::{lemma_stage_ids_below, FilterKind, SourceKind, Stage};
use crate::simtime::{SimTime, SimTimeRange};

verus! {

/// Pipeline adapter providing contiguous signal ids.
///
/// One initialization pass records, at position `i`, the chain-native id
/// of the `i`-th visible signal; everything above the adapter addresses
/// signals by those dense positions alone. The adapter is rebuilt, never
/// patched, whenever the chain's signal list can have changed.
pub struct PipelineCId {
    pipe: Stage,
    idmap: Vec<usize>,
}

/// The chain-native ids a dense id request resolves to; a position with
/// no entry is silently dropped.
pub open spec fn map_ids(idmap: Seq<usize>, ids: Seq<usize>) -> Seq<usize>
    decreases ids.len(),
{
    if ids.len() == 0 {
        Seq::empty()
    } else {
        let rest = map_ids(idmap, ids.drop_last());
        if ids.last() < idmap.len() {
            rest.push(idmap[ids.last() as int])
        } else {
            rest
        }
    }
}

/// When every requested position has an entry, the mapping is pointwise.
pub proof fn lemma_map_ids_total(idmap: Seq<usize>, ids: Seq<usize>)
    requires
        forall|j: int| 0 <= j < ids.len() ==> (#[trigger] ids[j]) < idmap.len(),
    ensures
        map_ids(idmap, ids).len() == ids.len(),
        forall|j: int|
            0 <= j < ids.len() ==> #[trigger] map_ids(idmap, ids)[j] == idmap[ids[j] as int],
    decreases ids.len(),
{
    if ids.len() > 0 {
        assert(forall|j: int|
            0 <= j < ids.drop_last().len() ==> (#[trigger] ids.drop_last()[j]) < idmap.len());
        lemma_map_ids_total(idmap, ids.drop_last());
        assert(ids.last() < idmap.len());
    }
}

/// Position of the first entry of the identifier map holding a native
/// id, or the map's length where none does.
pub open spec fn spec_first_idx(idmap: Seq<usize>, v: usize) -> int
    decreases idmap.len(),
{
    if idmap.len() == 0 {
        0
    } else if idmap[0] == v {
        0
    } else {
        1 + spec_first_idx(idmap.drop_first(), v)
    }
}

/// The first-index search lands on a matching entry when one exists, and
/// before any other match.
pub proof fn lemma_first_idx(idmap: Seq<usize>, v: usize)
    ensures
        0 <= spec_first_idx(idmap, v) <= idmap.len(),
        spec_first_idx(idmap, v) < idmap.len() ==> idmap[spec_first_idx(idmap, v)] == v,
        forall|j: int| 0 <= j < spec_first_idx(idmap, v) ==> idmap[j] != v,
    decreases idmap.len(),
{
    if idmap.len() > 0 && idmap[0] != v {
        lemma_first_idx(idmap.drop_first(), v);
        let d = idmap.drop_first();
        assert forall|j: int| 0 <= j < spec_first_idx(idmap, v) implies idmap[j] != v by {
            if j > 0 {
                assert(d[j - 1] == idmap[j]);
            }
        }
    }
}

impl PipelineCId {
    pub closed spec fn spec_pipe(&self) -> Stage {
        self.pipe
    }

    pub closed spec fn spec_idmap(&self) -> Seq<usize> {
        self.idmap@
    }

    /// The sampled value at a dense signal position and cycle: the
    /// source's value for the recorded native id.
    pub open spec fn spec_cell(&self, dense: int, cyc: nat) -> nat {
        self.spec_pipe().source().spec_cell(self.spec_idmap()[dense] as int, cyc)
    }

    /// The chain is sound and every recorded native id addresses one of
    /// the source's signals.
    pub open spec fn wf(&self) -> bool {
        &&& self.spec_pipe().wf()
        &&& forall|j: int|
            0 <= j < self.spec_idmap().len() ==> ((#[trigger] self.spec_idmap()[j]) as int)
                < self.spec_pipe().source().spec_signals().len()
    }

    /// Wraps a source; the identifier map starts empty until
    /// `query_init` records the chain's signals.
    pub fn new(source: SourceKind) -> (r: Result<Self, Error>)
        ensures
            (r matches Ok(p) && p.spec_pipe() == Stage::Src(source) && p.spec_idmap().len() == 0),
    {
        Ok(PipelineCId { pipe: Stage::new(source), idmap: Vec::new() })
    }

    /// Wraps the chain in a further filter stage, keeping the map.
    pub fn push(self, stage: FilterKind) -> (r: Self)
        ensures
            (r.spec_pipe() matches Stage::Fil(prev, f) && *prev == self.spec_pipe() && f == stage),
            r.spec_idmap() == self.spec_idmap(),
    {
        PipelineCId { pipe: self.pipe.push(stage), idmap: self.idmap }
    }

    /// Removes the outermost filter stage, keeping the map.
    pub fn pop(self) -> (r: (Self, Option<FilterKind>))
        ensures
            (match self.spec_pipe() {
                Stage::Fil(prev, f) => r.0.spec_pipe() == *prev && r.1 == Some(f),
                Stage::Src(_) => r.0.spec_pipe() == self.spec_pipe() && r.1 is None,
            }),
            r.0.spec_idmap() == self.spec_idmap(),
    {
        let (pipe, tail) = self.pipe.pop();
        (PipelineCId { pipe, idmap: self.idmap }, tail)
    }

    /// Records the chain-native id of each visible signal; dense ids are
    /// positions in this recording from here on.
    pub fn query_init(&mut self) -> (r: Result<(), Error>)
        requires
            old(self).spec_pipe().wf(),
        ensures
            r is Ok,
            final(self).wf(),
            final(self).spec_pipe() == old(self).spec_pipe(),
            final(self).spec_idmap().len() == old(self).spec_pipe().spec_signals().len(),
            forall|j: int|
                0 <= j < final(self).spec_idmap().len() ==> ((#[trigger] final(self).spec_idmap()[j]) as int)
                    == old(self).spec_pipe().spec_signals()[j].id,
    {
        let signals = match self.pipe.query_signals() {
            Ok(v) => v,
            Err(e) => {
                proof {
                    assert(false);
                }
                return Err(e);
            },
        };
        let n = signals.len();
        let mut idmap: Vec<usize> = Vec::new();
        let mut i: usize = 0;
        while i < n
            invariant
                i <= n,
                n == signals@.len(),
                sig_views(signals@) == self.pipe.spec_signals(),
                idmap@.len() == i,
                forall|j: int|
                    0 <= j < i ==> (#[trigger] idmap@[j]) as int == self.pipe.spec_signals()[j].id,
            decreases n - i,
        {
            idmap.push(signals[i].id);
            proof {
                assert(sig_views(signals@)[i as int].id == signals@[i as int].id as int);
            }
            i = i + 1;
        }
        self.idmap = idmap;
        proof {
            lemma_stage_ids_below(&self.pipe);
        }
        Ok(())
    }

    /// The chain's signals, re-tagged with their dense positions.
    pub fn query_signals(&self) -> (r: Result<Vec<Signal<usize>>, Error>)
        requires
            self.spec_pipe().wf(),
        ensures
            (r matches Ok(v) && {
                let below = self.spec_pipe().spec_signals();
                &&& v@.len() == below.len()
                &&& forall|j: int|
                    0 <= j < below.len() ==> (#[trigger] v@[j]).id == j && v@[j].name@
                        == below[j].name && v@[j].format == below[j].format
            }),
    {
        let signals = match self.pipe.query_signals() {
            Ok(v) => v,
            Err(e) => {
                proof {
                    assert(false);
                }
                return Err(e);
            },
        };
        let n = signals.len();
        let mut out: Vec<Signal<usize>> = Vec::new();
        let mut i: usize = 0;
        while i < n
            invariant
                i <= n,
                n == signals@.len(),
                sig_views(signals@) == self.pipe.spec_signals(),
                out@.len() == i,
                forall|j: int|
                    0 <= j < i ==> (#[trigger] out@[j]).id == j && out@[j].name@
                        == self.pipe.spec_signals()[j].name && out@[j].format
                        == self.pipe.spec_signals()[j].format,
            decreases n - i,
        {
            let s = &signals[i];
            out.push(Signal { id: i, name: s.name.clone(), format: s.format });
            proof {
                assert(sig_views(signals@)[i as int].name == signals@[i as int].name@);
            }
            i = i + 1;
        }
        Ok(out)
    }

    pub fn query_time_range(&self) -> (r: SimTimeRange)
        requires
            self.spec_pipe().wf(),
        ensures
            r.0.fs() == 0,
            r.1 == self.spec_pipe().source().spec_time(
                self.spec_pipe().source().spec_num_cycles(),
            ),
    {
        self.pipe.query_time_range()
    }

    pub fn query_time(&self, cycle: usize) -> (r: SimTime)
        requires
            self.spec_pipe().wf(),
            cycle <= self.spec_pipe().source().spec_num_cycles(),
        ensures
            r == self.spec_pipe().source().spec_time(cycle as nat),
    {
        self.pipe.query_time(cycle)
    }

    pub fn query_cycle_count(&self) -> (r: usize)
        requires
            self.spec_pipe().wf(),
        ensures
            r == self.spec_pipe().source().spec_num_cycles(),
    {
        self.pipe.query_cycle_count()
    }

    /// Native id recorded at a dense position.
    pub fn rev_lookup_dense(&self, id: usize) -> (r: Result<usize, Error>)
        ensures
            (match r {
                Ok(v) => id < self.spec_idmap().len() && v == self.spec_idmap()[id as int],
                Err(e) => id >= self.spec_idmap().len() && e matches Error::IdOutOfRange(_, _, _),
            }),
    {
        if id < self.idmap.len() {
            Ok(self.idmap[id])
        } else {
            Err(Error::IdOutOfRange(id, 0, self.idmap.len()))
        }
    }

    /// Dense position of a native id: the first entry recording it.
    pub fn lookup_dense(&self, native: usize) -> (r: Result<usize, Error>)
        ensures
            (match r {
                Ok(v) => v == spec_first_idx(self.spec_idmap(), native) && v
                    < self.spec_idmap().len(),
                Err(e) => spec_first_idx(self.spec_idmap(), native) == self.spec_idmap().len()
                    && e matches Error::NotFound(_),
            }),
    {
        let n = self.idmap.len();
        let mut i: usize = 0;
        proof {
            assert(self.spec_idmap().skip(0) =~= self.spec_idmap());
        }
        while i < n
            invariant
                i <= n,
                n == self.idmap@.len(),
                spec_first_idx(self.spec_idmap(), native) == i as int + spec_first_idx(
                    self.spec_idmap().skip(i as int),
                    native,
                ),
                forall|j: int| 0 <= j < i ==> self.spec_idmap()[j] != native,
            decreases n - i,
        {
            proof {
                let rest = self.spec_idmap().skip(i as int);
                assert(rest[0] == self.spec_idmap()[i as int]);
                assert(rest.drop_first() =~= self.spec_idmap().skip(i as int + 1));
            }
            if self.idmap[i] == native {
                return Ok(i);
            }
            i = i + 1;
        }
        proof {
            assert(self.spec_idmap().skip(n as int).len() == 0);
        }
        Err(Error::NotFound("dense id".to_owned()))
    }

    /// Samples dense ids over a wall-time window by translating each to
    /// its recorded native id; a dense id with no entry is dropped.
    pub fn sample(&self, ids: &Vec<usize>, times: &SimTimeRange) -> (r: Result<CycleValues, Error>)
        requires
            self.wf(),
            self.spec_pipe().source().sample_pre(map_ids(self.spec_idmap(), ids@), *times),
        ensures
            (r matches Ok(m) && self.spec_pipe().source().sample_post(
                map_ids(self.spec_idmap(), ids@),
                *times,
                m,
            )),
    {
        let n = ids.len();
        let mut mapped: Vec<usize> = Vec::new();
        let mut i: usize = 0;
        proof {
            assert(map_ids(self.spec_idmap(), ids@.take(0)) =~= Seq::<usize>::empty());
        }
        while i < n
            invariant
                i <= n,
                n == ids@.len(),
                mapped@ == map_ids(self.spec_idmap(), ids@.take(i as int)),
            decreases n - i,
        {
            proof {
                assert(ids@.take(i + 1).drop_last() =~= ids@.take(i as int));
                assert(ids@.take(i + 1).last() == ids@[i as int]);
            }
            let id = ids[i];
            if id < self.idmap.len() {
                mapped.push(self.idmap[id]);
            }
            i = i + 1;
        }
        proof {
            assert(ids@.take(n as int) =~= ids@);
        }
        self.pipe.sample(&mapped, times)
    }

    /// Pushes the configuration down the whole chain.
    pub fn configure_pipeline(&mut self, config: &PipelineConfig) -> (r: Result<(), Error>)
        ensures
            r is Ok,
            Stage::spec_configured(old(self).spec_pipe(), final(self).spec_pipe(), *config),
            final(self).spec_idmap() == old(self).spec_idmap(),
    {
        self.pipe.configure_pipeline(config)
    }
}

/// For a freshly initialized adapter over a chain whose visible signals
/// carry distinct native ids, looking up the dense position of the
/// native id recorded at position `i` gives `i` back, for every position.
pub proof fn lemma_dense_id_round_trip(p: &PipelineCId, i: int)
    requires
        0 <= i < p.spec_idmap().len(),
        forall|a: int, b: int|
            0 <= a < b < p.spec_idmap().len() ==> #[trigger] p.spec_idmap()[a]
                != #[trigger] p.spec_idmap()[b],
    ensures
        spec_first_idx(p.spec_idmap(), p.spec_idmap()[i]) == i,
{
    let v = p.spec_idmap()[i];
    lemma_first_idx(p.spec_idmap(), v);
    let f = spec_first_idx(p.spec_idmap(), v);
    if f < i {
        assert(p.spec_idmap()[f] == v);
    } else if f > i {
        assert(p.spec_idmap()[i] != v);
    }
}

} // verus!
