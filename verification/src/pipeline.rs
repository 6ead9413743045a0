pub mod filter;

use vstd::prelude::*;

use crate::data::{sig_views, CycleValues, PipelineConfig, Signal, SpecSignal};
use crate::error::Error;
use crate::load::empty::EmptyLoader;
use crate::load::vcd::VcdLoader;
use crate::pipeline::filter::{
    analog_view, grep_keeps, ignore_keeps, not_comment, replaced_name, signal_list_output, Analog,
    Grep, Ignore, RemoveComments, ReplacePrefix, SignalList,
};
use crate::simtime::{SimTime, SimTimeRange, SimTimeUnit};

verus! {

/// One of the shipped filter stages, behind a single closed set of
/// capabilities: signal-list translation, reverse id translation, value
/// transformation and configuration.
pub enum FilterKind {
    Grep(Grep),
    SignalList(SignalList),
    RemoveComments(RemoveComments),
    ReplacePrefix(ReplacePrefix),
    Ignore(Ignore),
    Analog(Analog),
}

impl FilterKind {
    /// What each filter does to the signal list.
    pub open spec fn spec_translate(&self, sigs: Seq<SpecSignal>) -> Seq<SpecSignal> {
        match self {
            FilterKind::Grep(g) => sigs.filter(|s: SpecSignal| grep_keeps(g.spec_re(), s)),
            FilterKind::SignalList(sl) => signal_list_output(
                sl.spec_list(),
                sl.spec_enabled(),
                sigs,
            ),
            FilterKind::RemoveComments(_) => sigs.filter(|s: SpecSignal| not_comment(s)),
            FilterKind::ReplacePrefix(rp) => Seq::new(
                sigs.len(),
                |i: int|
                    SpecSignal {
                        id: sigs[i].id,
                        name: replaced_name(rp.spec_prefix(), rp.spec_replacement(), sigs[i].name),
                        format: sigs[i].format,
                    },
            ),
            FilterKind::Ignore(ig) => sigs.filter(
                |s: SpecSignal| ignore_keeps(ig.spec_allow(), ig.spec_deny(), s),
            ),
            FilterKind::Analog(a) => sigs.map_values(
                |s: SpecSignal| analog_view(a.spec_patterns(), a.spec_min(), a.spec_max(), s),
            ),
        }
    }

    /// How configuration changes a filter: the list filter reads the
    /// name list and switch, every other filter is untouched.
    pub open spec fn spec_configured(old_f: FilterKind, new_f: FilterKind, config: PipelineConfig) -> bool {
        match (old_f, new_f) {
            (FilterKind::SignalList(_), FilterKind::SignalList(b)) => b.spec_list()
                == config.name_list@ && b.spec_enabled() == config.enable_filter_list,
            (a, b) => a == b,
        }
    }

    /// Applies this stage's signal translation.
    pub fn translate_signals(&self, signals: &Vec<Signal<usize>>) -> (r: Vec<Signal<usize>>)
        ensures
            sig_views(r@) == self.spec_translate(sig_views(signals@)),
    {
        match self {
            FilterKind::Grep(g) => g.translate_signals(signals),
            FilterKind::SignalList(sl) => sl.translate_signals(signals),
            FilterKind::RemoveComments(rc) => rc.translate_signals(signals),
            FilterKind::ReplacePrefix(rp) => {
                let r = rp.translate_signals(signals);
                proof {
                    assert(sig_views(r@) =~= self.spec_translate(sig_views(signals@)));
                }
                r
            },
            FilterKind::Ignore(ig) => ig.translate_signals(signals),
            FilterKind::Analog(a) => a.translate_signals(signals),
        }
    }

    /// All shipped filters keep the id domain: the ids requested above a
    /// stage are the ids requested below it.
    pub fn rev_translate_ids(&self, ids: &Vec<usize>) -> (r: Vec<usize>)
        ensures
            r@ == ids@,
    {
        let n = ids.len();
        let mut r: Vec<usize> = Vec::new();
        let mut i: usize = 0;
        while i < n
            invariant
                i <= n,
                n == ids@.len(),
                r@ =~= ids@.take(i as int),
            decreases n - i,
        {
            r.push(ids[i]);
            proof {
                assert(ids@.take(i + 1) =~= ids@.take(i as int).push(ids@[i as int]));
            }
            i = i + 1;
        }
        proof {
            assert(ids@.take(n as int) =~= ids@);
        }
        r
    }

    /// All shipped filters leave sampled values untouched.
    pub fn transform(&self, values: &mut CycleValues)
        ensures
            *final(values) == *old(values),
    {
    }

    /// Receives the pipeline configuration.
    pub fn configure_pipeline(&mut self, config: &PipelineConfig) -> (r: Result<(), Error>)
        ensures
            r is Ok,
            FilterKind::spec_configured(*old(self), *final(self), *config),
    {
        match self {
            FilterKind::SignalList(sl) => sl.configure_pipeline(config),
            _ => Ok(()),
        }
    }
}

/// A concrete signal source: the event-log loader or the null loader.
pub enum SourceKind {
    Vcd(VcdLoader),
    Empty(EmptyLoader),
}

impl SourceKind {
    pub open spec fn wf(&self) -> bool {
        match self {
            SourceKind::Vcd(l) => l.wf(),
            SourceKind::Empty(_) => true,
        }
    }

    /// The source's signals, re-tagged with the dense position its own
    /// name lookup assigns to each name.
    pub open spec fn spec_signals(&self) -> Seq<SpecSignal> {
        match self {
            SourceKind::Vcd(l) => Seq::new(
                l.spec_num_signals(),
                |i: int|
                    SpecSignal {
                        id: l.spec_lookup(l.spec_name(i)),
                        name: l.spec_name(i),
                        format: l.spec_format(i),
                    },
            ),
            SourceKind::Empty(_) => Seq::empty(),
        }
    }

    /// The sampled value of the signal at pipeline position `id`.
    pub open spec fn spec_cell(&self, id: int, cycle: nat) -> nat {
        match self {
            SourceKind::Vcd(l) => l.spec_cell(l.spec_name(id), cycle),
            SourceKind::Empty(_) => 0,
        }
    }

    pub open spec fn spec_num_cycles(&self) -> nat {
        match self {
            SourceKind::Vcd(l) => l.spec_num_cycles(),
            SourceKind::Empty(_) => 0,
        }
    }

    /// Wall time at which a cycle begins.
    pub open spec fn spec_time(&self, cycle: nat) -> SimTime {
        match self {
            SourceKind::Vcd(l) => l.spec_cycle_time().spec_scale(cycle as u64),
            SourceKind::Empty(_) => SimTime { value: 0, unit: SimTimeUnit::S },
        }
    }

    /// What a sampling request must satisfy at this source: an ordered
    /// window whose cycle count fits the machine, and known ids.
    pub open spec fn sample_pre(&self, ids: Seq<usize>, times: SimTimeRange) -> bool {
        match self {
            SourceKind::Vcd(l) => {
                let cf = l.spec_cycle_time().fs();
                &&& times.0.fs() <= times.1.fs()
                &&& times.1.fs() / cf <= u64::MAX
                &&& times.1.fs() / cf - times.0.fs() / cf <= usize::MAX
                &&& (times.1.fs() / cf - times.0.fs() / cf) * ids.len() <= usize::MAX
                &&& (forall|i: int| 0 <= i < ids.len() ==> (#[trigger] ids[i]) < l.spec_num_signals())
            },
            SourceKind::Empty(_) => true,
        }
    }

    /// What a successful sample holds at this source: one row per
    /// requested cycle, one column per requested id, each cell the
    /// replayed value of that id's name.
    pub open spec fn sample_post(
        &self,
        ids: Seq<usize>,
        times: SimTimeRange,
        m: CycleValues,
    ) -> bool {
        match self {
            SourceKind::Vcd(l) => {
                let cf = l.spec_cycle_time().fs();
                let start = times.0.fs() / cf;
                let stop = times.1.fs() / cf;
                &&& m.wf()
                &&& m.spec_rows() == stop - start
                &&& m.spec_cols() == ids.len()
                &&& (forall|row: int, c: int|
                    0 <= row < m.spec_rows() && 0 <= c < m.spec_cols() ==> #[trigger] m.entry(
                        row,
                        c,
                    ) == self.spec_cell(ids[c] as int, (start + row) as nat))
            },
            SourceKind::Empty(_) => m.wf() && m.spec_rows() == 0 && m.spec_cols() == 0,
        }
    }
}

/// One link of the pipeline: the source leaf, or a filter wrapping the
/// chain beneath it.
///
/// A chain has exactly one leaf and a linear sequence of filters above
/// it; every operation pattern-matches on the two variants.
pub enum Stage {
    Src(SourceKind),
    Fil(Box<Stage>, FilterKind),
}

impl Stage {
    pub open spec fn wf(&self) -> bool
        decreases self,
    {
        match self {
            Stage::Src(s) => s.wf(),
            Stage::Fil(prev, _) => prev.wf(),
        }
    }

    /// The source at the bottom of the chain.
    pub open spec fn source(&self) -> SourceKind
        decreases self,
    {
        match self {
            Stage::Src(s) => *s,
            Stage::Fil(prev, _) => prev.source(),
        }
    }

    /// The signal list this stage shows: the source's list, run through
    /// each filter above it in turn.
    pub open spec fn spec_signals(&self) -> Seq<SpecSignal>
        decreases self,
    {
        match self {
            Stage::Src(s) => s.spec_signals(),
            Stage::Fil(prev, f) => f.spec_translate(prev.spec_signals()),
        }
    }

    /// Builds a chain from a source alone.
    pub fn new(source: SourceKind) -> (r: Stage)
        ensures
            r == Stage::Src(source),
    {
        Stage::Src(source)
    }

    /// Wraps the chain in a new filter stage.
    pub fn push(self, stage: FilterKind) -> (r: Stage)
        ensures
            (r matches Stage::Fil(prev, f) && *prev == self && f == stage),
    {
        Stage::Fil(Box::new(self), stage)
    }

    /// Removes the outermost filter stage, if any.
    pub fn pop(self) -> (r: (Stage, Option<FilterKind>))
        ensures
            (match self {
                Stage::Fil(prev, f) => r.0 == *prev && r.1 == Some(f),
                Stage::Src(_) => r.0 == self && r.1 is None,
            }),
    {
        match self {
            Stage::Fil(prev, f) => (*prev, Some(f)),
            Stage::Src(_) => (self, None),
        }
    }

    /// The signal list this stage shows.
    pub fn query_signals(&self) -> (r: Result<Vec<Signal<usize>>, Error>)
        requires
            self.wf(),
        ensures
            (r matches Ok(v) && sig_views(v@) == self.spec_signals()),
        decreases self,
    {
        match self {
            Stage::Src(src) => {
                match src {
                    SourceKind::Vcd(l) => {
                        let native = l.query_signals();
                        let n = native.len();
                        let mut out: Vec<Signal<usize>> = Vec::new();
                        let mut i: usize = 0;
                        proof {
                            assert(sig_views(out@) =~= src.spec_signals().take(0));
                        }
                        while i < n
                            invariant
                                src matches SourceKind::Vcd(l2) && l2 == l,
                                l.wf(),
                                i <= n,
                                n == native@.len(),
                                n == l.spec_num_signals(),
                                forall|j: int|
                                    0 <= j < n ==> (#[trigger] native@[j]).id@ == l.spec_name(j)
                                        && native@[j].name@ == l.spec_name(j) && native@[j].format
                                        == l.spec_format(j),
                                sig_views(out@) =~= src.spec_signals().take(i as int),
                            decreases n - i,
                        {
                            let sig = &native[i];
                            let p = match l.lookup_id(&sig.id) {
                                Ok(p) => p,
                                Err(e) => {
                                    proof {
                                        assert(sig.id@ == l.spec_name(i as int));
                                        assert(l.name_declared(sig.id@));
                                        assert(false);
                                    }
                                    return Err(e);
                                },
                            };
                            let ghost o0 = out@;
                            out.push(Signal { id: p, name: sig.name.clone(), format: sig.format });
                            proof {
                                assert(sig_views(out@) =~= sig_views(o0).push(
                                    src.spec_signals()[i as int],
                                ));
                                assert(sig_views(out@) =~= src.spec_signals().take(i + 1));
                            }
                            i = i + 1;
                        }
                        proof {
                            assert(src.spec_signals().take(n as int) =~= src.spec_signals());
                        }
                        Ok(out)
                    },
                    SourceKind::Empty(_) => {
                        let out = Vec::new();
                        proof {
                            assert(sig_views(out@) =~= Seq::<SpecSignal>::empty());
                        }
                        Ok(out)
                    },
                }
            },
            Stage::Fil(prev, f) => {
                let below = prev.query_signals()?;
                Ok(f.translate_signals(&below))
            },
        }
    }

    /// Time-range, time and cycle-count queries pass straight through to
    /// the source; filters never alter timing.
    pub fn query_time_range(&self) -> (r: SimTimeRange)
        requires
            self.wf(),
        ensures
            r.0.fs() == 0,
            r.1 == self.source().spec_time(self.source().spec_num_cycles()),
        decreases self,
    {
        match self {
            Stage::Src(src) => {
                match src {
                    SourceKind::Vcd(l) => l.query_time_range(),
                    SourceKind::Empty(e) => e.query_time_range(),
                }
            },
            Stage::Fil(prev, _) => prev.query_time_range(),
        }
    }

    pub fn query_time(&self, cycle: usize) -> (r: SimTime)
        requires
            self.wf(),
            cycle <= self.source().spec_num_cycles(),
        ensures
            r == self.source().spec_time(cycle as nat),
        decreases self,
    {
        match self {
            Stage::Src(src) => {
                match src {
                    SourceKind::Vcd(l) => l.query_time(cycle),
                    SourceKind::Empty(e) => e.query_time(cycle),
                }
            },
            Stage::Fil(prev, _) => prev.query_time(cycle),
        }
    }

    pub fn query_cycle_count(&self) -> (r: usize)
        requires
            self.wf(),
        ensures
            r == self.source().spec_num_cycles(),
        decreases self,
    {
        match self {
            Stage::Src(src) => {
                match src {
                    SourceKind::Vcd(l) => l.query_cycle_count(),
                    SourceKind::Empty(e) => e.query_cycle_count(),
                }
            },
            Stage::Fil(prev, _) => prev.query_cycle_count(),
        }
    }

    /// Samples pipeline ids over a wall-time window: reverse-translates
    /// the ids down the chain, samples the source, and applies each
    /// stage's value transform on the way back up (a no-op for every
    /// shipped filter).
    pub fn sample(&self, ids: &Vec<usize>, times: &SimTimeRange) -> (r: Result<CycleValues, Error>)
        requires
            self.wf(),
            self.source().sample_pre(ids@, *times),
        ensures
            (r matches Ok(m) && self.source().sample_post(ids@, *times, m)),
        decreases self,
    {
        match self {
            Stage::Src(src) => {
                match src {
                    SourceKind::Vcd(l) => {
                        let n = ids.len();
                        let mut names: Vec<String> = Vec::new();
                        let mut i: usize = 0;
                        while i < n
                            invariant
                                src matches SourceKind::Vcd(l2) && l2 == l,
                                l.wf(),
                                i <= n,
                                n == ids@.len(),
                                names@.len() == i,
                                forall|j: int| 0 <= j < n ==> (#[trigger] ids@[j]) < l.spec_num_signals(),
                                forall|j: int|
                                    0 <= j < i ==> (#[trigger] names@[j])@ == l.spec_name(
                                        ids@[j] as int,
                                    ),
                            decreases n - i,
                        {
                            let nm = match l.rev_lookup_id(ids[i]) {
                                Ok(nm) => nm,
                                Err(e) => {
                                    proof {
                                        assert(false);
                                    }
                                    return Err(e);
                                },
                            };
                            names.push(nm);
                            i = i + 1;
                        }
                        let m = match l.sample(&names, times) {
                            Ok(m) => m,
                            Err(e) => {
                                match &e {
                                    Error::NotFound(nm) => {
                                        proof {
                                            let c = choose|c: int|
                                                0 <= c < names@.len() && #[trigger] names@[c]@
                                                    == nm@;
                                            assert(l.spec_name(ids@[c] as int) == nm@);
                                            assert(l.name_declared(nm@));
                                            assert(false);
                                        }
                                    },
                                    _ => {
                                        proof {
                                            assert(false);
                                        }
                                    },
                                }
                                return Err(e);
                            },
                        };
                        proof {
                            assert forall|row: int, c: int|
                                0 <= row < m.spec_rows() && 0 <= c
                                    < m.spec_cols() implies #[trigger] m.entry(row, c)
                                == src.spec_cell(
                                ids@[c] as int,
                                (times.0.fs() / l.spec_cycle_time().fs() + row) as nat,
                            ) by {
                                assert(names@[c]@ == l.spec_name(ids@[c] as int));
                            }
                        }
                        Ok(m)
                    },
                    SourceKind::Empty(e) => e.sample(&Vec::new(), times),
                }
            },
            Stage::Fil(prev, f) => {
                let trans_ids = f.rev_translate_ids(ids);
                let mut vals = prev.sample(&trans_ids, times)?;
                f.transform(&mut vals);
                Ok(vals)
            },
        }
    }

    /// How configuration changes a chain: each filter is configured, the
    /// source and the shape are untouched.
    pub open spec fn spec_configured(old_s: Stage, new_s: Stage, config: PipelineConfig) -> bool
        decreases old_s,
    {
        match (old_s, new_s) {
            (Stage::Src(a), Stage::Src(b)) => a == b,
            (Stage::Fil(pa, fa), Stage::Fil(pb, fb)) => FilterKind::spec_configured(fa, fb, config)
                && Stage::spec_configured(*pa, *pb, config),
            (a, b) => false,
        }
    }

    /// Walks the whole chain from here down to the source, configuring
    /// each filter in turn; the leaf is a no-op.
    pub fn configure_pipeline(&mut self, config: &PipelineConfig) -> (r: Result<(), Error>)
        ensures
            r is Ok,
            Stage::spec_configured(*old(self), *final(self), *config),
        decreases *old(self),
    {
        match self {
            Stage::Src(_) => Ok(()),
            Stage::Fil(prev, f) => {
                let r1 = f.configure_pipeline(config);
                match r1 {
                    Ok(_) => {
                    },
                    Err(e) => {
                        proof {
                            assert(false);
                        }
                        return Err(e);
                    },
                }
                prev.configure_pipeline(config)
            },
        }
    }
}


/// Every id of a signal list lies below a bound.
pub open spec fn ids_below(sigs: Seq<SpecSignal>, n: int) -> bool {
    forall|j: int| 0 <= j < sigs.len() ==> 0 <= (#[trigger] sigs[j]).id < n
}

/// Filtering keeps ids below the bound.
proof fn lemma_filter_ids_below(s: Seq<SpecSignal>, pred: spec_fn(SpecSignal) -> bool, n: int)
    requires
        ids_below(s, n),
    ensures
        ids_below(s.filter(pred), n),
    decreases s.len(),
{
    reveal(Seq::filter);
    if s.len() > 0 {
        assert(ids_below(s.drop_last(), n));
        lemma_filter_ids_below(s.drop_last(), pred, n);
    }
}

/// The keyed signals carry exactly the input signals.
proof fn lemma_keyed_ids_below(
    list: Seq<String>,
    sigs: Seq<SpecSignal>,
    i: int,
    st: int,
    n: int,
)
    requires
        ids_below(sigs, n),
    ensures
        (forall|j: int|
            0 <= j < crate::pipeline::filter::keyed_from(list, sigs, i, st).len() ==> 0 <= (
            #[trigger] crate::pipeline::filter::keyed_from(list, sigs, i, st)[j]).1.id < n),
    decreases sigs.len() - i,
{
    if 0 <= i < sigs.len() {
        match crate::pipeline::filter::list_key(list, sigs[i].name) {
            Some(k) => {
                lemma_keyed_ids_below(list, sigs, i + 1, k, n);
            },
            None => {
                lemma_keyed_ids_below(list, sigs, i + 1, st, n);
            },
        }
    }
}

/// A key group's ids come from the keyed signals.
proof fn lemma_group_ids_below(keyed: Seq<(int, SpecSignal, bool)>, k: int, n: int)
    requires
        forall|j: int| 0 <= j < keyed.len() ==> 0 <= (#[trigger] keyed[j]).1.id < n,
    ensures
        ids_below(crate::pipeline::filter::group_of(keyed, k), n),
    decreases keyed.len(),
{
    if keyed.len() > 0 {
        assert(forall|j: int|
            0 <= j < keyed.drop_last().len() ==> 0 <= (#[trigger] keyed.drop_last()[j]).1.id < n);
        lemma_group_ids_below(keyed.drop_last(), k, n);
    }
}

/// The grouped output's ids come from the keyed signals.
proof fn lemma_groups_ids_below(keyed: Seq<(int, SpecSignal, bool)>, k: int, n: int)
    requires
        forall|j: int| 0 <= j < keyed.len() ==> 0 <= (#[trigger] keyed[j]).1.id < n,
    ensures
        ids_below(crate::pipeline::filter::groups_upto(keyed, k), n),
    decreases k,
{
    if k > 0 {
        lemma_groups_ids_below(keyed, k - 1, n);
        lemma_group_ids_below(keyed, k - 1, n);
    }
}

/// No filter invents an id: a stage's output ids stay below any bound
/// the input ids respect.
pub proof fn lemma_translate_ids_below(f: &FilterKind, sigs: Seq<SpecSignal>, n: int)
    requires
        ids_below(sigs, n),
    ensures
        ids_below(f.spec_translate(sigs), n),
{
    match f {
        FilterKind::Grep(g) => {
            lemma_filter_ids_below(sigs, |s: SpecSignal| grep_keeps(g.spec_re(), s), n);
        },
        FilterKind::SignalList(sl) => {
            if sl.spec_enabled() {
                lemma_keyed_ids_below(sl.spec_list(), sigs, 0, 0, n);
                lemma_groups_ids_below(
                    crate::pipeline::filter::keyed_from(sl.spec_list(), sigs, 0, 0),
                    sl.spec_list().len() as int + 1,
                    n,
                );
            }
        },
        FilterKind::RemoveComments(_) => {
            lemma_filter_ids_below(sigs, |s: SpecSignal| not_comment(s), n);
        },
        FilterKind::ReplacePrefix(_) => {
        },
        FilterKind::Ignore(ig) => {
            lemma_filter_ids_below(
                sigs,
                |s: SpecSignal| ignore_keeps(ig.spec_allow(), ig.spec_deny(), s),
                n,
            );
        },
        FilterKind::Analog(_) => {
        },
    }
}

/// Every id a chain shows addresses one of the source's signals.
pub proof fn lemma_stage_ids_below(s: &Stage)
    requires
        s.wf(),
    ensures
        ids_below(s.spec_signals(), s.source().spec_signals().len() as int),
    decreases s,
{
    match s {
        Stage::Src(src) => {
            match src {
                SourceKind::Vcd(l) => {
                    assert(src.spec_signals().len() == l.spec_num_signals());
                    assert forall|j: int| 0 <= j < src.spec_signals().len() implies 0 <= (
                    #[trigger] src.spec_signals()[j]).id < src.spec_signals().len() as int by {
                        assert(0 <= j < l.spec_num_signals());
                        assert(exists|i: int|
                            0 <= i < l.spec_num_signals() && l.spec_name(i) == l.spec_name(j)) by {
                            assert(l.spec_name(j) == l.spec_name(j));
                        }
                        assert(l.name_declared(l.spec_name(j)));
                        l.lemma_lookup_declared(l.spec_name(j));
                        assert(src.spec_signals()[j].id == l.spec_lookup(l.spec_name(j)));
                    }
                },
                SourceKind::Empty(_) => {
                },
            }
        },
        Stage::Fil(prev, f) => {
            lemma_stage_ids_below(prev);
            lemma_translate_ids_below(f, prev.spec_signals(), s.source().spec_signals().len() as int);
        },
    }
}


/// A sound chain has a sound source.
pub proof fn lemma_source_wf(s: Stage)
    requires
        s.wf(),
    ensures
        s.source().wf(),
    decreases s,
{
    match s {
        Stage::Src(_) => {
        },
        Stage::Fil(prev, _) => {
            lemma_source_wf(*prev);
        },
    }
}


/// Configuration never changes the source or the chain's shape.
pub proof fn lemma_configured_source(old_s: Stage, new_s: Stage, config: PipelineConfig)
    requires
        Stage::spec_configured(old_s, new_s, config),
    ensures
        new_s.source() == old_s.source(),
        new_s.wf() == old_s.wf(),
    decreases old_s,
{
    match (old_s, new_s) {
        (Stage::Fil(pa, fa), Stage::Fil(pb, fb)) => {
            lemma_configured_source(*pa, *pb, config);
        },
        _ => {
        },
    }
}

} // verus!
