pub mod cache;
pub mod pipeline_cid;

use vstd::prelude::*;

use crate::data::{CycleValues, PipelineConfig};
use crate::error::Error;
use crate::formatting::{format_value, spec_format_value, WaveFormat};
use crate::value::{bits_value, canonical_bits};
use crate::pipeline::{FilterKind, SourceKind, Stage};
use crate::value::SampleValue;
use crate::wave::cache::Cache;
use crate::wave::pipeline_cid::PipelineCId;

verus! {

/// Cycles fetched per step of a transition search, so one search step
/// never materializes more than a bounded window while still reusing the
/// tile cache across repeated searches.
pub const SEARCH_HORIZON: usize = 1024;

const CACHE_TILES: usize = 128;
const CACHE_SIGNALS_PER_TILE: usize = 128;
const CACHE_CYCLES_PER_TILE: usize = 1024;

/// The facade consumed by display and scripting code.
///
/// A `Wave` owns one contiguous-id adapter over a filter chain and one
/// tile cache, plus the derived signal name and format tables. Whenever
/// the chain's signal list can have changed - a filter pushed or popped,
/// or the chain reloaded after configuration - the whole facade is
/// rebuilt, because dense ids and every cached tile's meaning are
/// defined relative to one fixed chain shape.
pub struct Wave {
    formatters: Vec<WaveFormat>,
    names: Vec<String>,
    pipe: PipelineCId,
    config: PipelineConfig,
    num_signals: usize,
    cache: Cache,
}

impl Wave {
    pub closed spec fn wf(&self) -> bool {
        &&& self.pipe.wf()
        &&& self.cache.wf()
        &&& self.cache.matches_pipe(&self.pipe)
        &&& self.cache.coherent(&self.pipe)
        &&& self.num_signals == self.pipe.spec_idmap().len()
        &&& self.names@.len() == self.num_signals
        &&& self.formatters@.len() == self.num_signals
    }

    /// The chain this facade was built over.
    pub closed spec fn spec_chain(&self) -> Stage {
        self.pipe.spec_pipe()
    }

    /// The sampled value of dense signal `i` at a cycle.
    pub closed spec fn spec_cell(&self, i: int, cycle: nat) -> nat {
        self.pipe.spec_cell(i, cycle)
    }

    pub closed spec fn spec_num_signals(&self) -> int {
        self.num_signals as int
    }

    pub closed spec fn spec_num_cycles(&self) -> int {
        self.pipe.spec_pipe().source().spec_num_cycles() as int
    }

    pub closed spec fn spec_name(&self, i: int) -> Seq<char> {
        self.names@[i]@
    }

    pub closed spec fn spec_format(&self, i: int) -> WaveFormat {
        self.formatters@[i]
    }

    pub closed spec fn spec_config(&self) -> &PipelineConfig {
        &self.config
    }

    /// Builds a facade over a fresh chain holding the source alone: the
    /// facade shows exactly the source's signals, and every cell it
    /// serves is the source's replayed value for that signal and cycle.
    pub fn load(source: SourceKind) -> (r: Result<Wave, Error>)
        requires
            source.wf(),
        ensures
            (r is Ok <==> (source.spec_num_cycles() <= usize::MAX - 1024
                && source.spec_signals().len() <= usize::MAX - 128)),
            (r matches Ok(w) ==> {
                let sigs = source.spec_signals();
                &&& w.wf()
                &&& w.spec_chain() == Stage::Src(source)
                &&& w.spec_num_signals() == sigs.len()
                &&& w.spec_num_cycles() == source.spec_num_cycles()
                &&& (forall|i: int|
                    0 <= i < sigs.len() ==> w.spec_name(i) == (#[trigger] sigs[i]).name
                        && w.spec_format(i) == sigs[i].format)
                &&& (forall|i: int, c: nat|
                    0 <= i < sigs.len() ==> #[trigger] w.spec_cell(i, c) == source.spec_cell(
                        sigs[i].id,
                        c,
                    ))
            }),
    {
        let pipe = match PipelineCId::new(source) {
            Ok(p) => p,
            Err(e) => {
                proof {
                    assert(false);
                }
                return Err(e);
            },
        };
        let config = PipelineConfig::default();
        Wave::load_from_pipe(pipe, config)
    }

    /// Re-derives everything that depends on the chain's signal list: the
    /// adapter's id map, the name and format tables, and a fresh cache.
    fn load_from_pipe(pipe: PipelineCId, config: PipelineConfig) -> (r: Result<Wave, Error>)
        requires
            pipe.spec_pipe().wf(),
        ensures
            (r is Ok <==> (pipe.spec_pipe().source().spec_num_cycles() <= usize::MAX - 1024
                && pipe.spec_pipe().spec_signals().len() <= usize::MAX - 128)),
            (r matches Ok(w) ==> {
                let sigs = pipe.spec_pipe().spec_signals();
                &&& w.wf()
                &&& w.spec_chain() == pipe.spec_pipe()
                &&& w.spec_num_signals() == sigs.len()
                &&& w.spec_num_cycles() == pipe.spec_pipe().source().spec_num_cycles()
                &&& (forall|i: int|
                    0 <= i < sigs.len() ==> w.spec_name(i) == (#[trigger] sigs[i]).name
                        && w.spec_format(i) == sigs[i].format)
                &&& (forall|i: int, c: nat|
                    0 <= i < sigs.len() ==> #[trigger] w.spec_cell(i, c) == pipe.spec_pipe(
                    ).source().spec_cell(sigs[i].id, c))
            }),
    {
        let mut pipe = pipe;
        match pipe.query_init() {
            Ok(_) => {
            },
            Err(e) => {
                proof {
                    assert(false);
                }
                return Err(e);
            },
        }
        let signals = match pipe.query_signals() {
            Ok(v) => v,
            Err(e) => {
                proof {
                    assert(false);
                }
                return Err(e);
            },
        };
        let num_signals = signals.len();
        let mut names: Vec<String> = Vec::new();
        let mut formatters: Vec<WaveFormat> = Vec::new();
        let n = signals.len();
        let mut i: usize = 0;
        while i < n
            invariant
                i <= n,
                n == signals@.len(),
                n == pipe.spec_pipe().spec_signals().len(),
                names@.len() == i,
                formatters@.len() == i,
                forall|j: int|
                    0 <= j < n ==> (#[trigger] signals@[j]).name@ == pipe.spec_pipe(
                    ).spec_signals()[j].name && signals@[j].format == pipe.spec_pipe(
                    ).spec_signals()[j].format,
                forall|j: int|
                    0 <= j < i ==> (#[trigger] names@[j])@ == pipe.spec_pipe(
                    ).spec_signals()[j].name,
                forall|j: int|
                    0 <= j < i ==> #[trigger] formatters@[j] == pipe.spec_pipe(
                    ).spec_signals()[j].format,
            decreases n - i,
        {
            let s = &signals[i];
            names.push(s.name.clone());
            formatters.push(s.format);
            i = i + 1;
        }
        let num_cycles = pipe.query_cycle_count();
        if num_cycles > usize::MAX - CACHE_CYCLES_PER_TILE || num_signals > usize::MAX
            - CACHE_SIGNALS_PER_TILE {
            return Err(Error::Internal("the trace extent overflows the cache geometry".to_owned()));
        }
        let cache = Cache::new(
            CACHE_TILES,
            CACHE_SIGNALS_PER_TILE,
            CACHE_CYCLES_PER_TILE,
            num_signals,
            num_cycles,
        );
        Ok(Wave { formatters, names, pipe, config, num_signals, cache })
    }

    pub fn num_cycles(&self) -> (r: usize)
        requires
            self.wf(),
        ensures
            r == self.spec_num_cycles(),
    {
        self.pipe.query_cycle_count()
    }

    pub fn num_signals(&self) -> (r: usize)
        ensures
            r == self.spec_num_signals(),
    {
        self.num_signals
    }

    /// Serves a rectangular (signal x cycle) query from the cache: one
    /// `Cache::get` per signal in range, assembled into a fresh matrix
    /// whose cells are exactly the chain's values for those cells.
    pub fn cached_slice(&mut self, ids: core::ops::Range<usize>, cycles: core::ops::Range<usize>) -> (r:
        Result<WaveSlice, Error>)
        requires
            old(self).wf(),
        ensures
            final(self).wf(),
            final(self).spec_num_signals() == old(self).spec_num_signals(),
            final(self).spec_num_cycles() == old(self).spec_num_cycles(),
            (forall|i: int, c: nat| final(self).spec_cell(i, c) == old(self).spec_cell(i, c)),
            (forall|i: int| #[trigger] final(self).spec_format(i) == old(self).spec_format(i)),
            (forall|i: int| #[trigger] final(self).spec_name(i) == old(self).spec_name(i)),
            (match r {
                Ok(ws) => {
                    &&& ids.start <= ids.end <= old(self).spec_num_signals()
                    &&& cycles.start <= cycles.end <= old(self).spec_num_cycles()
                    &&& (ids.end - ids.start) * (cycles.end - cycles.start) <= usize::MAX
                    &&& ws.wf()
                    &&& ws.spec_ids_start() == ids.start
                    &&& ws.spec_ids_end() == ids.end
                    &&& ws.spec_cycles_start() == cycles.start
                    &&& ws.spec_cycles_end() == cycles.end
                    &&& (forall|i: int, c: int|
                        ids.start <= i < ids.end && cycles.start <= c < cycles.end
                            ==> #[trigger] ws.spec_value(i, c) == old(self).spec_cell(i, c as nat))
                    &&& (forall|i: int|
                        ids.start <= i < ids.end ==> #[trigger] ws.spec_format(i) == old(self).spec_format(i))
                    &&& ws.spec_num_names() == old(self).spec_num_signals()
                    &&& (forall|i: int|
                        0 <= i < old(self).spec_num_signals() ==> #[trigger] ws.spec_name(i)
                            == old(self).spec_name(i))
                },
                Err(_) => !(ids.start <= ids.end <= old(self).spec_num_signals() && cycles.start
                    <= cycles.end <= old(self).spec_num_cycles() && (ids.end - ids.start) * (
                cycles.end - cycles.start) <= usize::MAX),
            }),
    {
        let ids_start = ids.start;
        let ids_end = ids.end;
        let cyc_start = cycles.start;
        let cyc_end = cycles.end;
        if ids_start > ids_end || ids_end > self.num_signals {
            return Err(Error::IdOutOfRange(ids_end, 0, self.num_signals));
        }
        let nc = self.pipe.query_cycle_count();
        if cyc_start > cyc_end {
            return Err(Error::InvalidRange(cyc_start, cyc_end, 0, nc));
        }
        if cyc_end > nc {
            return Err(Error::CycleOutOfRange(cyc_end, nc));
        }
        let width = ids_end - ids_start;
        let height = cyc_end - cyc_start;
        if width != 0 && height > usize::MAX / width {
            proof {
                vstd::arithmetic::div_mod::lemma_fundamental_div_mod(
                    usize::MAX as int,
                    width as int,
                );
                assert(width * height > usize::MAX) by (nonlinear_arith)
                    requires
                        width >= 1,
                        height as int > usize::MAX as int / width as int,
                        usize::MAX as int == width as int * (usize::MAX as int / width as int)
                            + usize::MAX as int % width as int,
                        0 <= usize::MAX as int % (width as int),
                        usize::MAX as int % (width as int) < width as int,
                ;
            }
            return Err(Error::InvalidRange(cyc_start, cyc_end, 0, nc));
        }
        proof {
            if width != 0 {
                vstd::arithmetic::div_mod::lemma_fundamental_div_mod(
                    usize::MAX as int,
                    width as int,
                );
                vstd::arithmetic::mul::lemma_mul_inequality(
                    height as int,
                    usize::MAX as int / width as int,
                    width as int,
                );
                vstd::arithmetic::mul::lemma_mul_is_commutative(height as int, width as int);
                vstd::arithmetic::mul::lemma_mul_is_commutative(
                    usize::MAX as int / width as int,
                    width as int,
                );
                assert(width * height <= usize::MAX);
            } else {
                assert(width * height == 0) by (nonlinear_arith)
                    requires
                        width == 0,
                ;
            }
        }
        let mut data = CycleValues::new_zero(height, width);
        let mut i: usize = 0;
        while i < width
            invariant
                self.wf(),
                self.spec_num_signals() == old(self).spec_num_signals(),
                self.spec_num_cycles() == old(self).spec_num_cycles(),
                (forall|a: int, c: nat| self.spec_cell(a, c) == old(self).spec_cell(a, c)),
                self.names@ == old(self).names@,
                self.formatters@ == old(self).formatters@,
                i <= width,
                width == ids_end - ids_start,
                height == cyc_end - cyc_start,
                ids_start + width <= self.spec_num_signals(),
                cyc_start <= cyc_end,
                cyc_end <= self.spec_num_cycles(),
                data.wf(),
                data.spec_rows() == height,
                data.spec_cols() == width,
                forall|r2: int, c2: int|
                    0 <= r2 < height && 0 <= c2 < i ==> #[trigger] data.entry(r2, c2)
                        == self.spec_cell(ids_start + c2, (cyc_start + r2) as nat),
            decreases width - i,
        {
            proof {
                assert(self.cache.spec_num_cycles() == self.spec_num_cycles());
                assert(self.cache.spec_num_signals() == self.spec_num_signals());
            }
            let col = self.cache.get(&self.pipe, ids_start + i, cyc_start..cyc_end);
            let mut r2: usize = 0;
            while r2 < height
                invariant
                    i < width,
                    r2 <= height,
                    col@.len() == height,
                    data.wf(),
                    data.spec_rows() == height,
                    data.spec_cols() == width,
                    forall|x: int| 0 <= x < height ==> (#[trigger] col@[x]).wf(),
                    forall|x: int|
                        0 <= x < height ==> (#[trigger] col@[x])@ == self.spec_cell(
                            ids_start + i,
                            (cyc_start + x) as nat,
                        ),
                    forall|x: int, c2: int|
                        0 <= x < height && 0 <= c2 < i ==> #[trigger] data.entry(x, c2)
                            == self.spec_cell(ids_start + c2, (cyc_start + x) as nat),
                    forall|x: int|
                        0 <= x < r2 ==> #[trigger] data.entry(x, i as int) == self.spec_cell(
                            ids_start + i,
                            (cyc_start + x) as nat,
                        ),
                decreases height - r2,
            {
                data.set(r2, i, col[r2].dup());
                r2 = r2 + 1;
            }
            i = i + 1;
        }
        let mut names: Vec<String> = Vec::new();
        let mut formatters: Vec<WaveFormat> = Vec::new();
        let n2 = self.names.len();
        let mut j: usize = 0;
        while j < n2
            invariant
                j <= n2,
                n2 == self.names@.len(),
                n2 == self.formatters@.len(),
                names@.len() == j,
                formatters@.len() == j,
                forall|x: int| 0 <= x < j ==> (#[trigger] names@[x])@ == self.names@[x]@,
                forall|x: int| 0 <= x < j ==> #[trigger] formatters@[x] == self.formatters@[x],
            decreases n2 - j,
        {
            names.push(self.names[j].clone());
            formatters.push(self.formatters[j]);
            j = j + 1;
        }
        let ws = WaveSlice {
            data,
            names,
            formatters,
            ids_start,
            ids_end,
            cycles_start: cyc_start,
            cycles_end: cyc_end,
        };
        proof {
            assert forall|a: int, c: int|
                ids_start <= a < ids_end && cyc_start <= c < cyc_end implies #[trigger] ws.spec_value(
                a,
                c,
            ) == old(self).spec_cell(a, c as nat) by {
                assert(ws.spec_value(a, c) == data.entry(c - cyc_start, a - ids_start));
            }
        }
        Ok(ws)
    }

    pub fn formatter(&self, signal_index: usize) -> (r: WaveFormat)
        requires
            signal_index < self.spec_num_signals(),
            self.wf(),
        ensures
            r == self.spec_format(signal_index as int),
    {
        self.formatters[signal_index]
    }

    /// Overrides a signal's display format. The override is cosmetic and
    /// does not invalidate the cache.
    pub fn set_formatter(&mut self, signal_index: usize, format: WaveFormat)
        requires
            old(self).wf(),
            signal_index < old(self).spec_num_signals(),
        ensures
            final(self).wf(),
            final(self).spec_format(signal_index as int) == format,
            forall|i: int|
                0 <= i < final(self).spec_num_signals() && i != signal_index ==> #[trigger] final(self).spec_format(i) == old(self).spec_format(i),
            (forall|i: int| #[trigger] final(self).spec_name(i) == old(self).spec_name(i)),
            final(self).spec_num_signals() == old(self).spec_num_signals(),
            final(self).spec_num_cycles() == old(self).spec_num_cycles(),
            (forall|i: int, c: nat| final(self).spec_cell(i, c) == old(self).spec_cell(i, c)),
    {
        self.formatters.set(signal_index, format);
    }

    /// The value of one cell, or nothing when the request lies outside
    /// the extent.
    pub fn value(&mut self, signal_index: usize, cycle: usize) -> (r: Option<SampleValue>)
        requires
            old(self).wf(),
        ensures
            final(self).wf(),
            final(self).spec_num_signals() == old(self).spec_num_signals(),
            final(self).spec_num_cycles() == old(self).spec_num_cycles(),
            (forall|i: int, c: nat| final(self).spec_cell(i, c) == old(self).spec_cell(i, c)),
            (forall|i: int| #[trigger] final(self).spec_format(i) == old(self).spec_format(i)),
            (match r {
                Some(v) => signal_index < old(self).spec_num_signals() && cycle < old(self).spec_num_cycles() && v.wf() && v@ == old(self).spec_cell(
                    signal_index as int,
                    cycle as nat,
                ),
                None => !(signal_index < old(self).spec_num_signals() && cycle < old(self).spec_num_cycles()),
            }),
    {
        if signal_index >= self.num_signals {
            return None;
        }
        let nc = self.pipe.query_cycle_count();
        if cycle >= nc {
            return None;
        }
        proof {
            assert((signal_index + 1 - signal_index) * (cycle + 1 - cycle) == 1) by (nonlinear_arith);
        }
        let ws = match self.cached_slice(signal_index..signal_index + 1, cycle..cycle + 1) {
            Ok(ws) => ws,
            Err(_) => {
                proof {
                    assert(false);
                }
                return None;
            },
        };
        ws.value(signal_index, cycle)
    }

    /// The value of one cell rendered under the signal's format.
    pub fn formatted_value(&mut self, signal_index: usize, cycle: usize) -> (r: Option<String>)
        requires
            old(self).wf(),
        ensures
            final(self).wf(),
            final(self).spec_num_signals() == old(self).spec_num_signals(),
            final(self).spec_num_cycles() == old(self).spec_num_cycles(),
            (forall|i: int, c: nat| final(self).spec_cell(i, c) == old(self).spec_cell(i, c)),
            (r is Some <==> signal_index < old(self).spec_num_signals() && cycle < old(self).spec_num_cycles()),
            (r matches Some(s) ==> exists|bits: Seq<bool>|
                canonical_bits(bits) && bits_value(bits) == old(self).spec_cell(
                    signal_index as int,
                    cycle as nat,
                ) && s@ == spec_format_value(bits, old(self).spec_format(signal_index as int))),
    {
        let v = match self.value(signal_index, cycle) {
            Some(v) => v,
            None => {
                return None;
            },
        };
        let format = self.formatters[signal_index];
        let s = format_value(&v, format);
        proof {
            v.lemma_bits();
            let bits = v.spec_bits();
            assert(format == self.spec_format(signal_index as int));
            assert(self.spec_format(signal_index as int) == old(self).spec_format(
                signal_index as int,
            ));
            assert(canonical_bits(bits) && bits_value(bits) == old(self).spec_cell(
                signal_index as int,
                cycle as nat,
            ) && s@ == spec_format_value(bits, old(self).spec_format(signal_index as int)));
        }
        Some(s)
    }

    pub fn name(&self, signal_index: usize) -> (r: Option<&str>)
        requires
            self.wf(),
        ensures
            (match r {
                Some(s) => signal_index < self.spec_num_signals() && s@ == self.spec_name(
                    signal_index as int,
                ),
                None => signal_index >= self.spec_num_signals(),
            }),
    {
        if signal_index < self.names.len() {
            Some(self.names[signal_index].as_str())
        } else {
            None
        }
    }

    pub fn get_names(&self) -> (r: &Vec<String>)
        requires
            self.wf(),
        ensures
            r@.len() == self.spec_num_signals(),
            forall|i: int| 0 <= i < r@.len() ==> (#[trigger] r@[i])@ == self.spec_name(i),
    {
        &self.names
    }

    /// Wraps the chain in a further filter and rebuilds the facade: the
    /// new facade shows the filter's translation of the old chain's
    /// signal list, over the same source data.
    pub fn push_filter(self, filter: FilterKind) -> (r: Result<Wave, Error>)
        requires
            self.wf(),
        ensures
            (r is Ok <==> (self.spec_chain().source().spec_num_cycles() <= usize::MAX - 1024
                && filter.spec_translate(self.spec_chain().spec_signals()).len() <= usize::MAX
                - 128)),
            (r matches Ok(w) ==> {
                let sigs = filter.spec_translate(self.spec_chain().spec_signals());
                &&& w.wf()
                &&& (w.spec_chain() matches Stage::Fil(prev, f) && *prev == self.spec_chain() && f
                    == filter)
                &&& w.spec_num_signals() == sigs.len()
                &&& w.spec_num_cycles() == self.spec_chain().source().spec_num_cycles()
                &&& (forall|i: int|
                    0 <= i < sigs.len() ==> w.spec_name(i) == (#[trigger] sigs[i]).name
                        && w.spec_format(i) == sigs[i].format)
                &&& (forall|i: int, c: nat|
                    0 <= i < sigs.len() ==> #[trigger] w.spec_cell(i, c) == self.spec_chain(
                    ).source().spec_cell(sigs[i].id, c))
            }),
    {
        Wave::load_from_pipe(self.pipe.push(filter), self.config)
    }

    /// Removes the outermost filter, rebuilds the facade, and hands the
    /// removed filter back; removing nothing from a bare source is a
    /// no-op that returns no filter.
    pub fn pop_filter(self) -> (r: Result<(Wave, Option<FilterKind>), Error>)
        requires
            self.wf(),
        ensures
            ({
                let rest = (match self.spec_chain() {
                    Stage::Fil(prev, _) => *prev,
                    Stage::Src(_) => self.spec_chain(),
                });
                &&& (r is Ok <==> (rest.source().spec_num_cycles() <= usize::MAX - 1024
                    && rest.spec_signals().len() <= usize::MAX - 128))
                &&& (r matches Ok(p) ==> {
                    let sigs = rest.spec_signals();
                    &&& p.0.wf()
                    &&& p.0.spec_chain() == rest
                    &&& (match self.spec_chain() {
                        Stage::Fil(_, f) => p.1 == Some(f),
                        Stage::Src(_) => p.1 is None,
                    })
                    &&& p.0.spec_num_signals() == sigs.len()
                    &&& p.0.spec_num_cycles() == rest.source().spec_num_cycles()
                    &&& (forall|i: int|
                        0 <= i < sigs.len() ==> p.0.spec_name(i) == (#[trigger] sigs[i]).name
                            && p.0.spec_format(i) == sigs[i].format)
                    &&& (forall|i: int, c: nat|
                        0 <= i < sigs.len() ==> #[trigger] p.0.spec_cell(i, c) == rest.source(
                        ).spec_cell(sigs[i].id, c))
                })
            }),
    {
        let (pipe, filter) = self.pipe.pop();
        proof {
            match self.pipe.spec_pipe() {
                Stage::Fil(_, _) => {
                },
                Stage::Src(_) => {
                },
            }
        }
        let new_self = Wave::load_from_pipe(pipe, self.config)?;
        Ok((new_self, filter))
    }

    /// Replaces the pipeline configuration that `reconfigure` pushes
    /// down the chain.
    pub fn set_config(&mut self, config: PipelineConfig)
        requires
            old(self).wf(),
        ensures
            final(self).wf(),
            final(self).spec_config().name_list@ == config.name_list@,
            final(self).spec_config().enable_filter_list == config.enable_filter_list,
    {
        self.config = config;
    }

    /// Pushes the current configuration down every stage of the chain,
    /// leaving the source, the dense ids and every cached tile intact.
    /// The signal list may have changed afterwards: the caller is
    /// expected to `reload`.
    pub fn reconfigure(&mut self) -> (r: Result<(), Error>)
        requires
            old(self).wf(),
        ensures
            r is Ok,
            final(self).wf(),
            Stage::spec_configured(
                old(self).spec_chain(),
                final(self).spec_chain(),
                *old(self).spec_config(),
            ),
            final(self).spec_num_signals() == old(self).spec_num_signals(),
            final(self).spec_num_cycles() == old(self).spec_num_cycles(),
            (forall|i: int, c: nat| final(self).spec_cell(i, c) == old(self).spec_cell(i, c)),
    {
        let ghost pipe0 = self.pipe.spec_pipe();
        let r = self.pipe.configure_pipeline(&self.config);
        proof {
            crate::pipeline::lemma_configured_source(pipe0, self.pipe.spec_pipe(), self.config);
            self.cache.lemma_coherent_same_cells(&old(self).pipe, &self.pipe);
        }
        r
    }

    /// Rebuilds the facade from the chain as currently configured: the
    /// signal list, id map and cache are all re-derived.
    pub fn reload(self) -> (r: Result<Wave, Error>)
        requires
            self.wf(),
        ensures
            (r is Ok <==> (self.spec_chain().source().spec_num_cycles() <= usize::MAX - 1024
                && self.spec_chain().spec_signals().len() <= usize::MAX - 128)),
            (r matches Ok(w) ==> {
                let sigs = self.spec_chain().spec_signals();
                &&& w.wf()
                &&& w.spec_chain() == self.spec_chain()
                &&& w.spec_num_signals() == sigs.len()
                &&& (forall|i: int|
                    0 <= i < sigs.len() ==> w.spec_name(i) == (#[trigger] sigs[i]).name
                        && w.spec_format(i) == sigs[i].format)
                &&& (forall|i: int, c: nat|
                    0 <= i < sigs.len() ==> #[trigger] w.spec_cell(i, c) == self.spec_chain(
                    ).source().spec_cell(sigs[i].id, c))
            }),
    {
        Wave::load_from_pipe(self.pipe, self.config)
    }

    /// Scans forward from `start_cycle` for the first cycle whose value
    /// differs from the value at `start_cycle`, fetching one bounded
    /// window at a time; reports nothing once the extent is exhausted.
    pub fn cached_next_transition(&mut self, signal_index: usize, start_cycle: usize) -> (r: Option<
        usize,
    >)
        requires
            old(self).wf(),
        ensures
            final(self).wf(),
            final(self).spec_num_signals() == old(self).spec_num_signals(),
            final(self).spec_num_cycles() == old(self).spec_num_cycles(),
            (forall|i: int, c: nat| final(self).spec_cell(i, c) == old(self).spec_cell(i, c)),
            (match r {
                Some(c) => {
                    &&& signal_index < old(self).spec_num_signals()
                    &&& start_cycle < c < old(self).spec_num_cycles()
                    &&& old(self).spec_cell(signal_index as int, c as nat) != old(self).spec_cell(
                        signal_index as int,
                        start_cycle as nat,
                    )
                    &&& (forall|x: int|
                        start_cycle < x < c ==> #[trigger] old(self).spec_cell(
                            signal_index as int,
                            x as nat,
                        ) == old(self).spec_cell(signal_index as int, start_cycle as nat))
                },
                None => signal_index < old(self).spec_num_signals() && start_cycle < old(self).spec_num_cycles() ==> (forall|x: int|
                    start_cycle < x < old(self).spec_num_cycles() ==> #[trigger] old(self).spec_cell(signal_index as int, x as nat) == old(self).spec_cell(
                        signal_index as int,
                        start_cycle as nat,
                    )),
            }),
    {
        if signal_index >= self.num_signals {
            return None;
        }
        let nc = self.pipe.query_cycle_count();
        if start_cycle >= nc {
            return None;
        }
        let base_col = self.cache.get(&self.pipe, signal_index, start_cycle..start_cycle + 1);
        let base = &base_col[0];
        let mut cur = start_cycle + 1;
        while cur < nc
            invariant
                self.wf(),
                self.spec_num_signals() == old(self).spec_num_signals(),
                self.spec_num_cycles() == old(self).spec_num_cycles(),
                (forall|i: int, c: nat| self.spec_cell(i, c) == old(self).spec_cell(i, c)),
                self.pipe == old(self).pipe,
                signal_index < self.spec_num_signals(),
                start_cycle < nc,
                nc == self.spec_num_cycles(),
                start_cycle < cur <= nc,
                base.wf(),
                base@ == old(self).spec_cell(signal_index as int, start_cycle as nat),
                forall|x: int|
                    start_cycle < x < cur ==> #[trigger] old(self).spec_cell(signal_index as int, x as nat)
                        == self.spec_cell(signal_index as int, start_cycle as nat),
            decreases nc - cur,
        {
            let hi = if nc - cur < SEARCH_HORIZON {
                nc
            } else {
                cur + SEARCH_HORIZON
            };
            let win = self.cache.get(&self.pipe, signal_index, cur..hi);
            proof {
                assert(forall|x: int|
                    start_cycle < x < cur ==> #[trigger] old(self).spec_cell(
                        signal_index as int,
                        x as nat,
                    ) == old(self).spec_cell(signal_index as int, start_cycle as nat));
            }
            let mut j: usize = 0;
            while j < hi - cur
                invariant
                    self.wf(),
                    self.spec_num_signals() == old(self).spec_num_signals(),
                    self.spec_num_cycles() == old(self).spec_num_cycles(),
                    (forall|i: int, c: nat| self.spec_cell(i, c) == old(self).spec_cell(i, c)),
                    self.pipe == old(self).pipe,
                    start_cycle < cur,
                    cur < hi <= nc,
                    nc == self.spec_num_cycles(),
                    j <= hi - cur,
                    win@.len() == hi - cur,
                    base.wf(),
                    base@ == old(self).spec_cell(signal_index as int, start_cycle as nat),
                    signal_index < self.spec_num_signals(),
                    forall|x: int| 0 <= x < win@.len() ==> (#[trigger] win@[x]).wf(),
                    forall|x: int|
                        0 <= x < win@.len() ==> (#[trigger] win@[x])@ == old(self).spec_cell(
                            signal_index as int,
                            (cur + x) as nat,
                        ),
                    forall|x: int|
                        0 <= x < j ==> (#[trigger] win@[x])@ == base@,
                    forall|x: int|
                        start_cycle < x < cur ==> #[trigger] old(self).spec_cell(
                            signal_index as int,
                            x as nat,
                        ) == old(self).spec_cell(signal_index as int, start_cycle as nat),
                decreases hi - cur - j,
            {
                if !win[j].eq_value(base) {
                    proof {
                        assert(win@[j as int]@ == old(self).spec_cell(
                            signal_index as int,
                            (cur + j) as nat,
                        ));
                        assert forall|x: int|
                            start_cycle < x < cur + j implies #[trigger] old(self).spec_cell(
                            signal_index as int,
                            x as nat,
                        ) == old(self).spec_cell(signal_index as int, start_cycle as nat) by {
                            if x >= cur {
                                assert(win@[x - cur]@ == base@);
                                assert(win@[x - cur]@ == old(self).spec_cell(
                                    signal_index as int,
                                    (cur + (x - cur)) as nat,
                                ));
                            }
                        }
                    }
                    return Some(cur + j);
                }
                j = j + 1;
            }
            proof {
                assert forall|x: int|
                    start_cycle < x < hi implies #[trigger] old(self).spec_cell(
                    signal_index as int,
                    x as nat,
                ) == old(self).spec_cell(signal_index as int, start_cycle as nat) by {
                    if x >= cur {
                        assert(win@[x - cur]@ == base@);
                        assert(win@[x - cur]@ == old(self).spec_cell(
                            signal_index as int,
                            (cur + (x - cur)) as nat,
                        ));
                    }
                }
            }
            cur = hi;
        }
        None
    }

    /// Scans backward from `start_cycle` for the nearest earlier cycle
    /// whose value differs from the value at `start_cycle`.
    pub fn cached_prev_transition(&mut self, signal_index: usize, start_cycle: usize) -> (r: Option<
        usize,
    >)
        requires
            old(self).wf(),
        ensures
            final(self).wf(),
            final(self).spec_num_signals() == old(self).spec_num_signals(),
            final(self).spec_num_cycles() == old(self).spec_num_cycles(),
            (forall|i: int, c: nat| final(self).spec_cell(i, c) == old(self).spec_cell(i, c)),
            (match r {
                Some(c) => {
                    &&& signal_index < old(self).spec_num_signals()
                    &&& start_cycle < old(self).spec_num_cycles()
                    &&& c < start_cycle
                    &&& old(self).spec_cell(signal_index as int, c as nat) != old(self).spec_cell(
                        signal_index as int,
                        start_cycle as nat,
                    )
                    &&& (forall|x: int|
                        c < x < start_cycle ==> #[trigger] old(self).spec_cell(
                            signal_index as int,
                            x as nat,
                        ) == old(self).spec_cell(signal_index as int, start_cycle as nat))
                },
                None => signal_index < old(self).spec_num_signals() && start_cycle < old(self).spec_num_cycles() ==> (forall|x: int|
                    0 <= x < start_cycle ==> #[trigger] old(self).spec_cell(
                        signal_index as int,
                        x as nat,
                    ) == old(self).spec_cell(signal_index as int, start_cycle as nat)),
            }),
    {
        if signal_index >= self.num_signals {
            return None;
        }
        let nc = self.pipe.query_cycle_count();
        if start_cycle >= nc {
            return None;
        }
        let base_col = self.cache.get(&self.pipe, signal_index, start_cycle..start_cycle + 1);
        let base = &base_col[0];
        let mut cur = start_cycle;
        while cur > 0
            invariant
                self.wf(),
                self.spec_num_signals() == old(self).spec_num_signals(),
                self.spec_num_cycles() == old(self).spec_num_cycles(),
                (forall|i: int, c: nat| self.spec_cell(i, c) == old(self).spec_cell(i, c)),
                self.pipe == old(self).pipe,
                signal_index < self.spec_num_signals(),
                start_cycle < nc,
                nc == self.spec_num_cycles(),
                cur <= start_cycle,
                base.wf(),
                base@ == old(self).spec_cell(signal_index as int, start_cycle as nat),
                forall|x: int|
                    cur <= x < start_cycle ==> #[trigger] old(self).spec_cell(
                        signal_index as int,
                        x as nat,
                    ) == old(self).spec_cell(signal_index as int, start_cycle as nat),
            decreases cur,
        {
            let lo = if cur < SEARCH_HORIZON {
                0
            } else {
                cur - SEARCH_HORIZON
            };
            let win = self.cache.get(&self.pipe, signal_index, lo..cur);
            proof {
                assert(forall|x: int|
                    cur <= x < start_cycle ==> #[trigger] old(self).spec_cell(
                        signal_index as int,
                        x as nat,
                    ) == old(self).spec_cell(signal_index as int, start_cycle as nat));
            }
            let mut j = cur - lo;
            while j > 0
                invariant
                    self.wf(),
                    self.spec_num_signals() == old(self).spec_num_signals(),
                    self.spec_num_cycles() == old(self).spec_num_cycles(),
                    (forall|i: int, c: nat| self.spec_cell(i, c) == old(self).spec_cell(i, c)),
                    self.pipe == old(self).pipe,
                    lo <= cur <= start_cycle,
                    start_cycle < nc,
                    nc == self.spec_num_cycles(),
                    j <= cur - lo,
                    win@.len() == cur - lo,
                    base.wf(),
                    base@ == old(self).spec_cell(signal_index as int, start_cycle as nat),
                    signal_index < self.spec_num_signals(),
                    forall|x: int| 0 <= x < win@.len() ==> (#[trigger] win@[x]).wf(),
                    forall|x: int|
                        0 <= x < win@.len() ==> (#[trigger] win@[x])@ == old(self).spec_cell(
                            signal_index as int,
                            (lo + x) as nat,
                        ),
                    forall|x: int|
                        j <= x < win@.len() ==> (#[trigger] win@[x])@ == base@,
                    forall|x: int|
                        cur <= x < start_cycle ==> #[trigger] old(self).spec_cell(
                            signal_index as int,
                            x as nat,
                        ) == old(self).spec_cell(signal_index as int, start_cycle as nat),
                decreases j,
            {
                j = j - 1;
                if !win[j].eq_value(base) {
                    proof {
                        assert(win@[j as int]@ == old(self).spec_cell(
                            signal_index as int,
                            (lo + j) as nat,
                        ));
                        assert forall|x: int|
                            lo + j < x < start_cycle implies #[trigger] old(self).spec_cell(
                            signal_index as int,
                            x as nat,
                        ) == old(self).spec_cell(signal_index as int, start_cycle as nat) by {
                            if x < cur {
                                assert(win@[x - lo]@ == base@);
                                assert(win@[x - lo]@ == old(self).spec_cell(
                                    signal_index as int,
                                    (lo + (x - lo)) as nat,
                                ));
                            }
                        }
                    }
                    return Some(lo + j);
                }
            }
            proof {
                assert forall|x: int|
                    lo <= x < start_cycle implies #[trigger] old(self).spec_cell(
                    signal_index as int,
                    x as nat,
                ) == old(self).spec_cell(signal_index as int, start_cycle as nat) by {
                    if x < cur {
                        assert(win@[x - lo]@ == base@);
                        assert(win@[x - lo]@ == old(self).spec_cell(
                            signal_index as int,
                            (lo + (x - lo)) as nat,
                        ));
                    }
                }
            }
            cur = lo;
        }
        None
    }
}

/// Owns the data of a collection of signals over an interval of cycles,
/// together with copies of the name and format tables; indices into a
/// slice are the same absolute dense ids and cycle numbers the facade
/// uses.
pub struct WaveSlice {
    data: CycleValues,
    names: Vec<String>,
    formatters: Vec<WaveFormat>,
    ids_start: usize,
    ids_end: usize,
    cycles_start: usize,
    cycles_end: usize,
}

impl WaveSlice {
    pub closed spec fn wf(&self) -> bool {
        &&& self.data.wf()
        &&& self.ids_start <= self.ids_end
        &&& self.cycles_start <= self.cycles_end
        &&& self.data.spec_rows() == self.cycles_end - self.cycles_start
        &&& self.data.spec_cols() == self.ids_end - self.ids_start
        &&& self.names@.len() == self.formatters@.len()
        &&& self.ids_end <= self.names@.len()
    }

    pub closed spec fn spec_num_names(&self) -> int {
        self.names@.len() as int
    }

    pub closed spec fn spec_ids_start(&self) -> int {
        self.ids_start as int
    }

    pub closed spec fn spec_ids_end(&self) -> int {
        self.ids_end as int
    }

    pub closed spec fn spec_cycles_start(&self) -> int {
        self.cycles_start as int
    }

    pub closed spec fn spec_cycles_end(&self) -> int {
        self.cycles_end as int
    }

    /// The stored value for an absolute signal id and cycle.
    pub closed spec fn spec_value(&self, i: int, c: int) -> nat {
        self.data.entry(c - self.spec_cycles_start(), i - self.spec_ids_start())
    }

    pub closed spec fn spec_format(&self, i: int) -> WaveFormat {
        self.formatters@[i]
    }

    pub closed spec fn spec_name(&self, i: int) -> Seq<char> {
        self.names@[i]@
    }

    /// The values of one signal across the slice's cycles, in cycle
    /// order.
    pub fn signal_iter(&self, i: usize) -> (r: Result<Vec<SampleValue>, Error>)
        requires
            self.wf(),
        ensures
            (match r {
                Ok(v) => {
                    &&& self.spec_ids_start() <= i < self.spec_ids_end()
                    &&& v@.len() == self.spec_cycles_end() - self.spec_cycles_start()
                    &&& (forall|x: int|
                        0 <= x < v@.len() ==> (#[trigger] v@[x]).wf() && v@[x]@ == self.spec_value(
                            i as int,
                            self.spec_cycles_start() + x,
                        ))
                },
                Err(_) => !(self.spec_ids_start() <= i < self.spec_ids_end()),
            }),
    {
        if i < self.ids_start || i >= self.ids_end {
            return Err(Error::IdOutOfRange(i, self.ids_start, self.ids_end));
        }
        let height = self.cycles_end - self.cycles_start;
        let col = i - self.ids_start;
        let mut out: Vec<SampleValue> = Vec::new();
        let mut r2: usize = 0;
        while r2 < height
            invariant
                self.wf(),
                self.spec_ids_start() <= i < self.spec_ids_end(),
                col == i - self.ids_start,
                height == self.spec_cycles_end() - self.spec_cycles_start(),
                r2 <= height,
                out@.len() == r2,
                forall|x: int|
                    0 <= x < r2 ==> (#[trigger] out@[x]).wf() && out@[x]@ == self.spec_value(
                        i as int,
                        self.spec_cycles_start() + x,
                    ),
            decreases height - r2,
        {
            out.push(self.data.get(r2, col).dup());
            r2 = r2 + 1;
        }
        Ok(out)
    }

    pub fn formatter(&self, signal_index: usize) -> (r: WaveFormat)
        requires
            self.wf(),
            signal_index < self.spec_ids_end(),
        ensures
            r == self.spec_format(signal_index as int),
    {
        self.formatters[signal_index]
    }

    pub fn name(&self, signal_index: usize) -> (r: Option<&str>)
        requires
            self.wf(),
        ensures
            (match r {
                Some(s) => signal_index < self.spec_num_names() && s@ == self.spec_name(
                    signal_index as int,
                ),
                None => signal_index >= self.spec_num_names(),
            }),
    {
        if signal_index < self.names.len() {
            Some(self.names[signal_index].as_str())
        } else {
            None
        }
    }

    /// The stored value of one cell, by absolute id and cycle.
    pub fn value(&self, signal_index: usize, cycle: usize) -> (r: Option<SampleValue>)
        requires
            self.wf(),
        ensures
            (match r {
                Some(v) => {
                    &&& self.spec_ids_start() <= signal_index < self.spec_ids_end()
                    &&& self.spec_cycles_start() <= cycle < self.spec_cycles_end()
                    &&& v.wf()
                    &&& v@ == self.spec_value(signal_index as int, cycle as int)
                },
                None => !(self.spec_ids_start() <= signal_index < self.spec_ids_end()
                    && self.spec_cycles_start() <= cycle < self.spec_cycles_end()),
            }),
    {
        if signal_index < self.ids_start || signal_index >= self.ids_end || cycle
            < self.cycles_start || cycle >= self.cycles_end {
            return None;
        }
        Some(self.data.get(cycle - self.cycles_start, signal_index - self.ids_start).dup())
    }

    /// The stored value of one cell rendered under the signal's format.
    pub fn formatted_value(&self, signal_index: usize, cycle: usize) -> (r: Option<String>)
        requires
            self.wf(),
            signal_index < self.spec_num_names(),
        ensures
            (r is Some <==> (self.spec_ids_start() <= signal_index < self.spec_ids_end()
                && self.spec_cycles_start() <= cycle < self.spec_cycles_end())),
            (r matches Some(s) ==> exists|bits: Seq<bool>|
                canonical_bits(bits) && bits_value(bits) == self.spec_value(
                    signal_index as int,
                    cycle as int,
                ) && s@ == spec_format_value(bits, self.spec_format(signal_index as int))),
    {
        let v = match self.value(signal_index, cycle) {
            Some(v) => v,
            None => {
                return None;
            },
        };
        let s = format_value(&v, self.formatters[signal_index]);
        proof {
            v.lemma_bits();
            let bits = v.spec_bits();
            assert(canonical_bits(bits) && bits_value(bits) == self.spec_value(
                signal_index as int,
                cycle as int,
            ) && s@ == spec_format_value(bits, self.spec_format(signal_index as int)));
        }
        Some(s)
    }

    /// First cycle at or after `start_cycle`, inside the slice, whose
    /// value differs from the value at `start_cycle`.
    pub fn next_transition(&self, signal_index: usize, start_cycle: usize) -> (r: Option<usize>)
        requires
            self.wf(),
        ensures
            (match r {
                Some(c) => {
                    &&& self.spec_ids_start() <= signal_index < self.spec_ids_end()
                    &&& self.spec_cycles_start() <= start_cycle < self.spec_cycles_end()
                    &&& start_cycle < c < self.spec_cycles_end()
                    &&& self.spec_value(signal_index as int, c as int) != self.spec_value(
                        signal_index as int,
                        start_cycle as int,
                    )
                    &&& (forall|x: int|
                        start_cycle < x < c ==> #[trigger] self.spec_value(signal_index as int, x)
                            == self.spec_value(signal_index as int, start_cycle as int))
                },
                None => (self.spec_ids_start() <= signal_index < self.spec_ids_end()
                    && self.spec_cycles_start() <= start_cycle < self.spec_cycles_end()) ==> (
                forall|x: int|
                    start_cycle < x < self.spec_cycles_end() ==> #[trigger] self.spec_value(
                        signal_index as int,
                        x,
                    ) == self.spec_value(signal_index as int, start_cycle as int)),
            }),
    {
        if signal_index < self.ids_start || signal_index >= self.ids_end || start_cycle
            < self.cycles_start || start_cycle >= self.cycles_end {
            return None;
        }
        let col = signal_index - self.ids_start;
        let base_row = start_cycle - self.cycles_start;
        let height = self.cycles_end - self.cycles_start;
        let mut row = base_row + 1;
        while row < height
            invariant
                self.wf(),
                self.spec_ids_start() <= signal_index < self.spec_ids_end(),
                self.spec_cycles_start() <= start_cycle < self.spec_cycles_end(),
                col == signal_index - self.ids_start,
                base_row == start_cycle - self.cycles_start,
                height == self.spec_cycles_end() - self.spec_cycles_start(),
                base_row < row <= height,
                forall|x: int|
                    base_row < x < row ==> self.data.entry(x, col as int) == self.data.entry(
                        base_row as int,
                        col as int,
                    ),
            decreases height - row,
        {
            let cur = self.data.get(base_row, col);
            let v = self.data.get(row, col);
            if !v.eq_value(cur) {
                return Some(self.cycles_start + row);
            }
            row = row + 1;
        }
        None
    }

    /// Nearest cycle before `start_cycle`, inside the slice, whose value
    /// differs from the value at `start_cycle`.
    pub fn prev_transition(&self, signal_index: usize, start_cycle: usize) -> (r: Option<usize>)
        requires
            self.wf(),
        ensures
            (match r {
                Some(c) => {
                    &&& self.spec_ids_start() <= signal_index < self.spec_ids_end()
                    &&& self.spec_cycles_start() <= start_cycle < self.spec_cycles_end()
                    &&& self.spec_cycles_start() <= c < start_cycle
                    &&& self.spec_value(signal_index as int, c as int) != self.spec_value(
                        signal_index as int,
                        start_cycle as int,
                    )
                    &&& (forall|x: int|
                        c < x < start_cycle ==> #[trigger] self.spec_value(signal_index as int, x)
                            == self.spec_value(signal_index as int, start_cycle as int))
                },
                None => (self.spec_ids_start() <= signal_index < self.spec_ids_end()
                    && self.spec_cycles_start() <= start_cycle < self.spec_cycles_end()) ==> (
                forall|x: int|
                    self.spec_cycles_start() <= x < start_cycle ==> #[trigger] self.spec_value(
                        signal_index as int,
                        x,
                    ) == self.spec_value(signal_index as int, start_cycle as int)),
            }),
    {
        if signal_index < self.ids_start || signal_index >= self.ids_end || start_cycle
            < self.cycles_start || start_cycle >= self.cycles_end {
            return None;
        }
        let col = signal_index - self.ids_start;
        let base_row = start_cycle - self.cycles_start;
        let mut row = base_row;
        while row > 0
            invariant
                self.wf(),
                self.spec_ids_start() <= signal_index < self.spec_ids_end(),
                self.spec_cycles_start() <= start_cycle < self.spec_cycles_end(),
                col == signal_index - self.ids_start,
                base_row == start_cycle - self.cycles_start,
                row <= base_row,
                forall|x: int|
                    row <= x < base_row ==> self.data.entry(x, col as int) == self.data.entry(
                        base_row as int,
                        col as int,
                    ),
            decreases row,
        {
            row = row - 1;
            let cur = self.data.get(base_row, col);
            let v = self.data.get(row, col);
            if !v.eq_value(cur) {
                return Some(self.cycles_start + row);
            }
        }
        None
    }
}

} // verus!
