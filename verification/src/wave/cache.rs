use vstd::prelude::*;

use crate::data::CycleValues;
use crate::simtime::SimTimeRange;
use crate::value::SampleValue;
use crate::wave::pipeline_cid::{lemma_map_ids_total, map_ids, PipelineCId};

verus! {

#[verifier::external_type_specification]
#[verifier::external_body]
#[verifier::reject_recursive_types(K)]
#[verifier::reject_recursive_types(V)]
#[verifier::reject_recursive_types(S)]
pub struct ExLruCache<K, V, S>(lru::LruCache<K, V, S>);

/// The resident tile keys of the backing store, most recently used
/// first; eviction takes the last entry.
pub uninterp spec fn lru_seq(c: lru::LruCache<(u64, u64), (), std::collections::hash_map::RandomState>) -> Seq<(u64, u64)>;

/// The fixed capacity the backing store was created with.
pub uninterp spec fn lru_cap(c: lru::LruCache<(u64, u64), (), std::collections::hash_map::RandomState>) -> nat;

/// Relies on `lru::LruCache::new`: a fresh cache is empty and keeps the
/// given capacity.
#[verifier::external_body]
fn lru_new(cap: usize) -> (r: lru::LruCache<(u64, u64), (), std::collections::hash_map::RandomState>)
    requires
        cap >= 1,
    ensures
        lru_seq(r) == Seq::<(u64, u64)>::empty(),
        lru_cap(r) == cap,
{
    lru::LruCache::with_hasher(
        std::num::NonZeroUsize::new(cap).unwrap(),
        std::collections::hash_map::RandomState::new(),
    )
}

/// Relies on `lru::LruCache::get`: a hit moves the entry to the
/// most-recent position; a miss changes nothing.
#[verifier::external_body]
fn lru_get(c: &mut lru::LruCache<(u64, u64), (), std::collections::hash_map::RandomState>, k: (u64, u64)) -> (r: bool)
    ensures
        lru_cap(*final(c)) == lru_cap(*old(c)),
        r == lru_seq(*old(c)).contains(k),
        r ==> lru_seq(*final(c)) == seq![k] + lru_seq(*old(c)).remove_value(k),
        !r ==> lru_seq(*final(c)) == lru_seq(*old(c)),
{
    c.get(&k).is_some()
}

/// Relies on `lru::LruCache::push`: pushing refreshes an existing key;
/// otherwise it inserts at the most-recent position, evicting the least
/// recently used entry exactly when the cache is at capacity, and
/// reports the replaced or evicted key.
#[verifier::external_body]
fn lru_push(c: &mut lru::LruCache<(u64, u64), (), std::collections::hash_map::RandomState>, k: (u64, u64)) -> (r: Option<(u64, u64)>)
    ensures
        lru_cap(*final(c)) == lru_cap(*old(c)),
        lru_seq(*old(c)).contains(k) ==> lru_seq(*final(c)) == seq![k] + lru_seq(
            *old(c),
        ).remove_value(k) && r == Some(k),
        !lru_seq(*old(c)).contains(k) && lru_seq(*old(c)).len() < lru_cap(*old(c)) ==> lru_seq(
            *final(c),
        ) == seq![k] + lru_seq(*old(c)) && r is None,
        !lru_seq(*old(c)).contains(k) && lru_seq(*old(c)).len() == lru_cap(*old(c)) ==> lru_seq(
            *final(c),
        ) == seq![k] + lru_seq(*old(c)).drop_last() && r == Some(lru_seq(*old(c)).last()),
{
    c.push(k, ()).map(|p| p.0)
}

/// A tiled sampling cache over the dense (signal, cycle) plane.
///
/// The plane is cut into tiles of `signals_per_tile` x `cycles_per_tile`
/// cells, keyed by tile coordinates; a fixed number of decoded tiles is
/// kept under strict least-recently-used eviction. Tiles are created
/// lazily on miss, clamped to the data extent, immutable once built and
/// evicted whole.
pub struct Cache {
    cache: lru::LruCache<(u64, u64), (), std::collections::hash_map::RandomState>,
    tiles: Vec<((u64, u64), CycleValues)>,
    signals_per_tile: usize,
    cycles_per_tile: usize,
    num_signals: usize,
    num_cycles: usize,
}

impl Cache {
    pub closed spec fn spec_lru(&self) -> Seq<(u64, u64)> {
        lru_seq(self.cache)
    }

    pub closed spec fn spec_capacity(&self) -> nat {
        lru_cap(self.cache)
    }

    pub closed spec fn spec_tile_keys(&self) -> Seq<(u64, u64)> {
        self.tiles@.map_values(|t: ((u64, u64), CycleValues)| t.0)
    }

    pub closed spec fn spec_signals_per_tile(&self) -> int {
        self.signals_per_tile as int
    }

    pub closed spec fn spec_cycles_per_tile(&self) -> int {
        self.cycles_per_tile as int
    }

    pub closed spec fn spec_num_signals(&self) -> int {
        self.num_signals as int
    }

    pub closed spec fn spec_num_cycles(&self) -> int {
        self.num_cycles as int
    }

    /// Rows of the tile at vertical index `ty`, clamped to the extent.
    pub open spec fn tile_rows(&self, ty: int) -> int {
        if (ty + 1) * self.spec_cycles_per_tile() <= self.spec_num_cycles() {
            self.spec_cycles_per_tile()
        } else {
            self.spec_num_cycles() - ty * self.spec_cycles_per_tile()
        }
    }

    /// Columns of the tile at horizontal index `tx`, clamped to the
    /// extent.
    pub open spec fn tile_cols(&self, tx: int) -> int {
        if (tx + 1) * self.spec_signals_per_tile() <= self.spec_num_signals() {
            self.spec_signals_per_tile()
        } else {
            self.spec_num_signals() - tx * self.spec_signals_per_tile()
        }
    }

    /// A resident tile holds exactly the pipe's values for its clamped
    /// footprint.
    pub open spec fn tile_ok(&self, p: &PipelineCId, k: (u64, u64), data: CycleValues) -> bool {
        let tx = k.0 as int;
        let ty = k.1 as int;
        &&& data.wf()
        &&& data.spec_rows() == self.tile_rows(ty)
        &&& data.spec_cols() == self.tile_cols(tx)
        &&& (forall|r: int, c: int|
            0 <= r < data.spec_rows() && 0 <= c < data.spec_cols() ==> #[trigger] data.entry(r, c)
                == p.spec_cell(
                tx * self.spec_signals_per_tile() + c,
                (ty * self.spec_cycles_per_tile() + r) as nat,
            ))
    }

    /// Internal consistency: a positive clamped geometry whose products
    /// fit the machine, and a tile store that mirrors the recency list:
    /// same count, distinct keys, every stored key resident and every
    /// resident key stored.
    pub open spec fn wf(&self) -> bool {
        &&& self.spec_signals_per_tile() >= 1
        &&& self.spec_cycles_per_tile() >= 1
        &&& self.spec_capacity() >= 1
        &&& self.spec_signals_per_tile() * self.spec_cycles_per_tile() <= usize::MAX
        &&& self.spec_num_cycles() + self.spec_cycles_per_tile() <= usize::MAX
        &&& self.spec_num_signals() + self.spec_signals_per_tile() <= usize::MAX
        &&& self.spec_lru().len() <= self.spec_capacity()
        &&& (forall|a: int, b: int|
            0 <= a < b < self.spec_lru().len() ==> #[trigger] self.spec_lru()[a]
                != #[trigger] self.spec_lru()[b])
        &&& self.spec_tile_keys().len() == self.spec_lru().len()
        &&& (forall|j: int|
            0 <= j < self.spec_lru().len() ==> self.spec_tile_keys().contains(
                #[trigger] self.spec_lru()[j],
            ))
    }

    /// Every resident tile agrees with the pipe it caches for.
    pub closed spec fn coherent(&self, p: &PipelineCId) -> bool {
        forall|i: int|
            0 <= i < self.tiles@.len() ==> self.tile_ok(
                p,
                (#[trigger] self.tiles@[i]).0,
                self.tiles@[i].1,
            )
    }

    /// The cache's extent equals the pipe's.
    pub open spec fn matches_pipe(&self, p: &PipelineCId) -> bool {
        &&& self.spec_num_signals() == p.spec_idmap().len()
        &&& self.spec_num_cycles() == p.spec_pipe().source().spec_num_cycles()
    }

    /// An empty cache for the given tile geometry, extent and tile
    /// budget.
    pub fn new(
        capacity: usize,
        signals_per_tile: usize,
        cycles_per_tile: usize,
        num_signals: usize,
        num_cycles: usize,
    ) -> (r: Cache)
        requires
            capacity >= 1,
            signals_per_tile >= 1,
            cycles_per_tile >= 1,
            signals_per_tile * cycles_per_tile <= usize::MAX,
            num_cycles + cycles_per_tile <= usize::MAX,
            num_signals + signals_per_tile <= usize::MAX,
        ensures
            r.wf(),
            r.spec_capacity() == capacity,
            r.spec_signals_per_tile() == signals_per_tile,
            r.spec_cycles_per_tile() == cycles_per_tile,
            r.spec_num_signals() == num_signals,
            r.spec_num_cycles() == num_cycles,
            r.spec_lru().len() == 0,
            forall|p: &PipelineCId| r.coherent(p),
    {
        Cache {
            cache: lru_new(capacity),
            tiles: Vec::new(),
            signals_per_tile,
            cycles_per_tile,
            num_signals,
            num_cycles,
        }
    }

    /// Decodes one tile's full clamped footprint from the pipe.
    fn load_tile(&self, pipe: &PipelineCId, tx: usize, ty: usize) -> (data: CycleValues)
        requires
            self.wf(),
            pipe.wf(),
            self.matches_pipe(pipe),
            tx * self.spec_signals_per_tile() < self.spec_num_signals(),
            ty * self.spec_cycles_per_tile() < self.spec_num_cycles(),
        ensures
            self.tile_ok(pipe, (tx as u64, ty as u64), data),
    {
        let start_cycle: usize = ty * self.cycles_per_tile;
        let end_cycle: usize = if start_cycle + self.cycles_per_tile <= self.num_cycles {
            start_cycle + self.cycles_per_tile
        } else {
            self.num_cycles
        };
        let a = pipe.query_time(start_cycle);
        let b = pipe.query_time(end_cycle);
        let start_id: usize = tx * self.signals_per_tile;
        let end_id: usize = if start_id + self.signals_per_tile <= self.num_signals {
            start_id + self.signals_per_tile
        } else {
            self.num_signals
        };
        let mut ids: Vec<usize> = Vec::new();
        let mut i: usize = start_id;
        while i < end_id
            invariant
                start_id <= i <= end_id,
                ids@.len() == i - start_id,
                forall|j: int| 0 <= j < ids@.len() ==> #[trigger] ids@[j] == start_id + j,
            decreases end_id - i,
        {
            ids.push(i);
            i = i + 1;
        }
        let times = SimTimeRange(a, b);
        proof {
            self.lemma_sample_window(pipe, ids@, start_cycle as int, end_cycle as int);
        }
        let m = match pipe.sample(&ids, &times) {
            Ok(m) => m,
            Err(_) => {
                proof {
                    assert(false);
                }
                CycleValues::new_zero(0, 0)
            },
        };
        proof {
            self.lemma_tile_data(pipe, ids@, start_cycle as int, end_cycle as int, m, tx as int, ty as int);
        }
        m
    }

    /// The sampling preconditions hold for one tile's footprint.
    proof fn lemma_sample_window(
        &self,
        pipe: &PipelineCId,
        ids: Seq<usize>,
        start_cycle: int,
        end_cycle: int,
    )
        requires
            self.wf(),
            pipe.wf(),
            self.matches_pipe(pipe),
            0 <= start_cycle <= end_cycle <= self.spec_num_cycles(),
            end_cycle - start_cycle <= self.spec_cycles_per_tile(),
            ids.len() <= self.spec_signals_per_tile(),
            forall|j: int| 0 <= j < ids.len() ==> (#[trigger] ids[j]) < self.spec_num_signals(),
        ensures
            pipe.spec_pipe().source().sample_pre(
                map_ids(pipe.spec_idmap(), ids),
                SimTimeRange(
                    pipe.spec_pipe().source().spec_time(start_cycle as nat),
                    pipe.spec_pipe().source().spec_time(end_cycle as nat),
                ),
            ),
            map_ids(pipe.spec_idmap(), ids).len() == ids.len(),
            forall|j: int|
                0 <= j < ids.len() ==> #[trigger] map_ids(pipe.spec_idmap(), ids)[j]
                    == pipe.spec_idmap()[ids[j] as int],
    {
        lemma_map_ids_total(pipe.spec_idmap(), ids);
        crate::pipeline::lemma_source_wf(pipe.spec_pipe());
        let src = pipe.spec_pipe().source();
        match src {
            crate::pipeline::SourceKind::Vcd(l) => {
                let ct = l.spec_cycle_time();
                assert(l.wf());
                l.lemma_wf_cycle_time();
                crate::load::vcd::lemma_fs_positive(ct);
                assert(ct.value > 0);
                l.lemma_wf_scale_bound_pub(start_cycle as usize);
                l.lemma_wf_scale_bound_pub(end_cycle as usize);
                crate::load::vcd::lemma_scale_div(ct, start_cycle as u64);
                crate::load::vcd::lemma_scale_div(ct, end_cycle as u64);
                vstd::arithmetic::mul::lemma_mul_inequality(
                    start_cycle,
                    end_cycle,
                    ct.value as int,
                );
                vstd::arithmetic::mul::lemma_mul_is_commutative(start_cycle, ct.value as int);
                vstd::arithmetic::mul::lemma_mul_is_commutative(end_cycle, ct.value as int);
                assert(src.spec_time(start_cycle as nat).fs() <= src.spec_time(
                    end_cycle as nat,
                ).fs()) by {
                    vstd::arithmetic::mul::lemma_mul_inequality(
                        ct.spec_scale(start_cycle as u64).value as int,
                        ct.spec_scale(end_cycle as u64).value as int,
                        crate::simtime::unit_multiplier(ct.unit) as int,
                    );
                    vstd::arithmetic::mul::lemma_mul_is_commutative(
                        ct.spec_scale(start_cycle as u64).value as int,
                        crate::simtime::unit_multiplier(ct.unit) as int,
                    );
                    vstd::arithmetic::mul::lemma_mul_is_commutative(
                        ct.spec_scale(end_cycle as u64).value as int,
                        crate::simtime::unit_multiplier(ct.unit) as int,
                    );
                };
                assert((end_cycle - start_cycle) * map_ids(pipe.spec_idmap(), ids).len()
                    <= self.spec_cycles_per_tile() * self.spec_signals_per_tile()) by (nonlinear_arith)
                    requires
                        0 <= end_cycle - start_cycle <= self.spec_cycles_per_tile(),
                        map_ids(pipe.spec_idmap(), ids).len() <= self.spec_signals_per_tile(),
                        self.spec_cycles_per_tile() >= 1,
                        self.spec_signals_per_tile() >= 1,
                ;
            },
            crate::pipeline::SourceKind::Empty(_) => {
            },
        }
    }

    /// What the sampled footprint says about each tile cell.
    proof fn lemma_tile_data(
        &self,
        pipe: &PipelineCId,
        ids: Seq<usize>,
        start_cycle: int,
        end_cycle: int,
        m: CycleValues,
        tx: int,
        ty: int,
    )
        requires
            self.wf(),
            pipe.wf(),
            self.matches_pipe(pipe),
            0 <= start_cycle <= end_cycle <= self.spec_num_cycles(),
            start_cycle == ty * self.spec_cycles_per_tile(),
            end_cycle == (if start_cycle + self.spec_cycles_per_tile() <= self.spec_num_cycles() {
                start_cycle + self.spec_cycles_per_tile()
            } else {
                self.spec_num_cycles()
            }),
            0 <= tx <= u64::MAX,
            0 <= ty <= u64::MAX,
            start_cycle < self.spec_num_cycles(),
            tx * self.spec_signals_per_tile() < self.spec_num_signals(),
            ids.len() == (if tx * self.spec_signals_per_tile() + self.spec_signals_per_tile()
                <= self.spec_num_signals() {
                self.spec_signals_per_tile()
            } else {
                self.spec_num_signals() - tx * self.spec_signals_per_tile()
            }),
            forall|j: int|
                0 <= j < ids.len() ==> #[trigger] ids[j] == tx * self.spec_signals_per_tile() + j,
            pipe.spec_pipe().source().sample_post(
                map_ids(pipe.spec_idmap(), ids),
                SimTimeRange(
                    pipe.spec_pipe().source().spec_time(start_cycle as nat),
                    pipe.spec_pipe().source().spec_time(end_cycle as nat),
                ),
                m,
            ),
            map_ids(pipe.spec_idmap(), ids).len() == ids.len(),
            forall|j: int|
                0 <= j < ids.len() ==> #[trigger] map_ids(pipe.spec_idmap(), ids)[j]
                    == pipe.spec_idmap()[ids[j] as int],
        ensures
            self.tile_ok(pipe, (tx as u64, ty as u64), m),
    {
        crate::pipeline::lemma_source_wf(pipe.spec_pipe());
        let src = pipe.spec_pipe().source();
        let spt = self.spec_signals_per_tile();
        let cpt = self.spec_cycles_per_tile();
        let mapped = map_ids(pipe.spec_idmap(), ids);
        match src {
            crate::pipeline::SourceKind::Vcd(l) => {
                let ct = l.spec_cycle_time();
                assert(l.wf());
                l.lemma_wf_cycle_time();
                crate::load::vcd::lemma_fs_positive(ct);
                assert(ct.value > 0);
                l.lemma_wf_scale_bound_pub(start_cycle as usize);
                l.lemma_wf_scale_bound_pub(end_cycle as usize);
                crate::load::vcd::lemma_scale_div(ct, start_cycle as u64);
                crate::load::vcd::lemma_scale_div(ct, end_cycle as u64);
                assert((ty + 1) * cpt == ty * cpt + cpt) by (nonlinear_arith);
                assert((tx + 1) * spt == tx * spt + spt) by (nonlinear_arith);
                assert(m.spec_rows() == self.tile_rows(ty));
                assert(m.spec_cols() == self.tile_cols(tx));
                assert forall|r: int, c: int|
                    0 <= r < m.spec_rows() && 0 <= c < m.spec_cols() implies #[trigger] m.entry(
                    r,
                    c,
                ) == pipe.spec_cell(tx * spt + c, (ty * cpt + r) as nat) by {
                    assert(m.entry(r, c) == src.spec_cell(
                        mapped[c] as int,
                        (start_cycle + r) as nat,
                    ));
                    assert(mapped[c] == pipe.spec_idmap()[ids[c] as int]);
                    assert(ids[c] == tx * spt + c);
                }
            },
            crate::pipeline::SourceKind::Empty(_) => {
                assert(src.spec_num_cycles() == 0);
                assert(false);
            },
        }
    }
}


impl Cache {
    /// Index of a resident tile by key.
    fn find_tile(&self, k: (u64, u64)) -> (t: usize)
        requires
            self.spec_tile_keys().contains(k),
        ensures
            t < self.spec_tile_keys().len(),
            self.spec_tile_keys()[t as int] == k,
    {
        let n = self.tiles.len();
        let mut i: usize = 0;
        while i < n
            invariant
                i <= n,
                n == self.tiles@.len(),
                self.spec_tile_keys().contains(k),
                forall|j: int| 0 <= j < i ==> self.spec_tile_keys()[j] != k,
            decreases n - i,
        {
            let t = &self.tiles[i];
            if t.0.0 == k.0 && t.0.1 == k.1 {
                proof {
                    assert(self.spec_tile_keys()[i as int] == self.tiles@[i as int].0);
                }
                return i;
            }
            proof {
                assert(self.spec_tile_keys()[i as int] == self.tiles@[i as int].0);
            }
            i = i + 1;
        }
        proof {
            let w = choose|j: int|
                0 <= j < self.spec_tile_keys().len() && self.spec_tile_keys()[j] == k;
            assert(false);
        }
        0
    }

    /// Makes the tile at the given coordinates resident and returns its
    /// position in the tile store.
    ///
    /// A resident tile is only refreshed to the most-recent position. A
    /// missing tile is decoded and inserted at the most-recent position;
    /// when the cache already holds as many tiles as its capacity, the
    /// least-recently-used tile - exactly the last of the recency list -
    /// is evicted to make room, so the cache never holds more resident
    /// tiles than its capacity.
    pub fn tile_fetch(&mut self, pipe: &PipelineCId, tx: usize, ty: usize) -> (t: usize)
        requires
            old(self).wf(),
            pipe.wf(),
            old(self).matches_pipe(pipe),
            old(self).coherent(pipe),
            tx * old(self).spec_signals_per_tile() < old(self).spec_num_signals(),
            ty * old(self).spec_cycles_per_tile() < old(self).spec_num_cycles(),
        ensures
            final(self).wf(),
            final(self).coherent(pipe),
            final(self).matches_pipe(pipe),
            final(self).spec_capacity() == old(self).spec_capacity(),
            final(self).spec_signals_per_tile() == old(self).spec_signals_per_tile(),
            final(self).spec_cycles_per_tile() == old(self).spec_cycles_per_tile(),
            final(self).spec_num_signals() == old(self).spec_num_signals(),
            final(self).spec_num_cycles() == old(self).spec_num_cycles(),
            t < final(self).spec_tile_keys().len(),
            final(self).spec_tile_keys()[t as int] == (tx as u64, ty as u64),
            ({
                let k = (tx as u64, ty as u64);
                let before = old(self).spec_lru();
                let after = final(self).spec_lru();
                &&& (before.contains(k) ==> after == seq![k] + before.remove_value(k))
                &&& (!before.contains(k) && before.len() < old(self).spec_capacity() ==> after
                    == seq![k] + before)
                &&& (!before.contains(k) && before.len() == old(self).spec_capacity() ==> after
                    == seq![k] + before.drop_last())
            }),
    {
        let k = (tx as u64, ty as u64);
        let ghost lru0 = self.spec_lru();
        let ghost keys0 = self.spec_tile_keys();
        let hit = lru_get(&mut self.cache, k);
        if hit {
            proof {
                let after = self.spec_lru();
                lru0.index_of_first_ensures(k);
                let i0 = lru0.index_of_first(k)->Some_0;
                assert(lru0[i0] == k);
                assert(self.spec_tile_keys().contains(k));
                assert(lru0.remove_value(k) == lru0.remove(i0));
                lru0.remove_ensures(i0);
                assert(after.len() == lru0.len());
                assert forall|j: int| 0 <= j < after.len() implies self.spec_tile_keys().contains(
                    #[trigger] after[j],
                ) by {
                    if j > 0 {
                        let x = lru0.remove(i0)[j - 1];
                        if j - 1 < i0 {
                            assert(x == lru0[j - 1]);
                        } else {
                            assert(x == lru0[j]);
                        }
                    }
                }
                assert forall|a: int, b: int|
                    0 <= a < b < after.len() implies after[a] != after[b] by {
                    let xa = (if a == 0 {
                        k
                    } else if a - 1 < i0 {
                        lru0[a - 1]
                    } else {
                        lru0[a]
                    });
                    let xb = (if b - 1 < i0 {
                        lru0[b - 1]
                    } else {
                        lru0[b]
                    });
                    assert(after[a] == xa);
                    assert(after[b] == xb);
                }
            }
            self.find_tile(k)
        } else {
            let data = self.load_tile(pipe, tx, ty);
            let evicted = lru_push(&mut self.cache, k);
            match evicted {
                Some(ev) => {
                    proof {
                        assert(lru0.len() == lru0.len() as int);
                        assert(ev == lru0.last());
                        assert(keys0.contains(ev)) by {
                            assert(lru0[lru0.len() - 1] == ev);
                        }
                    }
                    let ei = self.find_tile(ev);
                    let ghost keys_mid = self.spec_tile_keys();
                    self.tiles.swap_remove(ei);
                    self.tiles.push((k, data));
                    proof {
                        let after = self.spec_lru();
                        let keys2 = self.spec_tile_keys();
                        let n0 = keys0.len() as int;
                        assert(keys2.len() == n0);
                        assert(keys2[n0 - 1] == k);
                        assert(forall|j: int|
                            0 <= j < n0 - 1 && j != ei ==> #[trigger] keys2[j] == keys0[j]);
                        assert(ei < n0 - 1 ==> keys2[ei as int] == keys0[n0 - 1]);
                        assert forall|j: int| 0 <= j < after.len() implies keys2.contains(
                            #[trigger] after[j],
                        ) by {
                            if j == 0 {
                                assert(keys2[n0 - 1] == k);
                            } else {
                                let w = lru0[j - 1];
                                assert(after[j] == w);
                                assert(w != ev);
                                let wi = choose|x: int| 0 <= x < n0 && keys0[x] == w;
                                assert(keys0[ei as int] == ev);
                                if wi == n0 - 1 {
                                    assert(keys2[ei as int] == w);
                                } else if wi != ei {
                                    assert(keys2[wi] == w);
                                }
                            }
                        }
                        assert forall|a: int, b: int|
                            0 <= a < b < after.len() implies after[a] != after[b] by {
                            if a > 0 {
                                assert(after[a] == lru0[a - 1]);
                                assert(after[b] == lru0[b - 1]);
                            } else {
                                assert(after[b] == lru0[b - 1]);
                            }
                        }
                    }
                    self.tiles.len() - 1
                },
                None => {
                    self.tiles.push((k, data));
                    proof {
                        let after = self.spec_lru();
                        let keys2 = self.spec_tile_keys();
                        assert(keys2 =~= keys0.push(k));
                        assert forall|j: int| 0 <= j < after.len() implies keys2.contains(
                            #[trigger] after[j],
                        ) by {
                            if j == 0 {
                                assert(keys2[keys2.len() - 1] == k);
                            } else {
                                let w = lru0[j - 1];
                                assert(after[j] == w);
                                let wi = choose|x: int|
                                    0 <= x < keys0.len() && keys0[x] == w;
                                assert(keys2[wi] == w);
                            }
                        }
                        assert forall|a: int, b: int|
                            0 <= a < b < after.len() implies after[a] != after[b] by {
                            if a > 0 {
                                assert(after[a] == lru0[a - 1]);
                            }
                            assert(after[b] == lru0[b - 1]);
                        }
                    }
                    self.tiles.len() - 1
                },
            }
        }
    }

    /// Serves one signal's values over a cycle range, tile by tile: each
    /// covering tile is taken from the cache or decoded on miss, and the
    /// requested sub-slice copied out. A single call never decodes the
    /// same tile twice, and the values returned are exactly the values
    /// the uncached chain reports for the same cells.
    pub fn get(&mut self, pipe: &PipelineCId, id: usize, cycle_range: core::ops::Range<usize>) -> (r:
        Vec<SampleValue>)
        requires
            old(self).wf(),
            pipe.wf(),
            old(self).matches_pipe(pipe),
            old(self).coherent(pipe),
            id < old(self).spec_num_signals(),
            cycle_range.start <= cycle_range.end,
            cycle_range.end <= old(self).spec_num_cycles(),
        ensures
            final(self).wf(),
            final(self).coherent(pipe),
            final(self).matches_pipe(pipe),
            final(self).spec_capacity() == old(self).spec_capacity(),
            final(self).spec_signals_per_tile() == old(self).spec_signals_per_tile(),
            final(self).spec_cycles_per_tile() == old(self).spec_cycles_per_tile(),
            final(self).spec_num_signals() == old(self).spec_num_signals(),
            final(self).spec_num_cycles() == old(self).spec_num_cycles(),
            r@.len() == cycle_range.end - cycle_range.start,
            forall|j: int|
                0 <= j < r@.len() ==> (#[trigger] r@[j]).wf() && r@[j]@ == pipe.spec_cell(
                    id as int,
                    (cycle_range.start + j) as nat,
                ),
    {
        let start = cycle_range.start;
        let end = cycle_range.end;
        let mut out: Vec<SampleValue> = Vec::new();
        let mut cur = start;
        let tx = id / self.signals_per_tile;
        proof {
            vstd::arithmetic::div_mod::lemma_fundamental_div_mod(
                id as int,
                self.spec_signals_per_tile(),
            );
            vstd::arithmetic::div_mod::lemma_mod_bound(id as int, self.spec_signals_per_tile());
            vstd::arithmetic::mul::lemma_mul_is_commutative(
                tx as int,
                self.spec_signals_per_tile(),
            );
        }
        while cur < end
            invariant
                self.wf(),
                pipe.wf(),
                self.coherent(pipe),
                self.matches_pipe(pipe),
                self.spec_capacity() == old(self).spec_capacity(),
                self.spec_signals_per_tile() == old(self).spec_signals_per_tile(),
                self.spec_cycles_per_tile() == old(self).spec_cycles_per_tile(),
                self.spec_num_signals() == old(self).spec_num_signals(),
                self.spec_num_cycles() == old(self).spec_num_cycles(),
                start <= cur,
                cur <= end,
                end <= self.spec_num_cycles(),
                id < self.spec_num_signals(),
                tx == id as int / self.spec_signals_per_tile(),
                tx * self.spec_signals_per_tile() <= id < tx * self.spec_signals_per_tile()
                    + self.spec_signals_per_tile(),
                out@.len() == cur - start,
                forall|j: int|
                    0 <= j < out@.len() ==> (#[trigger] out@[j]).wf() && out@[j]@ == pipe.spec_cell(
                        id as int,
                        (start + j) as nat,
                    ),
            decreases end - cur,
        {
            let ty = cur / self.cycles_per_tile;
            proof {
                vstd::arithmetic::div_mod::lemma_fundamental_div_mod(
                    cur as int,
                    self.spec_cycles_per_tile(),
                );
                vstd::arithmetic::div_mod::lemma_mod_bound(
                    cur as int,
                    self.spec_cycles_per_tile(),
                );
                vstd::arithmetic::mul::lemma_mul_is_commutative(
                    ty as int,
                    self.spec_cycles_per_tile(),
                );
            }
            let t = self.tile_fetch(pipe, tx, ty);
            let tile_base: usize = ty * self.cycles_per_tile;
            let tile_hi: usize = if tile_base + self.cycles_per_tile <= end {
                tile_base + self.cycles_per_tile
            } else {
                end
            };
            let col = id - tx * self.signals_per_tile;
            let data = &self.tiles[t].1;
            proof {
                assert(self.spec_tile_keys()[t as int] == self.tiles@[t as int].0);
                assert(self.tile_ok(pipe, self.tiles@[t as int].0, self.tiles@[t as int].1));
                assert((self.tiles@[t as int].0.0 as int) == tx as int);
                assert((self.tiles@[t as int].0.1 as int) == ty as int);
            }
            let mut c = cur;
            while c < tile_hi
                invariant
                    self.wf(),
                    pipe.wf(),
                    self.coherent(pipe),
                    self.matches_pipe(pipe),
                    t < self.tiles@.len(),
                    data == &self.tiles@[t as int].1,
                    self.tile_ok(pipe, (tx as u64, ty as u64), self.tiles@[t as int].1),
                    self.tiles@[t as int].0 == (tx as u64, ty as u64),
                    start <= cur <= c <= tile_hi <= end,
                    end <= self.spec_num_cycles(),
                    id < self.spec_num_signals(),
                    tile_base == ty * self.spec_cycles_per_tile(),
                    tile_base <= cur,
                    cur < tile_base + self.spec_cycles_per_tile(),
                    tile_hi <= tile_base + self.spec_cycles_per_tile(),
                    col == id - tx * self.spec_signals_per_tile(),
                    0 <= col < self.spec_signals_per_tile(),
                    tx * self.spec_signals_per_tile() <= id,
                    out@.len() == c - start,
                    forall|j: int|
                        0 <= j < out@.len() ==> (#[trigger] out@[j]).wf() && out@[j]@
                            == pipe.spec_cell(id as int, (start + j) as nat),
                decreases tile_hi - c,
            {
                let row = c - tile_base;
                proof {
                    let dv = self.tiles@[t as int].1;
                    assert(dv.spec_rows() == self.tile_rows(ty as int));
                    if (ty as int + 1) * self.spec_cycles_per_tile() <= self.spec_num_cycles() {
                        assert((ty as int + 1) * self.spec_cycles_per_tile() == tile_base
                            + self.spec_cycles_per_tile()) by (nonlinear_arith)
                            requires
                                tile_base == ty as int * self.spec_cycles_per_tile(),
                        ;
                    } else {
                        assert((ty as int + 1) * self.spec_cycles_per_tile() == tile_base
                            + self.spec_cycles_per_tile()) by (nonlinear_arith)
                            requires
                                tile_base == ty as int * self.spec_cycles_per_tile(),
                        ;
                    }
                    assert(row < dv.spec_rows());
                    assert(col < dv.spec_cols()) by {
                        if (tx as int + 1) * self.spec_signals_per_tile()
                            <= self.spec_num_signals() {
                            assert((tx as int + 1) * self.spec_signals_per_tile() == tx as int
                                * self.spec_signals_per_tile() + self.spec_signals_per_tile())
                                by (nonlinear_arith);
                        } else {
                            assert((tx as int + 1) * self.spec_signals_per_tile() == tx as int
                                * self.spec_signals_per_tile() + self.spec_signals_per_tile())
                                by (nonlinear_arith);
                        }
                    }
                }
                let v = data.get(row, col);
                let ghost o0 = out@;
                out.push(v.dup());
                proof {
                    assert(out@.last()@ == pipe.spec_cell(
                        tx as int * self.spec_signals_per_tile() + col,
                        (ty as int * self.spec_cycles_per_tile() + row) as nat,
                    ));
                    assert(tx as int * self.spec_signals_per_tile() + col == id);
                    assert(ty as int * self.spec_cycles_per_tile() + row == c);
                }
                c = c + 1;
            }
            cur = tile_hi;
            proof {
                assert(cur > tile_base);
            }
        }
        out
    }
}


impl Cache {
    /// Coherence depends on the pipe only through its source and id map,
    /// so it survives reconfiguration of the chain's filters.
    pub proof fn lemma_coherent_same_cells(&self, p1: &PipelineCId, p2: &PipelineCId)
        requires
            self.coherent(p1),
            p1.spec_idmap() == p2.spec_idmap(),
            p1.spec_pipe().source() == p2.spec_pipe().source(),
        ensures
            self.coherent(p2),
    {
        assert forall|i: int| 0 <= i < self.tiles@.len() implies self.tile_ok(
            p2,
            (#[trigger] self.tiles@[i]).0,
            self.tiles@[i].1,
        ) by {
            assert(self.tile_ok(p1, self.tiles@[i].0, self.tiles@[i].1));
            assert(forall|d: int, c: nat| p1.spec_cell(d, c) == p2.spec_cell(d, c));
        }
    }
}

} // verus!
