use vstd::prelude::*;

use crate::data::{CycleValues, Signal};
use crate::error::Error;
use crate::load::parse::{
    lemma_find_end_bounds, parse_header, parse_u64, scan_header, skip_past_end,
    skip_past_end_exec, spec_parse_u64, spec_timescale_of, spec_tokens, str_is, tok_views,
    tokenize,
};
use vstd::string::StrSliceExecFns;
use crate::load::SignalDeclaration;
use crate::simtime::{lemma_fs_in_u128, unit_multiplier, SimTime, SimTimeRange, SimTimeUnit};
use crate::value::{msb_value, SampleValue};
use vstd::pervasive::VecAdditionalExecFns;

verus! {

/// One change-event command of the log body, after decoding.
///
/// `Timescale` re-declares the native time base mid-stream; `Timestamp`
/// advances the wall clock; `ChangeScalar` and `ChangeVector` set the
/// current bits of the signal with the given identifier code, the vector
/// bits given most-significant first.
#[derive(Debug)]
pub enum VcdCommand {
    Timescale(SimTime),
    Timestamp(u64),
    ChangeScalar(String, bool),
    ChangeVector(String, Vec<bool>),
}

/// A width-long run of zero bits, the assumed value of every signal before
/// its first recorded change.
pub open spec fn zero_bits(w: nat) -> Seq<bool> {
    Seq::new(w, |i: int| false)
}

/// Clips or zero-extends a reported bit vector to the declared width, on
/// the most-significant side.
pub open spec fn fit_bits(v: Seq<bool>, w: nat) -> Seq<bool> {
    if v.len() == w {
        v
    } else if v.len() < w {
        zero_bits((w - v.len()) as nat) + v
    } else {
        v.skip((v.len() - w) as int)
    }
}

/// Replay state of one signal while walking the log body: the wall time
/// and cycle count consumed so far, the native-units-per-cycle ratio, the
/// signal's current bits, and the bits recorded at each crossed cycle
/// boundary.
pub struct SigState {
    pub t: nat,
    pub ctts: nat,
    pub bits: Seq<bool>,
    pub hist: Seq<Seq<bool>>,
}

/// Replay start: clock at zero, no cycles crossed, all bits zero, and the
/// cycle ratio derived from the header time base.
pub open spec fn sig_init(cycle_fs: nat, ts_fs: nat, w: nat) -> SigState {
    SigState { t: 0, ctts: cycle_fs / ts_fs, bits: zero_bits(w), hist: Seq::empty() }
}

/// One command applied to the replay state of the signal with identifier
/// `code` and declared width `w`.
///
/// A timestamp first records the current bits for every cycle boundary it
/// crosses, then advances the clock to the last crossed boundary; a
/// mid-stream timescale recomputes the cycle ratio; a change command for
/// this code updates the current bits and nothing else.
pub open spec fn sig_step(
    st: SigState,
    cmd: VcdCommand,
    cycle_fs: nat,
    code: Seq<char>,
    w: nat,
) -> SigState {
    match cmd {
        VcdCommand::Timescale(ts) => SigState { ctts: cycle_fs / ts.fs(), ..st },
        VcdCommand::Timestamp(t) => {
            if t > st.t && st.ctts > 0 {
                let k = ((t - st.t) as nat) / st.ctts;
                SigState {
                    t: (st.t + k * st.ctts) as nat,
                    hist: st.hist + Seq::new(k, |i: int| st.bits),
                    ..st
                }
            } else {
                st
            }
        },
        VcdCommand::ChangeScalar(c, b) => {
            if c@ == code && w > 0 {
                SigState { bits: st.bits.update(0, b), ..st }
            } else {
                st
            }
        },
        VcdCommand::ChangeVector(c, v) => {
            if c@ == code {
                SigState { bits: fit_bits(v@, w), ..st }
            } else {
                st
            }
        },
    }
}

/// Replay of a whole command prefix for one signal.
pub open spec fn sig_run(
    cmds: Seq<VcdCommand>,
    cycle_fs: nat,
    ts_fs: nat,
    code: Seq<char>,
    w: nat,
) -> SigState
    decreases cmds.len(),
{
    if cmds.len() == 0 {
        sig_init(cycle_fs, ts_fs, w)
    } else {
        sig_step(sig_run(cmds.drop_last(), cycle_fs, ts_fs, code, w), cmds.last(), cycle_fs, code, w)
    }
}

/// Extending the replayed prefix by one command steps the state once.
pub proof fn lemma_sig_run_step(
    cmds: Seq<VcdCommand>,
    i: int,
    cycle_fs: nat,
    ts_fs: nat,
    code: Seq<char>,
    w: nat,
)
    requires
        0 <= i < cmds.len(),
    ensures
        sig_run(cmds.take(i + 1), cycle_fs, ts_fs, code, w) == sig_step(
            sig_run(cmds.take(i), cycle_fs, ts_fs, code, w),
            cmds[i],
            cycle_fs,
            code,
            w,
        ),
{
    assert(cmds.take(i + 1).drop_last() =~= cmds.take(i));
    assert(cmds.take(i + 1).last() == cmds[i]);
}

/// The sampled value of the signal with identifier `code` and width `w`
/// at a cycle index: the bits recorded when that cycle's boundary was
/// crossed, or zero where the log ended before the cycle.
pub open spec fn sig_cell(
    cmds: Seq<VcdCommand>,
    cycle_fs: nat,
    ts_fs: nat,
    code: Seq<char>,
    w: nat,
    cycle: nat,
) -> nat {
    let st = sig_run(cmds, cycle_fs, ts_fs, code, w);
    if cycle < st.hist.len() {
        msb_value(st.hist[cycle as int])
    } else {
        0
    }
}

/// Clips or zero-extends reported bits to the declared width.
fn fit_exec(v: &Vec<bool>, w: u32) -> (r: Vec<bool>)
    ensures
        r@ == fit_bits(v@, w as nat),
{
    let len = v.len();
    let wu = w as usize;
    let mut r: Vec<bool> = Vec::new();
    if len < wu {
        let pad = wu - len;
        let mut i: usize = 0;
        while i < pad
            invariant
                i <= pad,
                r@ =~= zero_bits(i as nat),
            decreases pad - i,
        {
            r.push(false);
            proof {
                assert(r@ =~= zero_bits((i + 1) as nat));
            }
            i = i + 1;
        }
        let mut j: usize = 0;
        while j < len
            invariant
                j <= len,
                len == v@.len(),
                pad == wu - len,
                r@ =~= zero_bits(pad as nat) + v@.take(j as int),
            decreases len - j,
        {
            r.push(v[j]);
            proof {
                assert(v@.take(j + 1) =~= v@.take(j as int).push(v@[j as int]));
            }
            j = j + 1;
        }
        proof {
            assert(v@.take(len as int) =~= v@);
            assert(r@ =~= fit_bits(v@, w as nat));
        }
    } else {
        let skip = len - wu;
        let mut j: usize = skip;
        while j < len
            invariant
                skip <= j <= len,
                len == v@.len(),
                skip == len - wu,
                r@ =~= v@.subrange(skip as int, j as int),
            decreases len - j,
        {
            r.push(v[j]);
            proof {
                assert(v@.subrange(skip as int, j + 1) =~= v@.subrange(skip as int, j as int).push(
                    v@[j as int],
                ));
            }
            j = j + 1;
        }
        proof {
            if len == wu {
                assert(v@.subrange(0, len as int) =~= v@);
                assert(r@ =~= fit_bits(v@, w as nat));
            } else {
                assert(r@ =~= v@.skip(skip as int));
            }
        }
    }
    r
}


/// Number of cycle boundaries a command sequence crosses; the time
/// components of the replay do not depend on which signal is replayed.
pub open spec fn cycle_count_of(cmds: Seq<VcdCommand>, cycle_fs: nat, ts_fs: nat) -> nat {
    sig_run(cmds, cycle_fs, ts_fs, Seq::empty(), 0).hist.len()
}

/// A mid-stream timescale command the replay can accept: a positive time
/// base whose cycle ratio is a positive machine word.
pub open spec fn cmd_ok(cmd: VcdCommand, cycle_fs: nat) -> bool {
    cmd matches VcdCommand::Timescale(ts) ==> (ts.fs() > 0 && 1 <= cycle_fs / ts.fs() <= u64::MAX)
}

/// The event-log loader.
///
/// Construction decodes the whole log once into declarations and an
/// in-memory command index and counts how many cycle boundaries the log
/// crosses at the configured cycle granularity; it holds no decoded sample
/// data. Each `sample` call replays the command index and materializes
/// rows only for the requested cycle window, trading repeated replay for
/// bounded memory, on the assumption that the cache above amortizes
/// repeated access to the same windows.
#[derive(Debug)]
pub struct VcdLoader {
    signals: Vec<SignalDeclaration>,
    codes: Vec<Option<String>>,
    widths: Vec<u32>,
    commands: Vec<VcdCommand>,
    num_cycles: usize,
    cycle_time: SimTime,
    timescale: SimTime,
}

impl VcdLoader {
    /// Declarations, commands and counters agree: every mid-stream
    /// timescale is acceptable, the cycle count matches the replay of the
    /// command index, and the final cycle's timestamp fits a machine word.
    pub closed spec fn wf(&self) -> bool {
        &&& self.codes@.len() == self.signals@.len()
        &&& self.widths@.len() == self.signals@.len()
        &&& self.timescale.fs() > 0
        &&& self.cycle_time.fs() > 0
        &&& 1 <= self.cycle_time.fs() / self.timescale.fs() <= u64::MAX
        &&& (forall|i: int|
            0 <= i < self.commands@.len() ==> cmd_ok(
                #[trigger] self.commands@[i],
                self.cycle_time.fs(),
            ))
        &&& self.num_cycles == cycle_count_of(
            self.commands@,
            self.cycle_time.fs(),
            self.timescale.fs(),
        )
        &&& self.cycle_time.value * self.num_cycles <= u64::MAX
    }

    pub closed spec fn spec_num_signals(&self) -> nat {
        self.signals@.len()
    }

    pub closed spec fn spec_name(&self, i: int) -> Seq<char> {
        self.signals@[i].name@
    }

    pub closed spec fn spec_format(&self, i: int) -> crate::formatting::WaveFormat {
        self.signals@[i].format
    }

    pub closed spec fn spec_num_cycles(&self) -> nat {
        self.num_cycles as nat
    }

    pub closed spec fn spec_cycle_time(&self) -> SimTime {
        self.cycle_time
    }

    /// Position of the first declaration from `from` onwards bearing a
    /// name, or the declaration count where none does.
    pub closed spec fn first_with(&self, name: Seq<char>, from: int) -> int
        decreases self.spec_num_signals() - from,
    {
        if from < 0 || from >= self.signals@.len() {
            self.signals@.len() as int
        } else if self.spec_name(from) == name {
            from
        } else {
            self.first_with(name, from + 1)
        }
    }

    /// Position a name resolves to at this source: its first declaration.
    pub closed spec fn spec_lookup(&self, name: Seq<char>) -> int {
        self.first_with(name, 0)
    }

    /// Whether some declaration carries this name.
    pub open spec fn name_declared(&self, name: Seq<char>) -> bool {
        exists|i: int| 0 <= i < self.spec_num_signals() && self.spec_name(i) == name
    }

    /// Identifier code and width of the last value-carrying declaration
    /// with the given name among the first `upto` declarations; annotation
    /// pseudo-signals carry no code.
    pub closed spec fn last_code(&self, name: Seq<char>, upto: int) -> Option<(Seq<char>, nat)>
        decreases upto,
    {
        if upto <= 0 {
            None
        } else if self.codes@[upto - 1] is Some && self.signals@[upto - 1].name@ == name {
            Some((self.codes@[upto - 1]->0@, self.widths@[upto - 1] as nat))
        } else {
            self.last_code(name, upto - 1)
        }
    }

    /// Identifier code and width a sampled name resolves to: the last
    /// value-carrying declaration with that name wins.
    pub closed spec fn spec_code_of(&self, name: Seq<char>) -> Option<(Seq<char>, nat)> {
        self.last_code(name, self.signals@.len() as int)
    }

    /// The sampled value of a named signal at a cycle: zero for an
    /// annotation pseudo-signal, otherwise the replayed value of its code.
    pub closed spec fn spec_cell(&self, name: Seq<char>, cycle: nat) -> nat {
        match self.spec_code_of(name) {
            None => 0,
            Some(cw) => sig_cell(
                self.commands@,
                self.cycle_time.fs(),
                self.timescale.fs(),
                cw.0,
                cw.1,
                cycle,
            ),
        }
    }
}

fn str_eq(a: &String, b: &String) -> (r: bool)
    ensures
        r == (a@ == b@),
{
    a.eq(b)
}

/// Arithmetic of one clock advance: the number of whole cycles in the
/// elapsed native time, and the bounds that keep the advance inside
/// machine words.
proof fn lemma_advance(t: int, cur: int, ctts: int)
    requires
        0 <= cur < t,
        ctts >= 1,
    ensures
        ({
            let k = (t - cur) / ctts;
            &&& 0 <= k
            &&& k * ctts <= t - cur
            &&& k <= k * ctts
        }),
{
    let x = t - cur;
    let k = x / ctts;
    vstd::arithmetic::div_mod::lemma_fundamental_div_mod(x, ctts);
    assert(x % ctts >= 0);
    assert(ctts * k == x - x % ctts);
    vstd::arithmetic::mul::lemma_mul_is_commutative(ctts, k);
    vstd::arithmetic::div_mod::lemma_div_pos_is_pos(x, ctts);
    vstd::arithmetic::mul::lemma_mul_inequality(1, ctts, k);
    vstd::arithmetic::mul::lemma_mul_basics(k);
}

/// The fitted bit vector always has the declared width.
proof fn lemma_fit_bits_len(v: Seq<bool>, w: nat)
    ensures
        fit_bits(v, w).len() == w,
{
}

impl VcdLoader {
    /// Replays the command index for one identifier code and returns the
    /// value at each cycle of `[start, stop)`, zero where the log ended
    /// before the cycle.
    fn sample_signal(&self, code: &String, width: u32, start: u64, stop: u64) -> (out: Vec<
        SampleValue,
    >)
        requires
            self.wf(),
            start <= stop,
            stop - start <= usize::MAX,
        ensures
            out@.len() == stop - start,
            forall|j: int|
                0 <= j < out@.len() ==> (#[trigger] out@[j]).wf() && out@[j]@ == sig_cell(
                    self.commands@,
                    self.cycle_time.fs(),
                    self.timescale.fs(),
                    code@,
                    width as nat,
                    (start + j) as nat,
                ),
    {
        let ghost cf = self.cycle_time.fs();
        let ghost tf = self.timescale.fs();
        let rows = (stop - start) as usize;
        let mut out: Vec<SampleValue> = Vec::new();
        let mut z: usize = 0;
        while z < rows
            invariant
                z <= rows,
                out@.len() == z,
                forall|j: int| 0 <= j < z ==> (#[trigger] out@[j]).wf() && out@[j]@ == 0,
            decreases rows - z,
        {
            out.push(SampleValue::zero());
            z = z + 1;
        }
        let mut bits: Vec<bool> = Vec::new();
        let wu = width as usize;
        let mut z2: usize = 0;
        while z2 < wu
            invariant
                z2 <= wu,
                bits@ =~= zero_bits(z2 as nat),
            decreases wu - z2,
        {
            bits.push(false);
            proof {
                assert(bits@ =~= zero_bits((z2 + 1) as nat));
            }
            z2 = z2 + 1;
        }
        let mut cur_t: u64 = 0;
        let mut cyc: u64 = 0;
        let mut ctts: u64 = self.cycle_time.divide(self.timescale);
        let n = self.commands.len();
        let mut i: usize = 0;
        proof {
            assert(self.commands@.take(0) =~= Seq::<VcdCommand>::empty());
        }
        while i < n
            invariant
                self.wf(),
                i <= n,
                n == self.commands@.len(),
                start <= stop,
                stop - start <= usize::MAX,
                rows == stop - start,
                out@.len() == rows,
                cf == self.cycle_time.fs(),
                tf == self.timescale.fs(),
                ctts >= 1,
                cyc <= cur_t,
                bits@.len() == width as nat,
                ({
                    let st = sig_run(self.commands@.take(i as int), cf, tf, code@, width as nat);
                    &&& cur_t == st.t
                    &&& ctts == st.ctts
                    &&& cyc == st.hist.len()
                    &&& bits@ == st.bits
                    &&& forall|j: int|
                        0 <= j < rows ==> (#[trigger] out@[j]).wf() && out@[j]@ == (if start + j
                            < st.hist.len() {
                            msb_value(st.hist[start + j])
                        } else {
                            0
                        })
                }),
            decreases n - i,
        {
            let ghost st = sig_run(self.commands@.take(i as int), cf, tf, code@, width as nat);
            proof {
                lemma_sig_run_step(self.commands@, i as int, cf, tf, code@, width as nat);
            }
            match &self.commands[i] {
                VcdCommand::Timescale(ts) => {
                    assert(cmd_ok(self.commands@[i as int], cf));
                    ctts = self.cycle_time.divide(*ts);
                },
                VcdCommand::Timestamp(tv) => {
                    let t = *tv;
                    if t > cur_t {
                        proof {
                            lemma_advance(t as int, cur_t as int, ctts as int);
                        }
                        let k = (t - cur_t) / ctts;
                        let lo = if cyc > start {
                            cyc
                        } else {
                            start
                        };
                        let hi = if cyc + k < stop {
                            cyc + k
                        } else {
                            stop
                        };
                        let ghost hist2 = st.hist + Seq::new(k as nat, |x: int| st.bits);
                        let mut c = lo;
                        while c < hi
                            invariant
                                lo <= c,
                                c <= hi || c == lo,
                                start <= lo,
                                hi <= stop,
                                lo >= cyc,
                                hi <= cyc + k,
                                rows == stop - start,
                                out@.len() == rows,
                                cyc == st.hist.len(),
                                hist2 == st.hist + Seq::new(k as nat, |x: int| st.bits),
                                bits@ == st.bits,
                                forall|j: int|
                                    0 <= j < rows ==> (#[trigger] out@[j]).wf() && out@[j]@ == (if
                                    start + j < st.hist.len() {
                                        msb_value(st.hist[start + j])
                                    } else if lo <= start + j < c {
                                        msb_value(st.bits)
                                    } else {
                                        0
                                    }),
                            decreases hi - c,
                        {
                            let row = (c - start) as usize;
                            out.set(row, SampleValue::from_bits_msb(&bits));
                            c = c + 1;
                        }
                        proof {
                            assert forall|j: int| 0 <= j < rows implies (#[trigger] out@[j]).wf()
                                && out@[j]@ == (if start + j < hist2.len() {
                                msb_value(hist2[start + j])
                            } else {
                                0nat
                            }) by {
                                if start + j < st.hist.len() {
                                    assert(hist2[start + j] == st.hist[start + j]);
                                } else if start + j < hist2.len() {
                                    assert(hist2[start + j] == st.bits);
                                    assert(lo <= start + j < hi);
                                } else {
                                    assert(!(lo <= start + j < hi));
                                }
                            }
                        }
                        cur_t = cur_t + k * ctts;
                        cyc = cyc + k;
                    }
                },
                VcdCommand::ChangeScalar(cd, b) => {
                    if width > 0 && str_eq(cd, code) {
                        bits.set(0, *b);
                    }
                },
                VcdCommand::ChangeVector(cd, v) => {
                    if str_eq(cd, code) {
                        bits = fit_exec(v, width);
                        proof {
                            lemma_fit_bits_len(v@, width as nat);
                        }
                    }
                },
            }
            i = i + 1;
        }
        proof {
            assert(self.commands@.take(n as int) =~= self.commands@);
        }
        out
    }
}


/// Scaling a positive timestamp by a whole number of cycles and dividing
/// by the same timestamp gives the cycle count back.
pub proof fn lemma_scale_div(t: SimTime, c: u64)
    requires
        t.fs() > 0,
        t.value * c <= u64::MAX,
    ensures
        t.spec_scale(c).fs() / t.fs() == c,
{
    let m = crate::simtime::unit_multiplier(t.unit);
    assert(t.spec_scale(c).fs() == c * (t.value * m)) by (nonlinear_arith)
        requires
            t.spec_scale(c).value == t.value * c,
            t.spec_scale(c).unit == t.unit,
            m == crate::simtime::unit_multiplier(t.spec_scale(c).unit),
            t.spec_scale(c).fs() == t.spec_scale(c).value * m,
    ;
    vstd::arithmetic::div_mod::lemma_div_by_multiple(c as int, t.fs() as int);
}

impl VcdLoader {
    /// Declared signals, re-tagged with their own names as native ids.
    pub fn query_signals(&self) -> (r: Vec<Signal<String>>)
        ensures
            r@.len() == self.spec_num_signals(),
            forall|i: int|
                0 <= i < r@.len() ==> (#[trigger] r@[i]).id@ == self.spec_name(i) && r@[i].name@
                    == self.spec_name(i) && r@[i].format == self.spec_format(i),
    {
        let n = self.signals.len();
        let mut r: Vec<Signal<String>> = Vec::new();
        let mut i: usize = 0;
        while i < n
            invariant
                i <= n,
                n == self.signals@.len(),
                r@.len() == i,
                forall|j: int|
                    0 <= j < i ==> (#[trigger] r@[j]).id@ == self.spec_name(j) && r@[j].name@
                        == self.spec_name(j) && r@[j].format == self.spec_format(j),
            decreases n - i,
        {
            let decl = &self.signals[i];
            r.push(Signal { id: decl.name.clone(), name: decl.name.clone(), format: decl.format });
            i = i + 1;
        }
        r
    }

    /// The half-open wall-time interval covered by the counted cycles.
    pub fn query_time_range(&self) -> (r: SimTimeRange)
        requires
            self.wf(),
        ensures
            r.0.fs() == 0,
            r.1 == self.spec_cycle_time().spec_scale(self.spec_num_cycles() as u64),
    {
        let start = SimTime::zero();
        proof {
            self.lemma_wf_scale_bound(self.num_cycles);
        }
        let stop = self.cycle_time.scale(self.num_cycles as u64);
        SimTimeRange(start, stop)
    }

    /// Wall time at which a cycle begins.
    pub fn query_time(&self, cycle: usize) -> (r: SimTime)
        requires
            self.wf(),
            cycle <= self.spec_num_cycles(),
        ensures
            r == self.spec_cycle_time().spec_scale(cycle as u64),
    {
        proof {
            self.lemma_wf_scale_bound(cycle);
        }
        self.cycle_time.scale(cycle as u64)
    }

    /// A sound loader has a positive cycle granularity.
    pub proof fn lemma_wf_cycle_time(&self)
        requires
            self.wf(),
        ensures
            self.spec_cycle_time().fs() > 0,
            self.spec_cycle_time().value > 0,
    {
        lemma_fs_positive(self.spec_cycle_time());
    }

    /// Scaling the cycle time by any in-range cycle count stays inside a
    /// machine word.
    pub proof fn lemma_wf_scale_bound_pub(&self, cycle: usize)
        requires
            self.wf(),
            cycle <= self.spec_num_cycles(),
        ensures
            self.spec_cycle_time().value * cycle <= u64::MAX,
    {
        self.lemma_wf_scale_bound(cycle);
    }

    /// Scaling the cycle time by any in-range cycle count stays inside a
    /// machine word.
    proof fn lemma_wf_scale_bound(&self, cycle: usize)
        requires
            self.wf(),
            cycle <= self.num_cycles,
        ensures
            self.cycle_time.value * cycle <= u64::MAX,
    {
        vstd::arithmetic::mul::lemma_mul_inequality(
            cycle as int,
            self.num_cycles as int,
            self.cycle_time.value as int,
        );
        vstd::arithmetic::mul::lemma_mul_is_commutative(cycle as int, self.cycle_time.value as int);
        vstd::arithmetic::mul::lemma_mul_is_commutative(
            self.num_cycles as int,
            self.cycle_time.value as int,
        );
    }

    pub fn query_cycle_count(&self) -> (r: usize)
        ensures
            r == self.spec_num_cycles(),
    {
        self.num_cycles
    }

    /// Position of the first declaration bearing the given name.
    pub fn lookup_id(&self, id: &String) -> (r: Result<usize, Error>)
        ensures
            (match r {
                Ok(p) => {
                    &&& 0 <= p < self.spec_num_signals()
                    &&& self.spec_name(p as int) == id@
                    &&& forall|j: int| 0 <= j < p ==> self.spec_name(j) != id@
                    &&& p == self.spec_lookup(id@)
                },
                Err(e) => {
                    &&& !self.name_declared(id@)
                    &&& (e matches Error::NotFound(nm) && nm@ == id@)
                },
            }),
    {
        let n = self.signals.len();
        let mut i: usize = 0;
        while i < n
            invariant
                i <= n,
                n == self.signals@.len(),
                forall|j: int| 0 <= j < i ==> self.spec_name(j) != id@,
                self.spec_lookup(id@) == self.first_with(id@, i as int),
            decreases n - i,
        {
            if str_eq(&self.signals[i].name, id) {
                return Ok(i);
            }
            i = i + 1;
        }
        Err(Error::NotFound(id.clone()))
    }

    /// Name of the declaration at a pipeline position.
    pub fn rev_lookup_id(&self, id: usize) -> (r: Result<String, Error>)
        ensures
            (match r {
                Ok(nm) => id < self.spec_num_signals() && nm@ == self.spec_name(id as int),
                Err(e) => id >= self.spec_num_signals() && (e matches Error::IdOutOfRange(
                    b,
                    lo,
                    hi,
                ) && b == id && lo == 0 && hi == self.spec_num_signals()),
            }),
    {
        if id < self.signals.len() {
            Ok(self.signals[id].name.clone())
        } else {
            Err(Error::IdOutOfRange(id, 0, self.signals.len()))
        }
    }

    /// Samples the named signals over a wall-time window.
    ///
    /// One row per cycle of `[times.0 / cycle_time, times.1 / cycle_time)`
    /// and one column per requested name, in the order requested. A name
    /// declared as an annotation pseudo-signal yields a zero column; a
    /// name with no declaration at all is rejected. Cycles past the end of
    /// the log sample as zero.
    pub fn sample(&self, ids: &Vec<String>, times: &SimTimeRange) -> (r: Result<CycleValues, Error>)
        requires
            self.wf(),
            times.0.fs() <= times.1.fs(),
            times.1.fs() / self.spec_cycle_time().fs() <= u64::MAX,
            times.1.fs() / self.spec_cycle_time().fs() - times.0.fs()
                / self.spec_cycle_time().fs() <= usize::MAX,
            (times.1.fs() / self.spec_cycle_time().fs() - times.0.fs()
                / self.spec_cycle_time().fs()) * ids@.len() <= usize::MAX,
        ensures
            (match r {
                Ok(m) => {
                    let start = times.0.fs() / self.spec_cycle_time().fs();
                    let stop = times.1.fs() / self.spec_cycle_time().fs();
                    &&& forall|c: int| 0 <= c < ids@.len() ==> self.name_declared(#[trigger] ids@[c]@)
                    &&& m.wf()
                    &&& m.spec_rows() == stop - start
                    &&& m.spec_cols() == ids@.len()
                    &&& forall|row: int, c: int|
                        0 <= row < m.spec_rows() && 0 <= c < m.spec_cols() ==> #[trigger] m.entry(
                            row,
                            c,
                        ) == self.spec_cell(ids@[c]@, (start + row) as nat)
                },
                Err(e) => {
                    &&& (e matches Error::NotFound(nm) && !self.name_declared(nm@) && exists|c: int|
                        0 <= c < ids@.len() && #[trigger] ids@[c]@ == nm@)
                },
            }),
    {
        proof {
            lemma_fs_in_u128(times.0);
            lemma_fs_in_u128(times.1);
            lemma_fs_in_u128(self.cycle_time);
        }
        let ta: u128 = (times.0.value as u128) * (times.0.unit.to_multiplier() as u128);
        let tb: u128 = (times.1.value as u128) * (times.1.unit.to_multiplier() as u128);
        let cf: u128 = (self.cycle_time.value as u128) * (self.cycle_time.unit.to_multiplier()
            as u128);
        let start128 = ta / cf;
        let stop128 = tb / cf;
        proof {
            vstd::arithmetic::div_mod::lemma_div_is_ordered(ta as int, tb as int, cf as int);
        }
        let start = start128 as u64;
        let stop = stop128 as u64;
        let rows = (stop - start) as usize;
        let cols = ids.len();
        let mut resolved: Vec<Option<(String, u32)>> = Vec::new();
        let mut c: usize = 0;
        while c < cols
            invariant
                self.wf(),
                c <= cols,
                cols == ids@.len(),
                resolved@.len() == c,
                forall|j: int| 0 <= j < c ==> self.name_declared(#[trigger] ids@[j]@),
                forall|j: int|
                    0 <= j < c ==> (match #[trigger] resolved@[j] {
                        Some(cw) => self.spec_code_of(ids@[j]@) matches Some(sw) && sw.0 == cw.0@
                            && sw.1 == cw.1 as nat,
                        None => self.spec_code_of(ids@[j]@) is None,
                    }),
            decreases cols - c,
        {
            let id = &ids[c];
            let n = self.signals.len();
            let mut best: Option<(String, u32)> = None;
            let mut any = false;
            let mut i: usize = 0;
            while i < n
                invariant
                    self.wf(),
                    i <= n,
                    n == self.signals@.len(),
                    any == exists|j: int| 0 <= j < i && self.spec_name(j) == id@,
                    (match best {
                        Some(cw) => self.last_code(id@, i as int) matches Some(sw) && sw.0 == cw.0@
                            && sw.1 == cw.1 as nat,
                        None => self.last_code(id@, i as int) is None,
                    }),
                decreases n - i,
            {
                if str_eq(&self.signals[i].name, id) {
                    proof {
                        assert(self.spec_name(i as int) == id@);
                    }
                    any = true;
                    match &self.codes[i] {
                        Some(code) => {
                            best = Some((code.clone(), self.widths[i]));
                        },
                        None => {
                        },
                    }
                }
                i = i + 1;
            }
            if !any {
                proof {
                    assert(!self.name_declared(id@));
                }
                return Err(Error::NotFound(id.clone()));
            }
            resolved.push(best);
            c = c + 1;
        }
        let mut m = CycleValues::new_zero(rows, cols);
        let ghost spec_start = times.0.fs() / self.spec_cycle_time().fs();
        proof {
            assert(spec_start == start);
        }
        let mut c2: usize = 0;
        while c2 < cols
            invariant
                self.wf(),
                c2 <= cols,
                cols == ids@.len(),
                resolved@.len() == cols,
                rows == stop - start,
                start <= stop,
                spec_start == start,
                m.wf(),
                m.spec_rows() == rows,
                m.spec_cols() == cols,
                forall|j: int|
                    0 <= j < cols ==> (match #[trigger] resolved@[j] {
                        Some(cw) => self.spec_code_of(ids@[j]@) matches Some(sw) && sw.0 == cw.0@
                            && sw.1 == cw.1 as nat,
                        None => self.spec_code_of(ids@[j]@) is None,
                    }),
                forall|row: int, j: int|
                    0 <= row < rows && 0 <= j < c2 ==> #[trigger] m.entry(row, j) == self.spec_cell(
                        ids@[j]@,
                        (start + row) as nat,
                    ),
                forall|row: int, j: int|
                    0 <= row < rows && c2 <= j < cols ==> #[trigger] m.entry(row, j) == 0,
            decreases cols - c2,
        {
            let ghost m0 = m;
            match &resolved[c2] {
                Some(cw) => {
                    let v = self.sample_signal(&cw.0, cw.1, start, stop);
                    let mut row: usize = 0;
                    while row < rows
                        invariant
                            self.wf(),
                            c2 < cols,
                            cols == ids@.len(),
                            row <= rows,
                            rows == stop - start,
                            start <= stop,
                            m.wf(),
                            m.spec_rows() == rows,
                            m.spec_cols() == cols,
                            m0.spec_rows() == rows,
                            m0.spec_cols() == cols,
                            v@.len() == rows,
                            (self.spec_code_of(ids@[c2 as int]@) matches Some(sw) && sw.0 == cw.0@
                                && sw.1 == cw.1 as nat),
                            forall|x: int|
                                0 <= x < rows ==> (#[trigger] v@[x]).wf() && v@[x]@ == sig_cell(
                                    self.commands@,
                                    self.cycle_time.fs(),
                                    self.timescale.fs(),
                                    cw.0@,
                                    cw.1 as nat,
                                    (start + x) as nat,
                                ),
                            forall|x: int|
                                0 <= x < row ==> #[trigger] m.entry(x, c2 as int)
                                    == self.spec_cell(ids@[c2 as int]@, (start + x) as nat),
                            forall|x: int, j: int|
                                0 <= x < rows && 0 <= j < cols && j != c2 ==> #[trigger] m.entry(
                                    x,
                                    j,
                                ) == m0.entry(x, j),
                            forall|x: int|
                                row <= x < rows ==> #[trigger] m.entry(x, c2 as int) == m0.entry(
                                    x,
                                    c2 as int,
                                ),
                        decreases rows - row,
                    {
                        m.set(row, c2, v[row].dup());
                        row = row + 1;
                    }
                },
                None => {
                    proof {
                        assert forall|x: int| 0 <= x < rows implies #[trigger] m.entry(
                            x,
                            c2 as int,
                        ) == self.spec_cell(ids@[c2 as int]@, (start + x) as nat) by {
                            assert(m.entry(x, c2 as int) == 0);
                        }
                    }
                },
            }
            c2 = c2 + 1;
        }
        Ok(m)
    }
}


/// The mathematical reading of one decoded command: codes and bit vectors
/// as sequences.
pub enum SpecCommand {
    Timescale(SimTime),
    Timestamp(u64),
    Scalar(Seq<char>, bool),
    Vector(Seq<char>, Seq<bool>),
}

impl View for VcdCommand {
    type V = SpecCommand;

    open spec fn view(&self) -> SpecCommand {
        match self {
            VcdCommand::Timescale(t) => SpecCommand::Timescale(*t),
            VcdCommand::Timestamp(t) => SpecCommand::Timestamp(*t),
            VcdCommand::ChangeScalar(c, b) => SpecCommand::Scalar(c@, *b),
            VcdCommand::ChangeVector(c, v) => SpecCommand::Vector(c@, v@),
        }
    }
}

/// The readings of a decoded command vector.
pub open spec fn cmd_views(s: Seq<VcdCommand>) -> Seq<SpecCommand> {
    s.map_values(|c: VcdCommand| c@)
}

/// The change-log commands the tokens from position `i` onwards decode
/// to.
///
/// A `#`-token is a timestamp; a leading `0`, `1`, `x` or `z` (either
/// case) changes a scalar, where only `1` reads as a high bit; a leading
/// `b` changes a vector whose identifier is the following token; real and
/// string changes are passed over, as are dump-control words; a
/// mid-stream `$timescale` re-declares the time base; a `$comment` is
/// passed over to its `$end`. Unreadable tokens decode to nothing.
pub open spec fn decode_from(toks: Seq<Seq<char>>, i: int) -> Seq<SpecCommand>
    decreases toks.len() - i,
    via decode_from_dec
{
    if i < 0 || i >= toks.len() {
        Seq::empty()
    } else {
        let tok = toks[i];
        if tok.len() == 0 {
            decode_from(toks, i + 1)
        } else if tok[0] == '#' {
            match spec_parse_u64(tok.skip(1)) {
                Some(v) => seq![SpecCommand::Timestamp(v)] + decode_from(toks, i + 1),
                None => decode_from(toks, i + 1),
            }
        } else if tok == "$timescale"@ {
            match spec_timescale_of(toks, i) {
                Some(ts) => seq![SpecCommand::Timescale(ts)] + decode_from(
                    toks,
                    skip_past_end(toks, i + 1),
                ),
                None => decode_from(toks, skip_past_end(toks, i + 1)),
            }
        } else if tok == "$comment"@ {
            decode_from(toks, skip_past_end(toks, i + 1))
        } else if tok[0] == '$' {
            decode_from(toks, i + 1)
        } else if tok[0] == '0' || tok[0] == '1' || tok[0] == 'x' || tok[0] == 'X' || tok[0] == 'z'
            || tok[0] == 'Z' {
            if tok.len() >= 2 {
                seq![SpecCommand::Scalar(tok.skip(1), tok[0] == '1')] + decode_from(toks, i + 1)
            } else {
                decode_from(toks, i + 1)
            }
        } else if tok[0] == 'b' || tok[0] == 'B' {
            if i + 1 < toks.len() {
                seq![
                    SpecCommand::Vector(
                        toks[i + 1],
                        tok.skip(1).map_values(|c: char| c == '1'),
                    ),
                ] + decode_from(toks, i + 2)
            } else {
                decode_from(toks, i + 1)
            }
        } else if tok[0] == 'r' || tok[0] == 'R' || tok[0] == 's' || tok[0] == 'S' {
            if i + 2 <= toks.len() {
                decode_from(toks, i + 2)
            } else {
                decode_from(toks, i + 1)
            }
        } else {
            decode_from(toks, i + 1)
        }
    }
}

#[via_fn]
proof fn decode_from_dec(toks: Seq<Seq<char>>, i: int) {
    if 0 <= i < toks.len() {
        lemma_find_end_bounds(toks, i + 1);
    }
}

/// Decodes the change log that starts at token position `start`.
pub fn decode_body(toks: &Vec<String>, start: usize) -> (r: Vec<VcdCommand>)
    requires
        start <= toks@.len(),
    ensures
        cmd_views(r@) == decode_from(tok_views(toks@), start as int),
{
    let ghost v = tok_views(toks@);
    let n = toks.len();
    let mut done: Vec<VcdCommand> = Vec::new();
    let mut i = start;
    while i < n
        invariant
            start <= i <= n,
            n == toks@.len(),
            v == tok_views(toks@),
            cmd_views(done@) + decode_from(v, i as int) == decode_from(v, start as int),
        decreases n - i,
    {
        let ghost done0 = done@;
        let ghost i0 = i as int;
        let tok = &toks[i];
        proof {
            assert(v[i as int] == tok@);
        }
        let ts0 = tok.as_str();
        let tn = ts0.unicode_len();
        if tn == 0 {
            i = i + 1;
        } else {
            let c0 = ts0.get_char(0);
            if c0 == '#' {
                let rest = ts0.substring_char(1, tn);
                proof {
                    assert(rest@ =~= tok@.skip(1));
                }
                match parse_u64(rest) {
                    Some(t) => {
                        done.push(VcdCommand::Timestamp(t));
                    },
                    None => {
                    },
                }
                i = i + 1;
            } else if str_is(tok, "$timescale") {
                match crate::load::parse::timescale_of_exec(toks, i) {
                    Some(ts) => {
                        done.push(VcdCommand::Timescale(ts));
                    },
                    None => {
                    },
                }
                i = skip_past_end_exec(toks, i + 1);
            } else if str_is(tok, "$comment") {
                i = skip_past_end_exec(toks, i + 1);
            } else if c0 == '$' {
                i = i + 1;
            } else if c0 == '0' || c0 == '1' || c0 == 'x' || c0 == 'X' || c0 == 'z' || c0 == 'Z' {
                if tn >= 2 {
                    let code = ts0.substring_char(1, tn).to_owned();
                    proof {
                        assert(code@ =~= tok@.skip(1));
                    }
                    done.push(VcdCommand::ChangeScalar(code, c0 == '1'));
                }
                i = i + 1;
            } else if c0 == 'b' || c0 == 'B' {
                if n - i > 1 {
                    let mut bits: Vec<bool> = Vec::new();
                    let mut j: usize = 1;
                    while j < tn
                        invariant
                            1 <= j <= tn,
                            tn == ts0@.len(),
                            ts0@ == tok@,
                            bits@.len() == j - 1,
                            forall|x: int|
                                0 <= x < j - 1 ==> #[trigger] bits@[x] == (ts0@[x + 1] == '1'),
                        decreases tn - j,
                    {
                        let cb = ts0.get_char(j);
                        bits.push(cb == '1');
                        j = j + 1;
                    }
                    proof {
                        assert(bits@ =~= tok@.skip(1).map_values(|c: char| c == '1'));
                    }
                    done.push(VcdCommand::ChangeVector(toks[i + 1].clone(), bits));
                    proof {
                        assert(v[i0 + 1] == toks@[i0 + 1]@);
                    }
                    i = i + 2;
                } else {
                    i = i + 1;
                }
            } else if c0 == 'r' || c0 == 'R' || c0 == 's' || c0 == 'S' {
                if n - i > 1 {
                    i = i + 2;
                } else {
                    i = i + 1;
                }
            } else {
                i = i + 1;
            }
        }
        proof {
            if done@.len() > done0.len() {
                assert(cmd_views(done@) =~= cmd_views(done0).push(done@.last()@));
            } else {
                assert(cmd_views(done@) =~= cmd_views(done0));
            }
            assert(cmd_views(done@) + decode_from(v, i as int) =~= decode_from(v, start as int));
        }
    }
    proof {
        assert(decode_from(v, n as int) =~= Seq::<SpecCommand>::empty());
        assert(cmd_views(done@) =~= cmd_views(done@) + decode_from(v, n as int));
    }
    done
}


/// A mid-stream timescale reading the replay can accept.
pub open spec fn scmd_ok(c: SpecCommand, cycle_fs: nat) -> bool {
    c matches SpecCommand::Timescale(ts) ==> (ts.fs() > 0 && 1 <= cycle_fs / ts.fs() <= u64::MAX)
}

/// Clock-and-cycle state of a replay, without any signal data.
pub struct CountState {
    pub t: nat,
    pub ctts: nat,
    pub cyc: nat,
}

/// One decoded command applied to the clock state.
pub open spec fn count_step_v(st: CountState, c: SpecCommand, cycle_fs: nat) -> CountState {
    match c {
        SpecCommand::Timescale(ts) => CountState { ctts: cycle_fs / ts.fs(), ..st },
        SpecCommand::Timestamp(t) => {
            if t > st.t && st.ctts > 0 {
                let k = ((t - st.t) as nat) / st.ctts;
                CountState { t: (st.t + k * st.ctts) as nat, cyc: st.cyc + k, ..st }
            } else {
                st
            }
        },
        _ => st,
    }
}

/// Clock state after a whole decoded command sequence.
pub open spec fn count_run_v(cmds: Seq<SpecCommand>, cycle_fs: nat, ts_fs: nat) -> CountState
    decreases cmds.len(),
{
    if cmds.len() == 0 {
        CountState { t: 0, ctts: cycle_fs / ts_fs, cyc: 0 }
    } else {
        count_step_v(count_run_v(cmds.drop_last(), cycle_fs, ts_fs), cmds.last(), cycle_fs)
    }
}

/// The clock components of a signal replay depend only on the command
/// readings.
proof fn lemma_count_bridge(cmds: Seq<VcdCommand>, cf: nat, tf: nat)
    ensures
        ({
            let a = sig_run(cmds, cf, tf, Seq::empty(), 0);
            let b = count_run_v(cmd_views(cmds), cf, tf);
            a.t == b.t && a.ctts == b.ctts && a.hist.len() == b.cyc
        }),
    decreases cmds.len(),
{
    if cmds.len() > 0 {
        lemma_count_bridge(cmds.drop_last(), cf, tf);
        assert(cmd_views(cmds).drop_last() =~= cmd_views(cmds.drop_last()));
        assert(cmd_views(cmds).last() == cmds.last()@);
    } else {
        assert(cmd_views(cmds).len() == 0);
    }
}

/// The header scanned from raw log bytes.
pub open spec fn spec_header_of(input: Seq<u8>) -> Option<crate::load::parse::HeaderInfo> {
    scan_header(spec_tokens(input), 0, Seq::empty(), Seq::empty(), Seq::empty(), None)
}

/// The log's native time base: the declared one, or one picosecond.
pub open spec fn base_timescale(h: crate::load::parse::HeaderInfo) -> SimTime {
    match h.timescale {
        Some(t) => t,
        None => SimTime { value: 1, unit: SimTimeUnit::Ps },
    }
}

/// The sampling granularity: the caller's, or the log's native time base.
pub open spec fn chosen_cycle_time(
    h: crate::load::parse::HeaderInfo,
    cycle_time: Option<SimTime>,
) -> SimTime {
    match cycle_time {
        Some(t) => t,
        None => base_timescale(h),
    }
}

/// Exactly when a log can be opened: a readable header, a positive cycle
/// granularity no finer than any declared time base, and a cycle count
/// whose extent fits the machine's words.
pub open spec fn loadable(input: Seq<u8>, cycle_time: Option<SimTime>) -> bool {
    match spec_header_of(input) {
        Some(h) => {
            let ts = base_timescale(h);
            let ct = chosen_cycle_time(h, cycle_time);
            let cmds = decode_from(spec_tokens(input), h.body);
            let cnt = count_run_v(cmds, ct.fs(), ts.fs()).cyc;
            &&& ts.fs() > 0
            &&& ct.fs() > 0
            &&& 1 <= ct.fs() / ts.fs() <= u64::MAX
            &&& (forall|i: int| 0 <= i < cmds.len() ==> scmd_ok(#[trigger] cmds[i], ct.fs()))
            &&& cnt <= usize::MAX
            &&& ct.value * cnt <= u64::MAX
        },
        None => false,
    }
}

/// Counts the cycle boundaries a command index crosses.
fn count_cycles(cmds: &Vec<VcdCommand>, cycle_time: SimTime, timescale: SimTime) -> (r: u64)
    requires
        timescale.fs() > 0,
        1 <= cycle_time.fs() / timescale.fs() <= u64::MAX,
        forall|i: int| 0 <= i < cmds@.len() ==> cmd_ok(#[trigger] cmds@[i], cycle_time.fs()),
    ensures
        r == cycle_count_of(cmds@, cycle_time.fs(), timescale.fs()),
{
    let ghost cf = cycle_time.fs();
    let ghost tf = timescale.fs();
    let mut cur_t: u64 = 0;
    let mut cyc: u64 = 0;
    let mut ctts: u64 = cycle_time.divide(timescale);
    let n = cmds.len();
    let mut i: usize = 0;
    proof {
        assert(cmds@.take(0) =~= Seq::<VcdCommand>::empty());
    }
    while i < n
        invariant
            i <= n,
            n == cmds@.len(),
            cf == cycle_time.fs(),
            tf == timescale.fs(),
            ctts >= 1,
            cyc <= cur_t,
            forall|j: int| 0 <= j < cmds@.len() ==> cmd_ok(#[trigger] cmds@[j], cf),
            ({
                let st = sig_run(cmds@.take(i as int), cf, tf, Seq::empty(), 0);
                &&& cur_t == st.t
                &&& ctts == st.ctts
                &&& cyc == st.hist.len()
            }),
        decreases n - i,
    {
        proof {
            lemma_sig_run_step(cmds@, i as int, cf, tf, Seq::empty(), 0);
        }
        match &cmds[i] {
            VcdCommand::Timescale(ts) => {
                assert(cmd_ok(cmds@[i as int], cf));
                ctts = cycle_time.divide(*ts);
            },
            VcdCommand::Timestamp(tv) => {
                let t = *tv;
                if t > cur_t {
                    proof {
                        lemma_advance(t as int, cur_t as int, ctts as int);
                    }
                    let k = (t - cur_t) / ctts;
                    cur_t = cur_t + k * ctts;
                    cyc = cyc + k;
                }
            },
            VcdCommand::ChangeScalar(_, _) => {
            },
            VcdCommand::ChangeVector(_, _) => {
            },
        }
        i = i + 1;
    }
    proof {
        assert(cmds@.take(n as int) =~= cmds@);
    }
    cyc
}

impl VcdLoader {
    pub closed spec fn spec_code(&self, i: int) -> Option<Seq<char>> {
        match self.codes@[i] {
            Some(c) => Some(c@),
            None => None,
        }
    }

    pub closed spec fn spec_width(&self, i: int) -> nat {
        self.widths@[i] as nat
    }

    pub closed spec fn spec_timescale(&self) -> SimTime {
        self.timescale
    }

    pub closed spec fn spec_commands(&self) -> Seq<SpecCommand> {
        cmd_views(self.commands@)
    }

    /// Opens a log from its raw bytes, at the given cycle granularity or
    /// the log's own time base.
    ///
    /// One pass decodes the declarations and the change log and counts
    /// the cycle boundaries; no sample data is decoded yet. The log is
    /// rejected when its header is malformed, when the chosen cycle
    /// granularity is zero or finer than a declared time base, or when
    /// the cycle extent overflows the machine's words.
    pub fn new(input: &Vec<u8>, cycle_time: Option<SimTime>) -> (r: Result<VcdLoader, Error>)
        ensures
            (match r {
                Ok(l) => {
                    &&& loadable(input@, cycle_time)
                    &&& spec_header_of(input@) matches Some(h)
                    &&& (spec_header_of(input@) matches Some(h) ==> {
                        &&& l.wf()
                        &&& l.spec_num_signals() == h.decls.len()
                        &&& (forall|i: int|
                            0 <= i < h.decls.len() ==> l.spec_name(i) == (#[trigger] h.decls[i]).name
                                && l.spec_format(i) == h.decls[i].format && l.spec_code(i)
                                == h.decls[i].code && l.spec_width(i) == h.decls[i].width)
                        &&& l.spec_cycle_time() == chosen_cycle_time(h, cycle_time)
                        &&& l.spec_timescale() == base_timescale(h)
                        &&& l.spec_commands() == decode_from(spec_tokens(input@), h.body)
                    })
                },
                Err(_) => !loadable(input@, cycle_time),
            }),
    {
        let toks = tokenize(&input);
        proof {
            assert(tok_views(toks@) =~= spec_tokens(input@));
        }
        let h = match parse_header(&toks) {
            Some(h) => h,
            None => {
                return Err(Error::IoError("unreadable event log header".to_owned()));
            },
        };
        let ghost hi = spec_header_of(input@)->Some_0;
        let timescale = match h.timescale {
            Some(t) => t,
            None => SimTime::new(1, SimTimeUnit::Ps),
        };
        let ct = match cycle_time {
            Some(t) => t,
            None => timescale,
        };
        proof {
            lemma_fs_positive(timescale);
            lemma_fs_positive(ct);
        }
        if timescale.get_value() == 0 {
            return Err(Error::InvalidTime("a time base of zero magnitude".to_owned()));
        }
        if ct.get_value() == 0 {
            return Err(Error::InvalidTime("a cycle time of zero magnitude".to_owned()));
        }
        proof {
            lemma_fs_in_u128(ct);
            lemma_fs_in_u128(timescale);
        }
        let a: u128 = (ct.get_value() as u128) * (ct.get_unit().to_multiplier() as u128);
        let b: u128 = (timescale.get_value() as u128) * (timescale.get_unit().to_multiplier()
            as u128);
        let q: u128 = a / b;
        if q == 0 || q > 0xffff_ffff_ffff_ffff {
            return Err(Error::InvalidTime("a cycle time finer than the log time base".to_owned()));
        }
        let cmds = decode_body(&toks, h.body);
        let ncmd = cmds.len();
        let mut i: usize = 0;
        while i < ncmd
            invariant
                i <= ncmd,
                ncmd == cmds@.len(),
                ct.fs() > 0,
                a == ct.fs(),
                spec_header_of(input@) == Some(hi),
                ct == chosen_cycle_time(hi, cycle_time),
                cmd_views(cmds@) == decode_from(spec_tokens(input@), hi.body),
                forall|j: int| 0 <= j < i ==> cmd_ok(#[trigger] cmds@[j], ct.fs()),
            decreases ncmd - i,
        {
            proof {
                assert(cmd_views(cmds@)[i as int] == cmds@[i as int]@);
            }
            match &cmds[i] {
                VcdCommand::Timescale(ts2) => {
                    proof {
                        lemma_fs_positive(*ts2);
                    }
                    if ts2.get_value() == 0 {
                        proof {
                            assert(!scmd_ok(cmd_views(cmds@)[i as int], ct.fs()));
                        }
                        return Err(Error::InvalidTime(
                            "a mid-stream time base of zero magnitude".to_owned(),
                        ));
                    }
                    proof {
                        lemma_fs_in_u128(*ts2);
                    }
                    let b2: u128 = (ts2.get_value() as u128) * (ts2.get_unit().to_multiplier()
                        as u128);
                    let q2: u128 = a / b2;
                    if q2 == 0 || q2 > 0xffff_ffff_ffff_ffff {
                        proof {
                            assert(!scmd_ok(cmd_views(cmds@)[i as int], ct.fs()));
                        }
                        return Err(Error::InvalidTime(
                            "a mid-stream time base finer than the cycle time".to_owned(),
                        ));
                    }
                    proof {
                        assert(cmd_ok(cmds@[i as int], ct.fs()));
                    }
                },
                VcdCommand::Timestamp(_) => {
                    proof {
                        assert(cmd_ok(cmds@[i as int], ct.fs()));
                    }
                },
                VcdCommand::ChangeScalar(_, _) => {
                    proof {
                        assert(cmd_ok(cmds@[i as int], ct.fs()));
                    }
                },
                VcdCommand::ChangeVector(_, _) => {
                    proof {
                        assert(cmd_ok(cmds@[i as int], ct.fs()));
                    }
                },
            }
            i = i + 1;
        }
        proof {
            assert forall|j: int|
                0 <= j < cmd_views(cmds@).len() implies scmd_ok(
                #[trigger] cmd_views(cmds@)[j],
                ct.fs(),
            ) by {
                assert(cmd_views(cmds@)[j] == cmds@[j]@);
                assert(cmd_ok(cmds@[j], ct.fs()));
            }
        }
        let cnt = count_cycles(&cmds, ct, timescale);

        proof {
            lemma_count_bridge(cmds@, ct.fs(), timescale.fs());
        }
        if cnt > (usize::MAX as u64) {
            return Err(Error::IoError("the log spans more cycles than this machine can address".to_owned()));
        }
        proof {
            vstd::arithmetic::mul::lemma_mul_upper_bound(
                ct.value as int,
                u64::MAX as int,
                cnt as int,
                u64::MAX as int,
            );
        }
        let cv: u128 = (ct.get_value() as u128) * (cnt as u128);
        if cv > 0xffff_ffff_ffff_ffff {
            return Err(Error::IoError("the log extent overflows the time representation".to_owned()));
        }
        Ok(
            VcdLoader {
                signals: h.signals,
                codes: h.codes,
                widths: h.widths,
                commands: cmds,
                num_cycles: cnt as usize,
                cycle_time: ct,
                timescale,
            },
        )
    }
}

/// A timestamp's femtosecond reading is positive exactly when its
/// magnitude is.
pub proof fn lemma_fs_positive(t: SimTime)
    ensures
        (t.fs() > 0) <==> (t.value > 0),
{
    assert(unit_multiplier(t.unit) > 0);
    if t.value > 0 {
        vstd::arithmetic::mul::lemma_mul_strictly_positive(
            t.value as int,
            unit_multiplier(t.unit) as int,
        );
    }
}


impl VcdLoader {
    /// The first-declaration search lands inside the declarations, on a
    /// declaration of the name, whenever the name is declared at all.
    pub proof fn lemma_first_with_bounds(&self, name: Seq<char>, from: int)
        requires
            0 <= from <= self.spec_num_signals(),
        ensures
            from <= self.first_with(name, from) <= self.spec_num_signals(),
            self.first_with(name, from) < self.spec_num_signals() ==> self.spec_name(
                self.first_with(name, from),
            ) == name,
            (forall|j: int|
                from <= j < self.spec_num_signals() && self.spec_name(j) == name
                    ==> self.first_with(name, from) <= j),
        decreases self.spec_num_signals() - from,
    {
        if from < self.spec_num_signals() && self.spec_name(from) != name {
            self.lemma_first_with_bounds(name, from + 1);
        }
    }

    /// A declared name resolves to a position inside the declarations.
    pub proof fn lemma_lookup_declared(&self, name: Seq<char>)
        requires
            self.name_declared(name),
        ensures
            0 <= self.spec_lookup(name) < self.spec_num_signals(),
            self.spec_name(self.spec_lookup(name)) == name,
    {
        self.lemma_first_with_bounds(name, 0);
        let w = choose|i: int|
            0 <= i < self.spec_num_signals() && self.spec_name(i) == name;
        if self.first_with(name, 0) == self.spec_num_signals() {
            assert(self.first_with(name, 0) <= w);
        }
    }
}

} // verus!
