use vstd::prelude::*;

use crate::data::{sig_views, PipelineConfig, Signal, SpecSignal};
use crate::error::Error;
use crate::formatting::WaveFormat;
use crate::re::{
    regex_is_match, regex_matches, regex_new, regex_set_is_match, regex_set_matches, regex_set_new,
    regex_set_valid, regex_valid,
};
use vstd::string::{StrSliceExecFns, StringExecFns};

verus! {

/// Appending one element to a filtered sequence keeps or drops exactly
/// that element.
pub proof fn lemma_filter_push<T>(x: Seq<T>, v: T, pred: spec_fn(T) -> bool)
    ensures
        x.push(v).filter(pred) == (if pred(v) {
            x.filter(pred).push(v)
        } else {
            x.filter(pred)
        }),
{
    reveal(Seq::filter);
    assert(x.push(v).drop_last() =~= x);
    assert(x.push(v).last() == v);
}

/// Filtering with the same predicate twice filters once.
pub proof fn lemma_filter_idempotent<T>(s: Seq<T>, pred: spec_fn(T) -> bool)
    ensures
        s.filter(pred).filter(pred) == s.filter(pred),
    decreases s.len(),
{
    reveal(Seq::filter);
    if s.len() > 0 {
        let a = s.drop_last().filter(pred);
        lemma_filter_idempotent(s.drop_last(), pred);
        if pred(s.last()) {
            lemma_filter_push(a, s.last(), pred);
        }
    }
}

/// Keeps signals whose name matches a regular expression; annotation
/// pseudo-signals are always kept.
pub struct Grep {
    re: regex::Regex,
}

/// What `Grep` keeps: comments, and names the expression matches.
pub open spec fn grep_keeps(re: regex::Regex, s: SpecSignal) -> bool {
    s.format is Comment || regex_matches(re, s.name)
}

impl Grep {
    pub closed spec fn spec_re(&self) -> regex::Regex {
        self.re
    }

    /// Compiles the expression; an invalid pattern is rejected here, at
    /// construction, before the filter can enter a chain.
    pub fn new(expression: &str) -> (r: Result<Grep, Error>)
        ensures
            r is Ok <==> regex_valid(expression@),
            (r matches Err(e) ==> e matches Error::RegexErr(p) && p@ == expression@),
    {
        match regex_new(expression) {
            Some(re) => Ok(Grep { re }),
            None => Err(Error::RegexErr(expression.to_owned())),
        }
    }

    /// Keeps matching signals and all comments, in order, unchanged.
    pub fn translate_signals(&self, signals: &Vec<Signal<usize>>) -> (r: Vec<Signal<usize>>)
        ensures
            sig_views(r@) == sig_views(signals@).filter(
                |s: SpecSignal| grep_keeps(self.spec_re(), s),
            ),
    {
        let n = signals.len();
        let mut r: Vec<Signal<usize>> = Vec::new();
        let mut i: usize = 0;
        proof {
            reveal(Seq::filter);
            assert(sig_views(signals@.take(0)) =~= Seq::<SpecSignal>::empty());
            assert(sig_views(r@) =~= Seq::<SpecSignal>::empty());
        }
        while i < n
            invariant
                i <= n,
                n == signals@.len(),
                sig_views(r@) == sig_views(signals@.take(i as int)).filter(
                    |s: SpecSignal| grep_keeps(self.spec_re(), s),
                ),
            decreases n - i,
        {
            let ghost p = |s: SpecSignal| grep_keeps(self.spec_re(), s);
            let s = &signals[i];
            let keep = s.format.is_comment() || regex_is_match(&self.re, s.name.as_str());
            let ghost r0 = r@;
            if keep {
                r.push(Signal { id: s.id, name: s.name.clone(), format: s.format });
            }
            proof {
                let sv = SpecSignal { id: s.id as int, name: s.name@, format: s.format };
                assert(sig_views(signals@.take(i + 1)) =~= sig_views(signals@.take(i as int)).push(
                    sv,
                ));
                lemma_filter_push(sig_views(signals@.take(i as int)), sv, p);
                if keep {
                    assert(sig_views(r@) =~= sig_views(r0).push(sv));
                } else {
                    assert(sig_views(r@) =~= sig_views(r0));
                }
            }
            i = i + 1;
        }
        proof {
            assert(signals@.take(n as int) =~= signals@);
        }
        r
    }
}

/// Drops every annotation pseudo-signal.
pub struct RemoveComments {}

/// What `RemoveComments` keeps: everything but comments.
pub open spec fn not_comment(s: SpecSignal) -> bool {
    !(s.format is Comment)
}

impl RemoveComments {
    pub fn new() -> (r: Self)
        ensures
            true,
    {
        RemoveComments {  }
    }

    /// Keeps every value-carrying signal, in order, unchanged.
    pub fn translate_signals(&self, signals: &Vec<Signal<usize>>) -> (r: Vec<Signal<usize>>)
        ensures
            sig_views(r@) == sig_views(signals@).filter(|s: SpecSignal| not_comment(s)),
    {
        let n = signals.len();
        let mut r: Vec<Signal<usize>> = Vec::new();
        let mut i: usize = 0;
        proof {
            reveal(Seq::filter);
            assert(sig_views(signals@.take(0)) =~= Seq::<SpecSignal>::empty());
            assert(sig_views(r@) =~= Seq::<SpecSignal>::empty());
        }
        while i < n
            invariant
                i <= n,
                n == signals@.len(),
                sig_views(r@) == sig_views(signals@.take(i as int)).filter(
                    |s: SpecSignal| not_comment(s),
                ),
            decreases n - i,
        {
            let s = &signals[i];
            let keep = !s.format.is_comment();
            let ghost r0 = r@;
            if keep {
                r.push(Signal { id: s.id, name: s.name.clone(), format: s.format });
            }
            proof {
                let sv = SpecSignal { id: s.id as int, name: s.name@, format: s.format };
                assert(sig_views(signals@.take(i + 1)) =~= sig_views(signals@.take(i as int)).push(
                    sv,
                ));
                lemma_filter_push(
                    sig_views(signals@.take(i as int)),
                    sv,
                    |s: SpecSignal| not_comment(s),
                );
                if keep {
                    assert(sig_views(r@) =~= sig_views(r0).push(sv));
                } else {
                    assert(sig_views(r@) =~= sig_views(r0));
                }
            }
            i = i + 1;
        }
        proof {
            assert(signals@.take(n as int) =~= signals@);
        }
        r
    }
}

/// Keeps a signal unless the deny set matches it, except that an allow
/// match overrides a deny match; comments are kept unconditionally.
pub struct Ignore {
    allow: regex::RegexSet,
    deny: regex::RegexSet,
}

/// What `Ignore` keeps.
pub open spec fn ignore_keeps(
    allow: regex::RegexSet,
    deny: regex::RegexSet,
    s: SpecSignal,
) -> bool {
    s.format is Comment || regex_set_matches(allow, s.name) || !regex_set_matches(deny, s.name)
}

impl Ignore {
    pub closed spec fn spec_allow(&self) -> regex::RegexSet {
        self.allow
    }

    pub closed spec fn spec_deny(&self) -> regex::RegexSet {
        self.deny
    }

    /// Compiles both pattern sets; an invalid pattern is rejected here.
    pub fn new(allow: &Vec<String>, deny: &Vec<String>) -> (r: Result<Ignore, Error>)
        ensures
            r is Ok <==> (regex_set_valid(allow@.map_values(|p: String| p@)) && regex_set_valid(
                deny@.map_values(|p: String| p@),
            )),
            (r matches Err(e) ==> e matches Error::RegexErr(_)),
    {
        let allow_re = match regex_set_new(allow) {
            Some(s) => s,
            None => {
                return Err(Error::RegexErr("allow patterns".to_owned()));
            },
        };
        let deny_re = match regex_set_new(deny) {
            Some(s) => s,
            None => {
                return Err(Error::RegexErr("deny patterns".to_owned()));
            },
        };
        Ok(Ignore { allow: allow_re, deny: deny_re })
    }

    /// Keeps comments, allowed names, and names the deny set does not
    /// match, in order, unchanged.
    pub fn translate_signals(&self, signals: &Vec<Signal<usize>>) -> (r: Vec<Signal<usize>>)
        ensures
            sig_views(r@) == sig_views(signals@).filter(
                |s: SpecSignal| ignore_keeps(self.spec_allow(), self.spec_deny(), s),
            ),
    {
        let n = signals.len();
        let mut r: Vec<Signal<usize>> = Vec::new();
        let mut i: usize = 0;
        proof {
            reveal(Seq::filter);
            assert(sig_views(signals@.take(0)) =~= Seq::<SpecSignal>::empty());
            assert(sig_views(r@) =~= Seq::<SpecSignal>::empty());
        }
        while i < n
            invariant
                i <= n,
                n == signals@.len(),
                sig_views(r@) == sig_views(signals@.take(i as int)).filter(
                    |s: SpecSignal| ignore_keeps(self.spec_allow(), self.spec_deny(), s),
                ),
            decreases n - i,
        {
            let s = &signals[i];
            let keep = s.format.is_comment() || regex_set_is_match(&self.allow, s.name.as_str())
                || !regex_set_is_match(&self.deny, s.name.as_str());
            let ghost r0 = r@;
            if keep {
                r.push(Signal { id: s.id, name: s.name.clone(), format: s.format });
            }
            proof {
                let sv = SpecSignal { id: s.id as int, name: s.name@, format: s.format };
                assert(sig_views(signals@.take(i + 1)) =~= sig_views(signals@.take(i as int)).push(
                    sv,
                ));
                lemma_filter_push(
                    sig_views(signals@.take(i as int)),
                    sv,
                    |s: SpecSignal| ignore_keeps(self.spec_allow(), self.spec_deny(), s),
                );
                if keep {
                    assert(sig_views(r@) =~= sig_views(r0).push(sv));
                } else {
                    assert(sig_views(r@) =~= sig_views(r0));
                }
            }
            i = i + 1;
        }
        proof {
            assert(signals@.take(n as int) =~= signals@);
        }
        r
    }
}

/// Applying `Ignore` twice with the same allow and deny sets yields the
/// same visible signal list as applying it once.
pub proof fn lemma_ignore_idempotent(
    allow: regex::RegexSet,
    deny: regex::RegexSet,
    signals: Seq<SpecSignal>,
)
    ensures
        signals.filter(|s: SpecSignal| ignore_keeps(allow, deny, s)).filter(
            |s: SpecSignal| ignore_keeps(allow, deny, s),
        ) == signals.filter(|s: SpecSignal| ignore_keeps(allow, deny, s)),
{
    lemma_filter_idempotent(signals, |s: SpecSignal| ignore_keeps(allow, deny, s));
}

/// Rewrites a matching name prefix, leaving everything else untouched.
pub struct ReplacePrefix {
    prefix: String,
    replacement: String,
}

/// The renaming `ReplacePrefix` performs on one name.
pub open spec fn replaced_name(prefix: Seq<char>, replacement: Seq<char>, name: Seq<char>) -> Seq<
    char,
> {
    if name.len() >= prefix.len() && name.take(prefix.len() as int) == prefix {
        replacement + name.skip(prefix.len() as int)
    } else {
        name
    }
}

/// Whether one string begins with another.
fn has_prefix(name: &str, prefix: &str) -> (r: bool)
    ensures
        r == (name@.len() >= prefix@.len() && name@.take(prefix@.len() as int) == prefix@),
{
    let n = name.unicode_len();
    let m = prefix.unicode_len();
    if n < m {
        return false;
    }
    let mut i: usize = 0;
    while i < m
        invariant
            i <= m,
            m <= n,
            n == name@.len(),
            m == prefix@.len(),
            forall|j: int| 0 <= j < i ==> name@[j] == prefix@[j],
        decreases m - i,
    {
        if name.get_char(i) != prefix.get_char(i) {
            proof {
                assert(name@.take(m as int)[i as int] != prefix@[i as int]);
            }
            return false;
        }
        i = i + 1;
    }
    proof {
        assert(name@.take(m as int) =~= prefix@);
    }
    true
}

impl ReplacePrefix {
    pub closed spec fn spec_prefix(&self) -> Seq<char> {
        self.prefix@
    }

    pub closed spec fn spec_replacement(&self) -> Seq<char> {
        self.replacement@
    }

    pub fn new(prefix: String, replacement: String) -> (r: Self)
        ensures
            r.spec_prefix() == prefix@,
            r.spec_replacement() == replacement@,
    {
        ReplacePrefix { prefix, replacement }
    }

    /// Renames each signal whose name starts with the prefix; ids,
    /// formats, order and other names are untouched.
    pub fn translate_signals(&self, signals: &Vec<Signal<usize>>) -> (r: Vec<Signal<usize>>)
        ensures
            r@.len() == signals@.len(),
            forall|i: int|
                0 <= i < signals@.len() ==> {
                    &&& (#[trigger] r@[i]).id == signals@[i].id
                    &&& r@[i].format == signals@[i].format
                    &&& r@[i].name@ == replaced_name(
                        self.spec_prefix(),
                        self.spec_replacement(),
                        signals@[i].name@,
                    )
                },
    {
        let n = signals.len();
        let mut r: Vec<Signal<usize>> = Vec::new();
        let mut i: usize = 0;
        while i < n
            invariant
                i <= n,
                n == signals@.len(),
                r@.len() == i,
                forall|j: int|
                    0 <= j < i ==> {
                        &&& (#[trigger] r@[j]).id == signals@[j].id
                        &&& r@[j].format == signals@[j].format
                        &&& r@[j].name@ == replaced_name(
                            self.spec_prefix(),
                            self.spec_replacement(),
                            signals@[j].name@,
                        )
                    },
            decreases n - i,
        {
            let s = &signals[i];
            let name = if has_prefix(s.name.as_str(), self.prefix.as_str()) {
                let nl = s.name.as_str().unicode_len();
                let pl = self.prefix.as_str().unicode_len();
                let mut nn = self.replacement.clone();
                nn.append(s.name.as_str().substring_char(pl, nl));
                proof {
                    assert(s.name@.subrange(pl as int, nl as int) =~= s.name@.skip(pl as int));
                }
                nn
            } else {
                s.name.clone()
            };
            r.push(Signal { id: s.id, name, format: s.format });
            i = i + 1;
        }
        r
    }
}

/// Reclassifies vector signals whose name matches any pattern as analog,
/// carrying encoded display bounds; everything else is untouched.
pub struct Analog {
    patterns: regex::RegexSet,
    min: u64,
    max: u64,
}

/// The reclassification `Analog` performs on one signal.
pub open spec fn analog_view(
    patterns: regex::RegexSet,
    min: u64,
    max: u64,
    s: SpecSignal,
) -> SpecSignal {
    if regex_set_matches(patterns, s.name) {
        match s.format {
            WaveFormat::Vector(sz) => SpecSignal {
                format: WaveFormat::Analog(sz, min, max),
                ..s
            },
            WaveFormat::BitVector(sz) => SpecSignal {
                format: WaveFormat::Analog(sz, min, max),
                ..s
            },
            _ => s,
        }
    } else {
        s
    }
}

impl Analog {
    pub closed spec fn spec_patterns(&self) -> regex::RegexSet {
        self.patterns
    }

    pub closed spec fn spec_min(&self) -> u64 {
        self.min
    }

    pub closed spec fn spec_max(&self) -> u64 {
        self.max
    }

    /// Compiles the pattern set; an invalid pattern is rejected here. The
    /// bounds are opaque encoded display values, never interpreted.
    pub fn new(patterns: &Vec<String>, min: u64, max: u64) -> (r: Result<Analog, Error>)
        ensures
            r is Ok <==> regex_set_valid(patterns@.map_values(|p: String| p@)),
            (r matches Ok(a) ==> a.spec_min() == min && a.spec_max() == max),
            (r matches Err(e) ==> e matches Error::RegexErr(_)),
    {
        match regex_set_new(patterns) {
            Some(set) => Ok(Analog { patterns: set, min, max }),
            None => Err(Error::RegexErr("analog patterns".to_owned())),
        }
    }

    /// Reclassifies matching vector signals; ids, names and order are
    /// untouched.
    pub fn translate_signals(&self, signals: &Vec<Signal<usize>>) -> (r: Vec<Signal<usize>>)
        ensures
            sig_views(r@) == sig_views(signals@).map_values(
                |s: SpecSignal|
                    analog_view(self.spec_patterns(), self.spec_min(), self.spec_max(), s),
            ),
    {
        let n = signals.len();
        let mut r: Vec<Signal<usize>> = Vec::new();
        let mut i: usize = 0;
        proof {
            assert(sig_views(r@) =~= sig_views(signals@.take(0)).map_values(
                |s: SpecSignal|
                    analog_view(self.spec_patterns(), self.spec_min(), self.spec_max(), s),
            ));
        }
        while i < n
            invariant
                i <= n,
                n == signals@.len(),
                sig_views(r@) == sig_views(signals@.take(i as int)).map_values(
                    |s: SpecSignal|
                        analog_view(self.spec_patterns(), self.spec_min(), self.spec_max(), s),
                ),
            decreases n - i,
        {
            let s = &signals[i];
            let fmt = if regex_set_is_match(&self.patterns, s.name.as_str()) {
                match s.format {
                    WaveFormat::Vector(sz) => WaveFormat::Analog(sz, self.min, self.max),
                    WaveFormat::BitVector(sz) => WaveFormat::Analog(sz, self.min, self.max),
                    other => other,
                }
            } else {
                s.format
            };
            let ghost r0 = r@;
            r.push(Signal { id: s.id, name: s.name.clone(), format: fmt });
            proof {
                let sv = SpecSignal { id: s.id as int, name: s.name@, format: s.format };
                let f = |s: SpecSignal|
                    analog_view(self.spec_patterns(), self.spec_min(), self.spec_max(), s);
                assert(sig_views(signals@.take(i + 1)) =~= sig_views(signals@.take(i as int)).push(
                    sv,
                ));
                assert(sig_views(signals@.take(i + 1)).map_values(f) =~= sig_views(
                    signals@.take(i as int),
                ).map_values(f).push(f(sv)));
                assert(sig_views(r@) =~= sig_views(r0).push(f(sv)));
            }
            i = i + 1;
        }
        proof {
            assert(signals@.take(n as int) =~= signals@);
        }
        r
    }
}


/// Keeps only signals named in the configured list, stably sorted by
/// their position in that list; an unmatched annotation inherits the key
/// of the most recently matched signal, so a comment stays beside the
/// block it annotates. Disabled, the filter is the identity.
pub struct SignalList {
    list: Vec<String>,
    enabled: bool,
}

/// Position a name sorts at: the last occurrence in the configured list.
pub open spec fn list_key(list: Seq<String>, name: Seq<char>) -> Option<int>
    decreases list.len(),
{
    if list.len() == 0 {
        None
    } else if list.last()@ == name {
        Some(list.len() - 1)
    } else {
        list_key(list.drop_last(), name)
    }
}

/// Sort keys assigned to the signals from position `i` on, carrying the
/// key most recently matched.
pub open spec fn keyed_from(
    list: Seq<String>,
    sigs: Seq<SpecSignal>,
    i: int,
    state: int,
) -> Seq<(int, SpecSignal, bool)>
    decreases sigs.len() - i,
{
    if i < 0 || i >= sigs.len() {
        Seq::empty()
    } else {
        match list_key(list, sigs[i].name) {
            Some(k) => seq![(k, sigs[i], true)] + keyed_from(list, sigs, i + 1, k),
            None => seq![(state, sigs[i], false)] + keyed_from(list, sigs, i + 1, state),
        }
    }
}

/// A keyed signal that survives the list filter: a matched name, or an
/// annotation.
pub open spec fn kept_item(t: (int, SpecSignal, bool)) -> bool {
    t.2 || t.1.format is Comment
}

/// The kept signals carrying sort key `k`, in input order.
pub open spec fn group_of(keyed: Seq<(int, SpecSignal, bool)>, k: int) -> Seq<SpecSignal>
    decreases keyed.len(),
{
    if keyed.len() == 0 {
        Seq::empty()
    } else {
        let rest = group_of(keyed.drop_last(), k);
        if kept_item(keyed.last()) && keyed.last().0 == k {
            rest.push(keyed.last().1)
        } else {
            rest
        }
    }
}

/// The kept signals with keys below `k`, ordered by key and stably
/// within each key.
pub open spec fn groups_upto(keyed: Seq<(int, SpecSignal, bool)>, k: int) -> Seq<SpecSignal>
    decreases k,
{
    if k <= 0 {
        Seq::empty()
    } else {
        groups_upto(keyed, k - 1) + group_of(keyed, k - 1)
    }
}

/// What the list filter shows: its input unchanged when disabled, else
/// the kept signals stably sorted by list position.
pub open spec fn signal_list_output(
    list: Seq<String>,
    enabled: bool,
    sigs: Seq<SpecSignal>,
) -> Seq<SpecSignal> {
    if !enabled {
        sigs
    } else {
        groups_upto(keyed_from(list, sigs, 0, 0), list.len() as int + 1)
    }
}

/// Position a name sorts at, by scanning the list.
fn list_key_exec(list: &Vec<String>, name: &String) -> (r: Option<usize>)
    ensures
        (match r {
            Some(k) => list_key(list@, name@) == Some(k as int),
            None => list_key(list@, name@) is None,
        }),
{
    let n = list.len();
    let mut best: Option<usize> = None;
    let mut j: usize = 0;
    proof {
        assert(list@.take(0) =~= Seq::<String>::empty());
    }
    while j < n
        invariant
            j <= n,
            n == list@.len(),
            (match best {
                Some(k) => list_key(list@.take(j as int), name@) == Some(k as int),
                None => list_key(list@.take(j as int), name@) is None,
            }),
        decreases n - j,
    {
        proof {
            assert(list@.take(j + 1).drop_last() =~= list@.take(j as int));
            assert(list@.take(j + 1).last() == list@[j as int]);
        }
        if crate::load::parse::str_is(&list[j], name.as_str()) {
            best = Some(j);
        }
        j = j + 1;
    }
    proof {
        assert(list@.take(n as int) =~= list@);
    }
    best
}

impl SignalList {
    pub closed spec fn spec_list(&self) -> Seq<String> {
        self.list@
    }

    pub closed spec fn spec_enabled(&self) -> bool {
        self.enabled
    }

    /// A list filter over the given ordered names, initially enabled.
    pub fn new(signals: Vec<String>) -> (r: Self)
        ensures
            r.spec_list() == signals@,
            r.spec_enabled(),
    {
        SignalList { list: signals, enabled: true }
    }

    /// Reads the configured name list and switch.
    pub fn configure_pipeline(&mut self, config: &PipelineConfig) -> (r: Result<(), Error>)
        ensures
            r is Ok,
            final(self).spec_list() == config.name_list@,
            final(self).spec_enabled() == config.enable_filter_list,
    {
        let n = config.name_list.len();
        let mut list: Vec<String> = Vec::new();
        let mut i: usize = 0;
        while i < n
            invariant
                i <= n,
                n == config.name_list@.len(),
                list@ =~= config.name_list@.take(i as int),
            decreases n - i,
        {
            list.push(config.name_list[i].clone());
            proof {
                assert(config.name_list@.take(i + 1) =~= config.name_list@.take(i as int).push(
                    config.name_list@[i as int],
                ));
            }
            i = i + 1;
        }
        proof {
            assert(config.name_list@.take(n as int) =~= config.name_list@);
        }
        self.list = list;
        self.enabled = config.enable_filter_list;
        Ok(())
    }

    /// Keeps the listed signals and adjacent comments, stably sorted by
    /// list position; the identity when disabled.
    pub fn translate_signals(&self, signals: &Vec<Signal<usize>>) -> (r: Vec<Signal<usize>>)
        ensures
            sig_views(r@) == signal_list_output(
                self.spec_list(),
                self.spec_enabled(),
                sig_views(signals@),
            ),
    {
        let n = signals.len();
        if !self.enabled {
            let mut r: Vec<Signal<usize>> = Vec::new();
            let mut i: usize = 0;
            while i < n
                invariant
                    i <= n,
                    n == signals@.len(),
                    sig_views(r@) =~= sig_views(signals@.take(i as int)),
                decreases n - i,
            {
                let s = &signals[i];
                let ghost r0 = r@;
                r.push(Signal { id: s.id, name: s.name.clone(), format: s.format });
                proof {
                    let sv = SpecSignal { id: s.id as int, name: s.name@, format: s.format };
                    assert(sig_views(signals@.take(i + 1)) =~= sig_views(
                        signals@.take(i as int),
                    ).push(sv));
                    assert(sig_views(r@) =~= sig_views(r0).push(sv));
                }
                i = i + 1;
            }
            proof {
                assert(signals@.take(n as int) =~= signals@);
            }
            return r;
        }
        let ghost sv = sig_views(signals@);
        let ghost lv = self.list@;
        let mut keyed: Vec<(usize, Signal<usize>, bool)> = Vec::new();
        let mut state: usize = 0;
        let mut i: usize = 0;
        while i < n
            invariant
                i <= n,
                n == signals@.len(),
                sv == sig_views(signals@),
                lv == self.list@,
                keyed_views(keyed@) + keyed_from(lv, sv, i as int, state as int) == keyed_from(
                    lv,
                    sv,
                    0,
                    0,
                ),
            decreases n - i,
        {
            let s = &signals[i];
            let ghost k0 = keyed@;
            let ghost st0 = state as int;
            proof {
                assert(sv[i as int] == (SpecSignal {
                    id: s.id as int,
                    name: s.name@,
                    format: s.format,
                }));
            }
            match list_key_exec(&self.list, &s.name) {
                Some(k) => {
                    keyed.push(
                        (k, Signal { id: s.id, name: s.name.clone(), format: s.format }, true),
                    );
                    state = k;
                },
                None => {
                    keyed.push(
                        (state, Signal { id: s.id, name: s.name.clone(), format: s.format }, false),
                    );
                },
            }
            proof {
                let svi = SpecSignal { id: s.id as int, name: s.name@, format: s.format };
                let tv = keyed_views(keyed@).last();
                assert(keyed_views(keyed@) =~= keyed_views(k0).push(tv));
                assert(keyed_from(lv, sv, i as int, st0) == seq![tv] + keyed_from(
                    lv,
                    sv,
                    i + 1,
                    state as int,
                ));
                assert(keyed_views(k0) + keyed_from(lv, sv, i as int, st0) =~= keyed_views(
                    keyed@,
                ) + keyed_from(lv, sv, i + 1, state as int));
            }
            i = i + 1;
        }
        proof {
            assert(keyed_from(lv, sv, n as int, state as int) =~= Seq::<(
                int,
                SpecSignal,
                bool,
            )>::empty());
            assert(keyed_views(keyed@) =~= keyed_views(keyed@) + keyed_from(
                lv,
                sv,
                n as int,
                state as int,
            ));
        }
        let m = keyed.len();
        let cap = self.list.len();
        let mut out: Vec<Signal<usize>> = Vec::new();
        let mut k: usize = 0;
        proof {
            assert(sig_views(out@) =~= Seq::<SpecSignal>::empty());
        }
        loop
            invariant_except_break
                k <= cap,
                m == keyed@.len(),
                lv == self.list@,
                sv == sig_views(signals@),
                keyed_views(keyed@) == keyed_from(lv, sv, 0, 0),
                sig_views(out@) == groups_upto(keyed_views(keyed@), k as int),
            ensures
                lv == self.list@,
                sv == sig_views(signals@),
                keyed_views(keyed@) == keyed_from(lv, sv, 0, 0),
                sig_views(out@) == groups_upto(keyed_views(keyed@), cap as int + 1),
            decreases cap - k,
        {
            let mut j: usize = 0;
            proof {
                assert(keyed_views(keyed@).take(0) =~= Seq::<(int, SpecSignal, bool)>::empty());
                assert(group_of(keyed_views(keyed@).take(0), k as int) =~= Seq::<
                    SpecSignal,
                >::empty());
            }
            while j < m
                invariant
                    j <= m,
                    m == keyed@.len(),
                    k <= cap,
                    sig_views(out@) == groups_upto(keyed_views(keyed@), k as int) + group_of(
                        keyed_views(keyed@).take(j as int),
                        k as int,
                    ),
                decreases m - j,
            {
                let t = &keyed[j];
                let keep = (t.2 || t.1.format.is_comment()) && t.0 == k;
                let ghost o0 = out@;
                if keep {
                    out.push(
                        Signal { id: t.1.id, name: t.1.name.clone(), format: t.1.format },
                    );
                }
                proof {
                    let kv = keyed_views(keyed@);
                    let tv = kv[j as int];
                    assert(kv.take(j + 1).drop_last() =~= kv.take(j as int));
                    assert(kv.take(j + 1).last() == tv);
                    if keep {
                        assert(group_of(kv.take(j + 1), k as int) =~= group_of(
                            kv.take(j as int),
                            k as int,
                        ).push(tv.1));
                        assert(sig_views(out@) =~= sig_views(o0).push(tv.1));
                    } else {
                        assert(group_of(kv.take(j + 1), k as int) =~= group_of(
                            kv.take(j as int),
                            k as int,
                        ));
                        assert(sig_views(out@) =~= sig_views(o0));
                    }
                }
                j = j + 1;
            }
            proof {
                assert(keyed_views(keyed@).take(m as int) =~= keyed_views(keyed@));
            }
            if k == cap {
                break;
            }
            k = k + 1;
        }
        proof {
            assert(sig_views(out@) == signal_list_output(
                self.spec_list(),
                self.spec_enabled(),
                sig_views(signals@),
            ));
        }
        out
    }
}

/// The readings of an executable keyed-signal vector.
pub open spec fn keyed_views(s: Seq<(usize, Signal<usize>, bool)>) -> Seq<(int, SpecSignal, bool)> {
    s.map_values(
        |t: (usize, Signal<usize>, bool)|
            (
                t.0 as int,
                SpecSignal { id: t.1.id as int, name: t.1.name@, format: t.1.format },
                t.2,
            ),
    )
}

} // verus!
